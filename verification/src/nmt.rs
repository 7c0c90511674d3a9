//! Network management (NMT) slave state machine.

use crate::cobid::NodeId;
use crate::transport::{CanFrame, FrameView};
use vstd::prelude::*;

verus! {

/// CANopen NMT states.
#[derive(Clone, Copy, Debug, PartialEq, Eq, Structural)]
pub enum NmtState {
    Initializing,
    PreOperational,
    Operational,
    Stopped,
}

impl NmtState {
    /// The heartbeat byte of a state, for use in contracts.
    pub open spec fn spec_heartbeat_byte(self) -> u8 {
        match self {
            NmtState::Initializing => 0x00,
            NmtState::Stopped => 0x04,
            NmtState::Operational => 0x05,
            NmtState::PreOperational => 0x7F,
        }
    }

    /// The state that a heartbeat byte stands for, for use in contracts.
    pub open spec fn spec_from_heartbeat_byte(byte: u8) -> Option<NmtState> {
        if byte == 0x00 {
            Some(NmtState::Initializing)
        } else if byte == 0x04 {
            Some(NmtState::Stopped)
        } else if byte == 0x05 {
            Some(NmtState::Operational)
        } else if byte == 0x7F {
            Some(NmtState::PreOperational)
        } else {
            None
        }
    }

    /// Heartbeat state byte encoding.
    #[verifier::when_used_as_spec(spec_heartbeat_byte)]
    pub fn heartbeat_byte(self) -> (r: u8)
        ensures
            r == self.heartbeat_byte(),
    {
        match self {
            NmtState::Initializing => 0x00,
            NmtState::Stopped => 0x04,
            NmtState::Operational => 0x05,
            NmtState::PreOperational => 0x7F,
        }
    }

    /// Decode a heartbeat state byte.
    #[verifier::when_used_as_spec(spec_from_heartbeat_byte)]
    pub fn from_heartbeat_byte(byte: u8) -> (r: Option<Self>)
        ensures
            r == Self::from_heartbeat_byte(byte),
    {
        match byte {
            0x00 => Some(NmtState::Initializing),
            0x04 => Some(NmtState::Stopped),
            0x05 => Some(NmtState::Operational),
            0x7F => Some(NmtState::PreOperational),
            _ => None,
        }
    }
}

/// The heartbeat encoding and its decoding undo each other.
pub proof fn lemma_heartbeat_byte_roundtrip(state: NmtState, byte: u8)
    ensures
        NmtState::from_heartbeat_byte(state.heartbeat_byte()) == Some(state),
        NmtState::from_heartbeat_byte(byte) matches Some(s) ==> s.heartbeat_byte() == byte,
{
}

/// NMT commands sent by the NMT master.
#[derive(Clone, Copy, Debug, PartialEq, Eq, Structural)]
pub enum NmtCommand {
    StartRemoteNode,
    StopRemoteNode,
    EnterPreOperational,
    ResetNode,
    ResetCommunication,
}

impl NmtCommand {
    /// The byte that encodes a command, for use in contracts.
    pub open spec fn spec_to_byte(self) -> u8 {
        match self {
            NmtCommand::StartRemoteNode => 0x01,
            NmtCommand::StopRemoteNode => 0x02,
            NmtCommand::EnterPreOperational => 0x80,
            NmtCommand::ResetNode => 0x81,
            NmtCommand::ResetCommunication => 0x82,
        }
    }

    /// The command that a byte encodes, for use in contracts.
    pub open spec fn spec_from_byte(b: u8) -> Option<NmtCommand> {
        if b == 0x01 {
            Some(NmtCommand::StartRemoteNode)
        } else if b == 0x02 {
            Some(NmtCommand::StopRemoteNode)
        } else if b == 0x80 {
            Some(NmtCommand::EnterPreOperational)
        } else if b == 0x81 {
            Some(NmtCommand::ResetNode)
        } else if b == 0x82 {
            Some(NmtCommand::ResetCommunication)
        } else {
            None
        }
    }

    #[verifier::when_used_as_spec(spec_from_byte)]
    pub fn from_byte(b: u8) -> (r: Option<Self>)
        ensures
            r == Self::from_byte(b),
    {
        match b {
            0x01 => Some(NmtCommand::StartRemoteNode),
            0x02 => Some(NmtCommand::StopRemoteNode),
            0x80 => Some(NmtCommand::EnterPreOperational),
            0x81 => Some(NmtCommand::ResetNode),
            0x82 => Some(NmtCommand::ResetCommunication),
            _ => None,
        }
    }

    #[verifier::when_used_as_spec(spec_to_byte)]
    pub fn to_byte(self) -> (r: u8)
        ensures
            r == self.to_byte(),
    {
        match self {
            NmtCommand::StartRemoteNode => 0x01,
            NmtCommand::StopRemoteNode => 0x02,
            NmtCommand::EnterPreOperational => 0x80,
            NmtCommand::ResetNode => 0x81,
            NmtCommand::ResetCommunication => 0x82,
        }
    }

    /// Build a CAN frame for this NMT command.
    ///
    /// `target_node` is the target node ID (1-127), or 0 to broadcast to all nodes.
    pub fn to_frame(self, target_node: u8) -> (r: CanFrame)
        ensures
            r@ == (FrameView { id: 0x000, data: seq![self.to_byte(), target_node] }),
    {
        let bytes: [u8; 2] = [self.to_byte(), target_node];
        assert(bytes@ =~= seq![self.to_byte(), target_node]);
        CanFrame::new(0x000, bytes.as_slice()).unwrap()
    }
}

/// The command encoding and its decoding undo each other.
pub proof fn lemma_command_byte_roundtrip(cmd: NmtCommand, byte: u8)
    ensures
        NmtCommand::from_byte(cmd.to_byte()) == Some(cmd),
        NmtCommand::from_byte(byte) matches Some(c) ==> c.to_byte() == byte,
{
}

/// Result of processing an NMT command, indicating what kind of
/// reset (if any) the node should perform.
#[derive(Clone, Copy, Debug, PartialEq, Eq, Structural)]
pub enum NmtTransition {
    /// No state change occurred (wrong target or same state).
    NoChange,
    /// Normal state transition (Start, Stop, EnterPreOp).
    StateChanged,
    /// ResetNode: the node should reset all application parameters to defaults,
    /// re-initialize PDOs and heartbeat, then boot.
    ResetApplication,
    /// ResetCommunication: the node should reset only communication parameters
    /// (PDO config, heartbeat) to defaults, keep application data, then boot.
    ResetCommunication,
}

/// The state that a command asks for.
pub open spec fn commanded_state(cmd: NmtCommand) -> NmtState {
    match cmd {
        NmtCommand::StartRemoteNode => NmtState::Operational,
        NmtCommand::StopRemoteNode => NmtState::Stopped,
        NmtCommand::EnterPreOperational => NmtState::PreOperational,
        NmtCommand::ResetNode | NmtCommand::ResetCommunication => NmtState::Initializing,
    }
}

/// What a command does to a node: the state after it, and the transition.
/// Commands to other nodes and commands to the present state do nothing.
pub open spec fn nmt_step(state: NmtState, cmd: NmtCommand, target: u8, our_node: NodeId) -> (
    NmtState,
    NmtTransition,
) {
    if (target != 0 && target != our_node.raw()) || state == commanded_state(cmd) {
        (state, NmtTransition::NoChange)
    } else {
        (
            commanded_state(cmd),
            match cmd {
                NmtCommand::ResetNode => NmtTransition::ResetApplication,
                NmtCommand::ResetCommunication => NmtTransition::ResetCommunication,
                _ => NmtTransition::StateChanged,
            },
        )
    }
}

/// NMT state machine handler.
pub struct NmtHandler {
    state: NmtState,
}

impl View for NmtHandler {
    type V = NmtState;

    closed spec fn view(&self) -> NmtState {
        self.state
    }
}

impl NmtHandler {
    pub fn new() -> (r: Self)
        ensures
            r@ == NmtState::Initializing,
    {
        NmtHandler { state: NmtState::Initializing }
    }

    pub fn state(&self) -> (r: NmtState)
        ensures
            r == self@,
    {
        self.state
    }

    /// Called after node initialization completes.
    pub fn boot_complete(&mut self)
        ensures
            final(self)@ == NmtState::PreOperational,
    {
        self.state = NmtState::PreOperational;
    }

    /// Process an incoming NMT command (from COB-ID 0x000).
    /// `target` is the node ID byte from the NMT frame (0 = all nodes).
    /// Returns the type of transition that occurred.
    pub fn process_command(&mut self, cmd: NmtCommand, target: u8, our_node: NodeId) -> (r:
        NmtTransition)
        ensures
            (final(self)@, r) == nmt_step(old(self)@, cmd, target, our_node),
    {
        if target != 0 && target != our_node.raw() {
            return NmtTransition::NoChange;
        }
        let new_state = match cmd {
            NmtCommand::StartRemoteNode => NmtState::Operational,
            NmtCommand::StopRemoteNode => NmtState::Stopped,
            NmtCommand::EnterPreOperational => NmtState::PreOperational,
            NmtCommand::ResetNode | NmtCommand::ResetCommunication => NmtState::Initializing,
        };
        if self.state == new_state {
            return NmtTransition::NoChange;
        }
        self.state = new_state;
        match cmd {
            NmtCommand::ResetNode => NmtTransition::ResetApplication,
            NmtCommand::ResetCommunication => NmtTransition::ResetCommunication,
            _ => NmtTransition::StateChanged,
        }
    }
}

/// A command addressed to a node, or broadcast, always leaves the node in the
/// commanded state; repeating it changes nothing more.
pub proof fn lemma_command_is_idempotent(
    state: NmtState,
    cmd: NmtCommand,
    target: u8,
    our_node: NodeId,
)
    requires
        target == 0 || target == our_node.raw(),
    ensures
        nmt_step(state, cmd, target, our_node).0 == commanded_state(cmd),
        nmt_step(nmt_step(state, cmd, target, our_node).0, cmd, target, our_node) == (
            commanded_state(cmd),
            NmtTransition::NoChange,
        ),
{
}

} // verus!
