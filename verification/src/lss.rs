//! Layer Setting Services (LSS) slave.
//!
//! LSS allows an LSS master to discover and configure unconfigured nodes
//! on the bus. The slave receives requests on `LSS_REQUEST_COB` and sends
//! responses on `LSS_RESPONSE_COB`.
//!
//! Supported services:
//! - Switch Mode Global (waiting to configuration and back)
//! - Switch Mode Selective (by identity: vendor/product/revision/serial)
//! - Configure Node ID
//! - Store Configuration (signals the application with an event)
//! - Identity inquiry (vendor, product, revision, serial, node ID)

use crate::bytes::{le_u32, padded, u32_bytes, u32_from_le, u32_to_le};
use crate::transport::{CanFrame, FrameView};
use vstd::prelude::*;

verus! {

/// LSS request COB-ID (master to slave).
pub const LSS_REQUEST_COB: u16 = 0x7E5;

/// LSS response COB-ID (slave to master).
pub const LSS_RESPONSE_COB: u16 = 0x7E4;

// LSS command specifiers (CiA 305).
pub const CS_SWITCH_MODE_GLOBAL: u8 = 0x04;

pub const CS_CONFIGURE_NODE_ID: u8 = 0x11;

pub const CS_STORE_CONFIGURATION: u8 = 0x17;

pub const CS_SWITCH_VENDOR: u8 = 0x40;

pub const CS_SWITCH_PRODUCT: u8 = 0x41;

pub const CS_SWITCH_REVISION: u8 = 0x42;

pub const CS_SWITCH_SERIAL: u8 = 0x43;

/// Answer to a selective switch in which every field matched.
pub const CS_SWITCHED: u8 = 0x44;

pub const CS_INQUIRE_VENDOR: u8 = 0x5A;

pub const CS_INQUIRE_PRODUCT: u8 = 0x5B;

pub const CS_INQUIRE_REVISION: u8 = 0x5C;

pub const CS_INQUIRE_SERIAL: u8 = 0x5D;

pub const CS_INQUIRE_NODE_ID: u8 = 0x5E;

/// Identity of a CANopen node (0x1018 record).
#[derive(Clone, Copy, Debug, PartialEq, Eq, Structural)]
pub struct LssIdentity {
    pub vendor_id: u32,
    pub product_code: u32,
    pub revision: u32,
    pub serial: u32,
}

impl Default for LssIdentity {
    fn default() -> (r: Self)
        ensures
            r == (LssIdentity { vendor_id: 0, product_code: 0, revision: 0, serial: 0 }),
    {
        LssIdentity { vendor_id: 0, product_code: 0, revision: 0, serial: 0 }
    }
}

/// LSS slave mode.
#[derive(Clone, Copy, Debug, PartialEq, Eq, Structural)]
pub enum LssMode {
    Waiting,
    Configuration,
}

/// Events the LSS slave wants the application to handle.
#[derive(Clone, Copy, Debug, PartialEq, Eq, Structural)]
pub enum LssEvent {
    /// Node ID was configured to the given value.
    NodeIdConfigured(u8),
    /// Master requested "store configuration": the application should
    /// save the current node ID to persistent storage.
    StoreConfiguration,
}

/// The identity fields that a selective switch has named correctly so far.
#[derive(Clone, Copy, Debug, PartialEq, Eq, Structural)]
pub struct SelectiveMatch {
    pub vendor: bool,
    pub product: bool,
    pub revision: bool,
}

/// The state of an LSS slave.
pub struct LssModel {
    pub identity: LssIdentity,
    pub node_id: u8,
    pub mode: LssMode,
    pub matched: SelectiveMatch,
    pub event: Option<LssEvent>,
}

/// No identity field has been named yet.
pub open spec fn no_match() -> SelectiveMatch {
    SelectiveMatch { vendor: false, product: false, revision: false }
}

/// A node ID that can be configured: 1 to 127, or 255 for "unconfigured".
pub open spec fn configurable(id: u8) -> bool {
    1 <= id <= 127 || id == 0xFF
}

/// The payload of a response: a command specifier and what belongs to it.
pub open spec fn response_data(cs: u8, rest: Seq<u8>) -> Seq<u8> {
    padded(seq![cs] + rest, 8)
}

impl LssModel {
    /// A new slave.
    pub open spec fn fresh(identity: LssIdentity, node_id: u8) -> LssModel {
        LssModel { identity, node_id, mode: LssMode::Waiting, matched: no_match(), event: None }
    }

    /// The slave after a request.
    pub open spec fn after(self, request: FrameView) -> LssModel {
        let d = request.data;
        let value = le_u32(d.skip(1));
        let configuring = self.mode == LssMode::Configuration;
        if request.id != LSS_REQUEST_COB || d.len() < 8 {
            self
        } else if d[0] == CS_SWITCH_MODE_GLOBAL {
            if d[1] == 0 {
                LssModel { mode: LssMode::Waiting, matched: no_match(), ..self }
            } else if d[1] == 1 {
                LssModel { mode: LssMode::Configuration, ..self }
            } else {
                self
            }
        } else if d[0] == CS_SWITCH_VENDOR {
            let matched = SelectiveMatch {
                vendor: value == self.identity.vendor_id,
                ..self.matched
            };
            LssModel { matched, ..self }
        } else if d[0] == CS_SWITCH_PRODUCT {
            let matched = SelectiveMatch {
                product: value == self.identity.product_code,
                ..self.matched
            };
            LssModel { matched, ..self }
        } else if d[0] == CS_SWITCH_REVISION {
            let matched = SelectiveMatch {
                revision: value == self.identity.revision,
                ..self.matched
            };
            LssModel { matched, ..self }
        } else if d[0] == CS_SWITCH_SERIAL {
            if self.selected(request) {
                LssModel { mode: LssMode::Configuration, ..self }
            } else {
                LssModel { matched: no_match(), ..self }
            }
        } else if d[0] == CS_CONFIGURE_NODE_ID && configuring && configurable(d[1]) {
            LssModel { node_id: d[1], event: Some(LssEvent::NodeIdConfigured(d[1])), ..self }
        } else if d[0] == CS_STORE_CONFIGURATION && configuring {
            LssModel { event: Some(LssEvent::StoreConfiguration), ..self }
        } else {
            self
        }
    }

    /// A request names the last field of this slave's identity, after all
    /// others were named.
    pub open spec fn selected(self, request: FrameView) -> bool {
        &&& self.matched.vendor
        &&& self.matched.product
        &&& self.matched.revision
        &&& le_u32(request.data.skip(1)) == self.identity.serial
    }

    /// The payload of the response to a request, if there is one.
    pub open spec fn response(self, request: FrameView) -> Option<Seq<u8>> {
        let d = request.data;
        let configuring = self.mode == LssMode::Configuration;
        if request.id != LSS_REQUEST_COB || d.len() < 8 {
            None
        } else if d[0] == CS_SWITCH_SERIAL && self.selected(request) {
            Some(response_data(CS_SWITCHED, seq![]))
        } else if d[0] == CS_CONFIGURE_NODE_ID && configuring {
            // Second byte: error code, 1 if the node ID is out of range.
            Some(
                response_data(
                    d[0],
                    seq![
                        if configurable(d[1]) {
                            0u8
                        } else {
                            1u8
                        },
                    ],
                ),
            )
        } else if d[0] == CS_STORE_CONFIGURATION && configuring {
            Some(response_data(d[0], seq![0u8]))
        } else if d[0] == CS_INQUIRE_VENDOR && configuring {
            Some(response_data(d[0], u32_bytes(self.identity.vendor_id)))
        } else if d[0] == CS_INQUIRE_PRODUCT && configuring {
            Some(response_data(d[0], u32_bytes(self.identity.product_code)))
        } else if d[0] == CS_INQUIRE_REVISION && configuring {
            Some(response_data(d[0], u32_bytes(self.identity.revision)))
        } else if d[0] == CS_INQUIRE_SERIAL && configuring {
            Some(response_data(d[0], u32_bytes(self.identity.serial)))
        } else if d[0] == CS_INQUIRE_NODE_ID && configuring {
            Some(response_data(d[0], seq![self.node_id]))
        } else {
            None
        }
    }
}

/// LSS slave state machine.
pub struct LssSlave {
    identity: LssIdentity,
    node_id: u8,
    mode: LssMode,
    selective_match: SelectiveMatch,
    pending_event: Option<LssEvent>,
}

impl View for LssSlave {
    type V = LssModel;

    closed spec fn view(&self) -> LssModel {
        LssModel {
            identity: self.identity,
            node_id: self.node_id,
            mode: self.mode,
            matched: self.selective_match,
            event: self.pending_event,
        }
    }
}

impl LssSlave {
    pub fn new(identity: LssIdentity, node_id: u8) -> (r: Self)
        ensures
            r@ == LssModel::fresh(identity, node_id),
    {
        LssSlave {
            identity,
            node_id,
            mode: LssMode::Waiting,
            selective_match: SelectiveMatch { vendor: false, product: false, revision: false },
            pending_event: None,
        }
    }

    pub fn mode(&self) -> (r: LssMode)
        ensures
            r == self@.mode,
    {
        self.mode
    }

    pub fn node_id(&self) -> (r: u8)
        ensures
            r == self@.node_id,
    {
        self.node_id
    }

    /// Take the next pending event for the application.
    pub fn take_event(&mut self) -> (r: Option<LssEvent>)
        ensures
            r == old(self)@.event,
            final(self)@ == (LssModel { event: None, ..old(self)@ }),
    {
        self.pending_event.take()
    }

    /// Process an incoming LSS request frame.
    /// Returns a response frame to send, if any. Unknown commands, and
    /// configuration commands outside configuration mode, are ignored.
    pub fn process(&mut self, frame: &CanFrame) -> (r: Option<CanFrame>)
        ensures
            final(self)@ == old(self)@.after(frame@),
            match r {
                Some(f) => f@.id == LSS_RESPONSE_COB && old(self)@.response(frame@) == Some(
                    f@.data,
                ),
                None => old(self)@.response(frame@) is None,
            },
    {
        if frame.raw_id() != LSS_REQUEST_COB || frame.raw_dlc() < 8 {
            return None;
        }
        let data = frame.data();
        let cmd: u8 = data[0];
        let value: u32 = u32_from_le(vstd::slice::slice_subrange(data, 1, 5));
        assert(value == le_u32(frame@.data.skip(1)));
        if cmd == CS_SWITCH_MODE_GLOBAL {
            if data[1] == 0 {
                self.mode = LssMode::Waiting;
                self.reset_match();
            } else if data[1] == 1 {
                self.mode = LssMode::Configuration;
            }
            return None;
        }
        if cmd == CS_SWITCH_VENDOR {
            self.selective_match.vendor = value == self.identity.vendor_id;
            return None;
        }
        if cmd == CS_SWITCH_PRODUCT {
            self.selective_match.product = value == self.identity.product_code;
            return None;
        }
        if cmd == CS_SWITCH_REVISION {
            self.selective_match.revision = value == self.identity.revision;
            return None;
        }
        if cmd == CS_SWITCH_SERIAL {
            let m = self.selective_match;
            if m.vendor && m.product && m.revision && value == self.identity.serial {
                self.mode = LssMode::Configuration;
                assert(seq![CS_SWITCHED] + seq![] =~= seq![CS_SWITCHED]);
                assert(padded(seq![CS_SWITCHED], 8) =~= response_data(CS_SWITCHED, seq![0u8]));
                return Some(Self::make_response_byte(CS_SWITCHED, 0));
            }
            self.reset_match();
            return None;
        }
        if self.mode != LssMode::Configuration {
            return None;
        }
        if cmd == CS_CONFIGURE_NODE_ID {
            let new_id: u8 = data[1];
            if 1 <= new_id && new_id <= 127 || new_id == 0xFF {
                self.node_id = new_id;
                self.pending_event = Some(LssEvent::NodeIdConfigured(new_id));
                return Some(Self::make_response_byte(CS_CONFIGURE_NODE_ID, 0));
            }
            return Some(Self::make_response_byte(CS_CONFIGURE_NODE_ID, 1));
        }
        if cmd == CS_STORE_CONFIGURATION {
            self.pending_event = Some(LssEvent::StoreConfiguration);
            return Some(Self::make_response_byte(CS_STORE_CONFIGURATION, 0));
        }
        if cmd == CS_INQUIRE_VENDOR {
            return Some(Self::make_response_u32(cmd, self.identity.vendor_id));
        }
        if cmd == CS_INQUIRE_PRODUCT {
            return Some(Self::make_response_u32(cmd, self.identity.product_code));
        }
        if cmd == CS_INQUIRE_REVISION {
            return Some(Self::make_response_u32(cmd, self.identity.revision));
        }
        if cmd == CS_INQUIRE_SERIAL {
            return Some(Self::make_response_u32(cmd, self.identity.serial));
        }
        if cmd == CS_INQUIRE_NODE_ID {
            return Some(Self::make_response_byte(cmd, self.node_id));
        }
        None
    }

    fn reset_match(&mut self)
        ensures
            final(self)@ == (LssModel { matched: no_match(), ..old(self)@ }),
    {
        self.selective_match = SelectiveMatch { vendor: false, product: false, revision: false };
    }

    fn make_response_byte(cs: u8, value: u8) -> (r: CanFrame)
        ensures
            r@.id == LSS_RESPONSE_COB,
            r@.data == response_data(cs, seq![value]),
    {
        let data: [u8; 8] = [cs, value, 0, 0, 0, 0, 0, 0];
        assert(data@ =~= response_data(cs, seq![value]));
        CanFrame::new(LSS_RESPONSE_COB, data.as_slice()).unwrap()
    }

    fn make_response_u32(cs: u8, value: u32) -> (r: CanFrame)
        ensures
            r@.id == LSS_RESPONSE_COB,
            r@.data == response_data(cs, u32_bytes(value)),
    {
        let v = u32_to_le(value);
        let data: [u8; 8] = [cs, v[0], v[1], v[2], v[3], 0, 0, 0];
        assert(data@ =~= response_data(cs, u32_bytes(value)));
        CanFrame::new(LSS_RESPONSE_COB, data.as_slice()).unwrap()
    }
}

/// The request that names one field of an identity.
pub open spec fn switch_request(cs: u8, value: u32) -> FrameView {
    FrameView { id: LSS_REQUEST_COB, data: padded(seq![cs] + u32_bytes(value), 8) }
}

/// A slave after the four requests of a selective switch.
pub open spec fn after_selective_switch(m: LssModel, asked: LssIdentity) -> LssModel {
    m.after(switch_request(CS_SWITCH_VENDOR, asked.vendor_id)).after(
        switch_request(CS_SWITCH_PRODUCT, asked.product_code),
    ).after(switch_request(CS_SWITCH_REVISION, asked.revision)).after(
        switch_request(CS_SWITCH_SERIAL, asked.serial),
    )
}

/// A selective switch brings a waiting slave into configuration mode if and
/// only if it names exactly the slave's identity, whatever was named before.
pub proof fn lemma_selective_switch(m: LssModel, asked: LssIdentity)
    requires
        m.mode == LssMode::Waiting,
    ensures
        after_selective_switch(m, asked).mode == LssMode::Configuration <==> asked == m.identity,
        after_selective_switch(m, asked).identity == m.identity,
        after_selective_switch(m, asked).node_id == m.node_id,
{
    lemma_switch_value(CS_SWITCH_VENDOR, asked.vendor_id);
    lemma_switch_value(CS_SWITCH_PRODUCT, asked.product_code);
    lemma_switch_value(CS_SWITCH_REVISION, asked.revision);
    lemma_switch_value(CS_SWITCH_SERIAL, asked.serial);
}

proof fn lemma_switch_value(cs: u8, value: u32)
    ensures
        switch_request(cs, value).data.len() == 8,
        switch_request(cs, value).data[0] == cs,
        le_u32(switch_request(cs, value).data.skip(1)) == value,
{
    let d = switch_request(cs, value).data;
    assert(d.skip(1).take(4) =~= u32_bytes(value));
    crate::bytes::lemma_u32_bytes_roundtrip(value, u32_bytes(value));
    assert(d.skip(1)[0] == u32_bytes(value)[0]);
    assert(d.skip(1)[1] == u32_bytes(value)[1]);
    assert(d.skip(1)[2] == u32_bytes(value)[2]);
    assert(d.skip(1)[3] == u32_bytes(value)[3]);
}

/// A waiting slave is silent, keeps its node ID and announces nothing, unless
/// the request is the last of a selective switch.
pub proof fn lemma_waiting_slave_is_passive(m: LssModel, request: FrameView)
    requires
        m.mode == LssMode::Waiting,
    ensures
        m.after(request).node_id == m.node_id,
        m.after(request).event == m.event,
        m.response(request) is Some ==> request.data[0] == CS_SWITCH_SERIAL && m.selected(request),
{
}

/// In configuration mode the node ID that was configured is the one that an
/// inquiry gets as its answer.
pub proof fn lemma_configured_node_id_is_reported(m: LssModel, set: FrameView, ask: FrameView)
    requires
        m.mode == LssMode::Configuration,
        set.id == LSS_REQUEST_COB,
        set.data.len() == 8,
        set.data[0] == CS_CONFIGURE_NODE_ID,
        configurable(set.data[1]),
        ask.id == LSS_REQUEST_COB,
        ask.data.len() == 8,
        ask.data[0] == CS_INQUIRE_NODE_ID,
    ensures
        m.after(set).response(ask) == Some(
            response_data(CS_INQUIRE_NODE_ID, seq![set.data[1]]),
        ),
{
}

} // verus!
