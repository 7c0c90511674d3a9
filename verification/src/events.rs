//! CANopen event decoding: semantic view of raw CAN frames.
//!
//! PDO classification is a pre-defined-range classifier: `pdo_num` and `node`
//! are inferred purely from where the COB-ID falls in the CiA 301 pre-defined
//! connection set ranges (TPDO1 = `0x180 + node` etc.), not from any device's
//! actual PDO configuration. A custom COB-ID inside those ranges is attributed
//! to the range it lands in, and one outside them decodes as `None`. Treat
//! `pdo_num` and `node` as a hint for monitoring.

use crate::bytes::{byte_or_zero, padded};
use crate::cobid::{parse_cob, CobId, NodeId, ParsedCobId};
use crate::emcy::{parse_emcy, EmcyMessage, EmcyView};
use crate::nmt::NmtState;
use crate::transport::{CanFrame, FrameView};
use vstd::prelude::*;

verus! {

/// A decoded CANopen bus event.
#[derive(Clone, Copy, Debug, PartialEq, Eq)]
pub enum CanOpenEvent {
    /// NMT command from the master. `target == None` is a broadcast.
    Nmt { command: u8, target: Option<NodeId> },
    Sync,
    Emcy(EmcyMessage),
    Heartbeat { node: NodeId, state: NmtState },
    Tpdo { pdo_num: u8, node: NodeId, data: [u8; 8], len: u8 },
    Rpdo { pdo_num: u8, node: NodeId, data: [u8; 8], len: u8 },
    SdoResponse { node: NodeId, data: [u8; 8] },
    SdoRequest { node: NodeId, data: [u8; 8] },
}

/// What an event says.
#[verifier::ext_equal]
pub enum EventView {
    Nmt { command: u8, target: Option<NodeId> },
    Sync,
    Emcy(EmcyView),
    Heartbeat { node: NodeId, state: NmtState },
    /// `data` is filled up with zeros to 8 bytes, of which `len` were sent.
    Tpdo { pdo_num: u8, node: NodeId, data: Seq<u8>, len: u8 },
    Rpdo { pdo_num: u8, node: NodeId, data: Seq<u8>, len: u8 },
    SdoResponse { node: NodeId, data: Seq<u8> },
    SdoRequest { node: NodeId, data: Seq<u8> },
}

impl View for CanOpenEvent {
    type V = EventView;

    open spec fn view(&self) -> EventView {
        match *self {
            CanOpenEvent::Nmt { command, target } => EventView::Nmt { command, target },
            CanOpenEvent::Sync => EventView::Sync,
            CanOpenEvent::Emcy(m) => EventView::Emcy(m@),
            CanOpenEvent::Heartbeat { node, state } => EventView::Heartbeat { node, state },
            CanOpenEvent::Tpdo { pdo_num, node, data, len } => EventView::Tpdo {
                pdo_num,
                node,
                data: data@,
                len,
            },
            CanOpenEvent::Rpdo { pdo_num, node, data, len } => EventView::Rpdo {
                pdo_num,
                node,
                data: data@,
                len,
            },
            CanOpenEvent::SdoResponse { node, data } => EventView::SdoResponse {
                node,
                data: data@,
            },
            CanOpenEvent::SdoRequest { node, data } => EventView::SdoRequest {
                node,
                data: data@,
            },
        }
    }
}

/// The event that a frame announces, if any.
pub open spec fn event_of(frame: FrameView) -> Option<EventView> {
    let data = frame.data;
    match parse_cob(frame.id) {
        ParsedCobId::Nmt => if data.len() < 2 || data[1] > 127 {
            None
        } else {
            Some(
                EventView::Nmt {
                    command: data[0],
                    target: if data[1] == 0 {
                        None
                    } else {
                        Some(NodeId::of_raw(data[1]))
                    },
                },
            )
        },
        ParsedCobId::Sync => Some(EventView::Sync),
        ParsedCobId::Emergency(_) => match parse_emcy(frame) {
            Some(m) => Some(EventView::Emcy(m)),
            None => None,
        },
        ParsedCobId::Heartbeat(node) => if data.len() == 0 {
            None
        } else {
            match NmtState::from_heartbeat_byte(data[0]) {
                Some(state) => Some(EventView::Heartbeat { node, state }),
                None => None,
            }
        },
        ParsedCobId::Tpdo { pdo_num, node } => Some(
            EventView::Tpdo { pdo_num, node, data: padded(data, 8), len: data.len() as u8 },
        ),
        ParsedCobId::Rpdo { pdo_num, node } => Some(
            EventView::Rpdo { pdo_num, node, data: padded(data, 8), len: data.len() as u8 },
        ),
        ParsedCobId::SdoResponse(node) => if data.len() == 8 {
            Some(EventView::SdoResponse { node, data })
        } else {
            None
        },
        ParsedCobId::SdoRequest(node) => if data.len() == 8 {
            Some(EventView::SdoRequest { node, data })
        } else {
            None
        },
        ParsedCobId::Unknown(_) => None,
    }
}

/// The node that an event concerns, if any.
pub open spec fn event_node(event: EventView) -> Option<NodeId> {
    match event {
        EventView::Nmt { target, .. } => target,
        EventView::Sync => None,
        EventView::Emcy(m) => Some(m.node),
        EventView::Heartbeat { node, .. } => Some(node),
        EventView::Tpdo { node, .. } => Some(node),
        EventView::Rpdo { node, .. } => Some(node),
        EventView::SdoResponse { node, .. } => Some(node),
        EventView::SdoRequest { node, .. } => Some(node),
    }
}

/// Whether an event concerns a node.
pub open spec fn event_matches(event: EventView, node: NodeId) -> bool {
    match event {
        EventView::Nmt { target: None, .. } => true,
        _ => event_node(event) == Some(node),
    }
}

impl CanOpenEvent {
    /// Decode a raw frame. Returns `None` for frames that are not valid
    /// CANopen messages under the pre-defined connection set (unknown
    /// COB-IDs, malformed payloads, unknown NMT state bytes).
    pub fn decode(frame: &CanFrame) -> (r: Option<Self>)
        ensures
            match r {
                Some(e) => event_of(frame@) == Some(e@),
                None => event_of(frame@) is None,
            },
    {
        let cob = match CobId::new(frame.raw_id()) {
            Some(c) => c,
            None => {
                return None;
            },
        };
        let data = frame.data();
        match cob.parse() {
            ParsedCobId::Nmt => {
                if data.len() < 2 {
                    return None;
                }
                if data[1] == 0 {
                    return Some(CanOpenEvent::Nmt { command: data[0], target: None });
                }
                match NodeId::new(data[1]) {
                    Some(n) => Some(CanOpenEvent::Nmt { command: data[0], target: Some(n) }),
                    None => None,
                }
            },
            ParsedCobId::Sync => Some(CanOpenEvent::Sync),
            ParsedCobId::Emergency(_) => match EmcyMessage::parse(frame) {
                Some(m) => Some(CanOpenEvent::Emcy(m)),
                None => None,
            },
            ParsedCobId::Heartbeat(node) => {
                if data.len() == 0 {
                    return None;
                }
                match NmtState::from_heartbeat_byte(data[0]) {
                    Some(state) => Some(CanOpenEvent::Heartbeat { node, state }),
                    None => None,
                }
            },
            ParsedCobId::Tpdo { pdo_num, node } => Some(
                CanOpenEvent::Tpdo { pdo_num, node, data: copy_payload(data), len: data.len() as u8 },
            ),
            ParsedCobId::Rpdo { pdo_num, node } => Some(
                CanOpenEvent::Rpdo { pdo_num, node, data: copy_payload(data), len: data.len() as u8 },
            ),
            ParsedCobId::SdoResponse(node) => {
                if data.len() != 8 {
                    return None;
                }
                assert(padded(data@, 8) =~= data@);
                Some(CanOpenEvent::SdoResponse { node, data: copy_payload(data) })
            },
            ParsedCobId::SdoRequest(node) => {
                if data.len() != 8 {
                    return None;
                }
                assert(padded(data@, 8) =~= data@);
                Some(CanOpenEvent::SdoRequest { node, data: copy_payload(data) })
            },
            ParsedCobId::Unknown(_) => None,
        }
    }

    /// The node this event concerns, if any (`Sync` and broadcast `Nmt`
    /// have none).
    pub fn node(&self) -> (r: Option<NodeId>)
        ensures
            r == event_node(self@),
    {
        match self {
            CanOpenEvent::Nmt { target, .. } => *target,
            CanOpenEvent::Sync => None,
            CanOpenEvent::Emcy(msg) => Some(msg.node),
            CanOpenEvent::Heartbeat { node, .. } => Some(*node),
            CanOpenEvent::Tpdo { node, .. } => Some(*node),
            CanOpenEvent::Rpdo { node, .. } => Some(*node),
            CanOpenEvent::SdoResponse { node, .. } => Some(*node),
            CanOpenEvent::SdoRequest { node, .. } => Some(*node),
        }
    }

    /// Whether this event concerns the given node. Broadcast NMT commands
    /// match every node; `Sync` matches none.
    pub fn matches_node(&self, node: NodeId) -> (r: bool)
        ensures
            r == event_matches(self@, node),
    {
        if let CanOpenEvent::Nmt { target: None, .. } = self {
            return true;
        }
        match self.node() {
            Some(n) => n == node,
            None => false,
        }
    }
}

fn copy_payload(data: &[u8]) -> (r: [u8; 8])
    ensures
        r@ == padded(data@, 8),
{
    let r: [u8; 8] = [
        byte_or_zero(data, 0),
        byte_or_zero(data, 1),
        byte_or_zero(data, 2),
        byte_or_zero(data, 3),
        byte_or_zero(data, 4),
        byte_or_zero(data, 5),
        byte_or_zero(data, 6),
        byte_or_zero(data, 7),
    ];
    assert(r@ =~= padded(data@, 8));
    r
}

/// A broadcast command concerns every node, a SYNC none, and every other
/// event exactly one.
pub proof fn lemma_events_concern(event: EventView, a: NodeId, b: NodeId)
    ensures
        event is Sync ==> !event_matches(event, a),
        event matches EventView::Nmt { target: None, .. } ==> event_matches(event, a),
        event_node(event) is Some && event_matches(event, a) && event_matches(event, b) ==> a == b,
{
}

/// What a node sends of its own state comes out as an event of that node: its
/// heartbeats, and its emergency messages.
pub proof fn lemma_own_frames_decode(
    node: NodeId,
    state: NmtState,
    code: u16,
    register: u8,
    vendor: Seq<u8>,
)
    requires
        1 <= node.raw() <= 127,
    ensures
        event_of(crate::heartbeat::heartbeat_frame(node, state)) == Some(
            EventView::Heartbeat { node, state },
        ),
        event_of(crate::emcy::emcy_frame(node, code, register, vendor)) == Some(
            EventView::Emcy(
                EmcyView {
                    node,
                    error_code: code,
                    error_register: register,
                    vendor_data: padded(vendor, 5),
                },
            ),
        ),
{
    crate::cobid::lemma_construct_then_parse(node, 0);
    crate::emcy::lemma_build_then_parse(node, code, register, vendor);
    crate::nmt::lemma_heartbeat_byte_roundtrip(state, 0);
}

} // verus!
