//! What the small services of CiA 301 and CiA 305 send and accept, byte by byte.

use crate::bytes::{le_u32, lemma_u32_bytes_roundtrip, padded, u32_bytes};
use crate::cobid::{lemma_construct_then_parse, lemma_node_id_of_raw, NodeId};
use crate::emcy::{emcy_frame, EmcyErrorCode, EmcyModel};
use crate::events::{event_of, EventView};
use crate::heartbeat::{
    heartbeat_frame, HeartbeatEvent, HeartbeatMonitorState, MonitorModel, ProducerModel,
};
use crate::lss::{LssEvent, LssMode, LssModel};
use crate::nmt::{nmt_step, NmtCommand, NmtState, NmtTransition};
use crate::sync::SyncModel;
use crate::time::elapsed_us;
use crate::transport::FrameView;
use vstd::prelude::*;

verus! {

// ---- Time ----

/// The clock wraps around: the time since an instant is what must be added to
/// the instant, modulo 2^64, to get the present time.
pub proof fn lemma_elapsed_time(now: u64, since: u64)
    ensures
        0 <= elapsed_us(now, since) <= u64::MAX,
        now == (since + elapsed_us(now, since)) % 0x1_0000_0000_0000_0000,
        since <= now ==> elapsed_us(now, since) == now - since,
        since > now ==> elapsed_us(now, since) == now + 0x1_0000_0000_0000_0000 - since,
{
}

// ---- LSS ----

/// A request of the LSS master: the command, then up to seven bytes.
pub open spec fn lss_request(cs: u8, tail: Seq<u8>) -> FrameView {
    FrameView { id: 0x7E5, data: seq![cs] + tail }
}

/// Four bytes, least significant first, and three more.
pub open spec fn number_tail(n: u32, rest: Seq<u8>) -> Seq<u8> {
    seq![
        (n % 256) as u8,
        (n / 256 % 256) as u8,
        (n / 65536 % 256) as u8,
        (n / 16777216) as u8,
    ] + rest
}

/// A frame with another COB-ID than that of the LSS master, or a short one, is
/// not for the slave.
pub proof fn lemma_lss_ignores(m: LssModel, frame: FrameView)
    requires
        frame.id != 0x7E5 || frame.data.len() < 8,
    ensures
        m.after(frame) == m,
        m.response(frame) is None,
{
}

/// Command 4 switches the mode of every slave: 0 to waiting, 1 to
/// configuration. There is no answer.
pub proof fn lemma_lss_switch_global(m: LssModel, mode: u8, rest: Seq<u8>)
    requires
        rest.len() == 6,
    ensures
        ({
            let request = lss_request(4, seq![mode] + rest);
            &&& m.response(request) is None
            &&& mode == 0 ==> m.after(request).mode == LssMode::Waiting
            &&& mode == 1 ==> m.after(request).mode == LssMode::Configuration
            &&& mode > 1 ==> m.after(request) == m
            &&& m.after(request).node_id == m.node_id
            &&& m.after(request).event == m.event
        }),
{
}

/// In configuration mode command 17 sets the node ID: 1 to 127, or 255 for
/// none. The answer is the command and 0, or 1 if there is no such node ID, and
/// then nothing is set. In waiting mode nothing happens.
pub proof fn lemma_lss_configure_node_id(m: LssModel, id: u8, rest: Seq<u8>)
    requires
        rest.len() == 6,
    ensures
        ({
            let request = lss_request(17, seq![id] + rest);
            let possible = 1 <= id <= 127 || id == 255;
            if m.mode == LssMode::Configuration {
                &&& m.response(request) == Some(
                    seq![
                        17u8,
                        if possible {
                            0u8
                        } else {
                            1u8
                        },
                        0,
                        0,
                        0,
                        0,
                        0,
                        0,
                    ],
                )
                &&& possible ==> m.after(request).node_id == id && m.after(request).event == Some(
                    LssEvent::NodeIdConfigured(id),
                )
                &&& !possible ==> m.after(request) == m
                &&& m.after(request).mode == m.mode
            } else {
                m.response(request) is None && m.after(request) == m
            }
        }),
{
    let request = lss_request(17, seq![id] + rest);
    assert(request.data[0] == 17 && request.data[1] == id);
    if m.mode == LssMode::Configuration {
        let r = m.response(request)->0;
        assert(r =~= seq![
            17u8,
            if 1 <= id <= 127 || id == 255 {
                0u8
            } else {
                1u8
            },
            0,
            0,
            0,
            0,
            0,
            0,
        ]);
    }
}

/// In configuration mode command 23 asks for the configuration to be stored,
/// and is confirmed; commands 90 to 93 ask for the vendor, product, revision and
/// serial number, and 94 for the node ID. The answers repeat the command. In
/// waiting mode there is no answer.
pub proof fn lemma_lss_inquiries(m: LssModel, cs: u8, tail: Seq<u8>)
    requires
        tail.len() == 7,
        cs == 23 || 90 <= cs <= 94,
    ensures
        ({
            let request = lss_request(cs, tail);
            let zeros = seq![0u8, 0, 0];
            if m.mode == LssMode::Configuration {
                &&& cs == 23 ==> m.response(request) == Some(seq![23u8, 0, 0, 0, 0, 0, 0, 0])
                &&& cs == 23 ==> m.after(request).event == Some(LssEvent::StoreConfiguration)
                &&& cs == 90 ==> m.response(request) == Some(
                    seq![90u8] + number_tail(m.identity.vendor_id, zeros),
                )
                &&& cs == 91 ==> m.response(request) == Some(
                    seq![91u8] + number_tail(m.identity.product_code, zeros),
                )
                &&& cs == 92 ==> m.response(request) == Some(
                    seq![92u8] + number_tail(m.identity.revision, zeros),
                )
                &&& cs == 93 ==> m.response(request) == Some(
                    seq![93u8] + number_tail(m.identity.serial, zeros),
                )
                &&& cs == 94 ==> m.response(request) == Some(
                    seq![94u8, m.node_id, 0, 0, 0, 0, 0, 0],
                )
                &&& cs != 23 ==> m.after(request) == m
            } else {
                m.response(request) is None && m.after(request) == m
            }
        }),
{
    let request = lss_request(cs, tail);
    let zeros = seq![0u8, 0, 0];
    assert(request.data[0] == cs);
    if m.mode == LssMode::Configuration {
        let r = m.response(request)->0;
        if cs == 23 {
            assert(r =~= seq![23u8, 0, 0, 0, 0, 0, 0, 0]);
        } else if cs == 90 {
            assert(r =~= seq![90u8] + number_tail(m.identity.vendor_id, zeros));
        } else if cs == 91 {
            assert(r =~= seq![91u8] + number_tail(m.identity.product_code, zeros));
        } else if cs == 92 {
            assert(r =~= seq![92u8] + number_tail(m.identity.revision, zeros));
        } else if cs == 93 {
            assert(r =~= seq![93u8] + number_tail(m.identity.serial, zeros));
        } else {
            assert(r =~= seq![94u8, m.node_id, 0, 0, 0, 0, 0, 0]);
        }
    }
}

/// The last of the four commands that select a slave, 64 to 67, is answered
/// with command 68, by the slave that all four have named.
pub proof fn lemma_lss_selected_slave_answers(m: LssModel, serial: u32, rest: Seq<u8>)
    requires
        rest.len() == 3,
    ensures
        ({
            let request = lss_request(67, number_tail(serial, rest));
            if m.matched.vendor && m.matched.product && m.matched.revision && serial
                == m.identity.serial {
                &&& m.response(request) == Some(seq![68u8, 0, 0, 0, 0, 0, 0, 0])
                &&& m.after(request).mode == LssMode::Configuration
            } else {
                &&& m.response(request) is None
                &&& m.after(request).mode == m.mode
                &&& !m.after(request).matched.vendor
            }
        }),
        ({
            let request = lss_request(64, number_tail(serial, rest));
            m.response(request) is None && m.after(request).matched.vendor == (serial
                == m.identity.vendor_id)
        }),
        ({
            let request = lss_request(65, number_tail(serial, rest));
            m.response(request) is None && m.after(request).matched.product == (serial
                == m.identity.product_code)
        }),
        ({
            let request = lss_request(66, number_tail(serial, rest));
            m.response(request) is None && m.after(request).matched.revision == (serial
                == m.identity.revision)
        }),
{
    let request = lss_request(67, number_tail(serial, rest));
    lemma_number_tail(67, serial, rest);
    lemma_number_tail(64, serial, rest);
    lemma_number_tail(65, serial, rest);
    lemma_number_tail(66, serial, rest);
    if m.selected(request) {
        assert(m.response(request)->0 =~= seq![68u8, 0, 0, 0, 0, 0, 0, 0]);
    }
}

proof fn lemma_number_tail(cs: u8, n: u32, rest: Seq<u8>)
    requires
        rest.len() == 3,
    ensures
        lss_request(cs, number_tail(n, rest)).data.len() == 8,
        lss_request(cs, number_tail(n, rest)).data[0] == cs,
        le_u32(lss_request(cs, number_tail(n, rest)).data.skip(1)) == n,
{
    let d = lss_request(cs, number_tail(n, rest)).data.skip(1);
    lemma_u32_bytes_roundtrip(n, u32_bytes(n));
    assert(d[0] == u32_bytes(n)[0] && d[1] == u32_bytes(n)[1] && d[2] == u32_bytes(n)[2] && d[3]
        == u32_bytes(n)[3]);
}

// ---- Emergency messages ----

/// An emergency message has COB-ID 0x80 plus the node ID, and eight bytes: the
/// error code with its low byte first, the error register, and five bytes of
/// the manufacturer, the missing ones being zero.
pub proof fn lemma_emergency_message(node: NodeId, code: u16, register: u8, vendor: Seq<u8>)
    requires
        1 <= node.raw() <= 127,
        vendor.len() <= 5,
    ensures
        ({
            let f = emcy_frame(node, code, register, vendor);
            &&& f.id == 128 + node.raw()
            &&& f.data.len() == 8
            &&& f.data[0] + 256 * f.data[1] == code
            &&& f.data[2] == register
            &&& f.data.subrange(3, 3 + vendor.len() as int) == vendor
            &&& forall|i: int| 3 + vendor.len() <= i < 8 ==> (#[trigger] f.data[i]) == 0
        }),
{
    let f = emcy_frame(node, code, register, vendor);
    assert(f.data.subrange(3, 3 + vendor.len() as int) =~= vendor);
}

/// An error sets its bits of the error register and the generic one, and
/// clears none; the message of it tells the register as it is then. A cleared
/// error clears its bits and no others; when none is left, and only then, a
/// message without an error is sent.
pub proof fn lemma_error_register(m: EmcyModel, code: u16, bits: u8, vendor: Seq<u8>)
    ensures
        ({
            let after = m.set(code, bits, vendor);
            &&& after.register & 1 == 1
            &&& after.register & bits == bits
            &&& after.register & m.register == m.register
            &&& after.register & !(m.register | bits | 1) == 0
            &&& after.pending == m.pending.push(emcy_frame(m.node, code, after.register, vendor))
        }),
        ({
            let after = m.clear(bits);
            &&& after.register & bits == 0
            &&& after.register | (m.register & bits) == m.register
            &&& after.register == 0 ==> after.pending == m.pending.push(
                emcy_frame(m.node, 0, 0, Seq::empty()),
            )
            &&& after.register != 0 ==> after.pending == m.pending
        }),
        m.clear_all().register == 0,
        m.clear_all().pending == m.pending.push(emcy_frame(m.node, 0, 0, Seq::empty())),
{
    let r = m.register;
    assert((r | (bits | 1u8)) & 1u8 == 1u8 && (r | (bits | 1u8)) & bits == bits && (r | (bits
        | 1u8)) & r == r && (r | (bits | 1u8)) & !(r | bits | 1u8) == 0u8 && (r & !bits) & bits
        == 0u8 && (r & !bits) | (r & bits) == r) by (bit_vector);
}

/// The codes of errors go by what they are about: the first digit is 1 for
/// generic errors, 2 for current, 3 for voltage, 4 for temperature, 5 for
/// hardware, 6 for software, 7 for additional modules, 8 for monitoring, of which
/// 0x81 is for communication and 0x82 for protocol errors, 9 for external errors,
/// and 0xFF for those of the manufacturer. No two codes are the same.
pub proof fn lemma_emergency_codes(a: EmcyErrorCode, b: EmcyErrorCode)
    ensures
        a.spec_code() == b.spec_code() ==> a == b,
        match a {
            EmcyErrorCode::NoError => a.spec_code() == 0,
            EmcyErrorCode::GenericError => a.spec_code() / 0x100 == 0x10,
            EmcyErrorCode::CurrentGeneric => a.spec_code() / 0x100 == 0x20,
            EmcyErrorCode::VoltageGeneric => a.spec_code() / 0x100 == 0x30,
            EmcyErrorCode::TemperatureGeneric => a.spec_code() / 0x100 == 0x40,
            EmcyErrorCode::DeviceHardwareGeneric => a.spec_code() / 0x100 == 0x50,
            EmcyErrorCode::DeviceSoftwareGeneric => a.spec_code() / 0x100 == 0x60,
            EmcyErrorCode::AdditionalModulesGeneric => a.spec_code() / 0x100 == 0x70,
            EmcyErrorCode::MonitoringGeneric => a.spec_code() / 0x100 == 0x80,
            EmcyErrorCode::CommunicationGeneric => a.spec_code() / 0x100 == 0x81,
            EmcyErrorCode::HeartbeatError => a.spec_code() == 0x8130,
            EmcyErrorCode::ProtocolError => a.spec_code() / 0x100 == 0x82,
            EmcyErrorCode::RpdoTimeout => a.spec_code() == 0x8250,
            EmcyErrorCode::ExternalError => a.spec_code() / 0x100 == 0x90,
            EmcyErrorCode::ManufacturerSpecific => a.spec_code() / 0x100 == 0xFF,
        },
        !(a == EmcyErrorCode::HeartbeatError || a == EmcyErrorCode::RpdoTimeout) ==> a.spec_code()
            % 0x100 == 0,
{
}

// ---- SYNC ----

/// A SYNC message has COB-ID 0x80. Without a counter it is empty; with one its
/// only byte is one more than that of the message before, from 255 on 0.
pub proof fn lemma_sync_message(m: SyncModel, now: u64, later: u64)
    ensures
        m.frame().id == 128,
        !m.use_counter ==> m.frame().data.len() == 0 && m.sent(now).frame() == m.frame(),
        m.use_counter ==> {
            &&& m.frame().data.len() == 1
            &&& m.sent(now).frame().data.len() == 1
            &&& m.frame().data[0] < 255 ==> m.sent(now).frame().data[0] == m.frame().data[0] + 1
            &&& m.frame().data[0] == 255 ==> m.sent(now).frame().data[0] == 0
        },
        m.interval_us == 0 ==> !m.due(now),
        m.interval_us != 0 && m.last_sent_us <= now ==> (m.due(now) <==> now - m.last_sent_us
            >= m.interval_us),
        m.interval_us > 0 ==> !m.sent(now).due(now),
{
}

// ---- NMT and heartbeat ----

/// A heartbeat has COB-ID 0x700 plus the node ID and one byte for the state: 0
/// at boot-up, 4 stopped, 5 operational, 127 pre-operational.
pub proof fn lemma_heartbeat_message(node: NodeId, state: NmtState)
    requires
        1 <= node.raw() <= 127,
    ensures
        heartbeat_frame(node, state).id == 1792 + node.raw(),
        heartbeat_frame(node, state).data == seq![
            match state {
                NmtState::Initializing => 0u8,
                NmtState::Stopped => 4u8,
                NmtState::Operational => 5u8,
                NmtState::PreOperational => 127u8,
            },
        ],
{
}

/// Heartbeats are sent at the interval in milliseconds, and not at all if it is
/// 0.
pub proof fn lemma_heartbeat_is_due(m: ProducerModel, now: u64)
    requires
        m.last_sent_us <= now,
    ensures
        m.due(now) <==> m.interval_ms > 0 && now - m.last_sent_us >= 1000 * m.interval_ms,
        m.interval_ms > 0 ==> !m.sent(now).due(now),
        m.sent(now).interval_ms == m.interval_ms,
{
}

/// A command to this node, or to every node, brings it to the state that the
/// command names, from whatever state; a command to another node does nothing.
pub proof fn lemma_nmt_command(state: NmtState, cmd: NmtCommand, target: u8, node: NodeId)
    requires
        1 <= node.raw() <= 127,
    ensures
        ({
            let (after, transition) = nmt_step(state, cmd, target, node);
            let named = match cmd {
                NmtCommand::StartRemoteNode => NmtState::Operational,
                NmtCommand::StopRemoteNode => NmtState::Stopped,
                NmtCommand::EnterPreOperational => NmtState::PreOperational,
                NmtCommand::ResetNode => NmtState::Initializing,
                NmtCommand::ResetCommunication => NmtState::Initializing,
            };
            if target != 0 && target != node.raw() {
                after == state && transition == NmtTransition::NoChange
            } else {
                &&& after == named
                &&& transition == NmtTransition::NoChange <==> state == named
                &&& state != named && cmd == NmtCommand::ResetNode ==> transition
                    == NmtTransition::ResetApplication
                &&& state != named && cmd == NmtCommand::ResetCommunication ==> transition
                    == NmtTransition::ResetCommunication
                &&& state != named && named != NmtState::Initializing ==> transition
                    == NmtTransition::StateChanged
            }
        }),
{
}

/// What is reported of a monitored node when it sends a heartbeat: that it
/// started, if nothing was heard of it yet; that it changed its state, if it did;
/// that it recovered, if it had been silent; and that it was reset, if it boots
/// from another state.
pub proof fn lemma_heartbeat_news(m: MonitorModel, state: NmtState)
    ensures
        ({
            let news = m.news(state);
            let started = HeartbeatEvent::Started { node: m.node, state };
            let recovered = HeartbeatEvent::Recovered { node: m.node, state };
            let reset = HeartbeatEvent::RemoteReset { node: m.node };
            let boots = state == NmtState::Initializing;
            match m.state {
                HeartbeatMonitorState::Disabled => news == seq![started],
                HeartbeatMonitorState::Waiting => news == seq![started],
                HeartbeatMonitorState::Alive { nmt_state, .. } => {
                    let changed = HeartbeatEvent::StateChanged {
                        node: m.node,
                        old: nmt_state,
                        new: state,
                    };
                    &&& state == nmt_state ==> news.len() == 0
                    &&& state != nmt_state && !boots ==> news == seq![changed]
                    &&& state != nmt_state && boots ==> news == seq![changed, reset]
                },
                HeartbeatMonitorState::Timeout { last_nmt_state, .. } => {
                    &&& boots && last_nmt_state != state ==> news == seq![recovered, reset]
                    &&& !(boots && last_nmt_state != state) ==> news == seq![recovered]
                },
            }
        }),
{
}

/// A node that was heard is silent for too long once its time in milliseconds
/// is over, and not before; a time of 0 never is over.
pub proof fn lemma_silence(m: MonitorModel, state: NmtState, seen: u64, now: u64)
    requires
        m.state == (HeartbeatMonitorState::Alive { nmt_state: state, last_seen_us: seen }),
        seen <= now,
    ensures
        m.overdue(now) <==> m.timeout_ms > 0 && now - seen > 1000 * m.timeout_ms,
        m.overdue(now) ==> m.checked(now).state == (HeartbeatMonitorState::Timeout {
            last_nmt_state: state,
            last_seen_us: seen,
            timed_out_us: now,
        }),
        !m.overdue(now) ==> m.checked(now) == m,
{
}

/// A heartbeat of another node, or with a byte for no state, says nothing of a
/// monitored node.
pub proof fn lemma_foreign_heartbeat(m: MonitorModel, node: NodeId, byte: u8, now: u64)
    requires
        node != m.node || (byte != 0 && byte != 4 && byte != 5 && byte != 127),
    ensures
        m.heard(node, byte, now) == m,
        m.reported(node, byte).len() == 0,
{
}

// ---- Events on the bus ----

/// A frame is understood by its COB-ID: 0 commands, 0x80 is SYNC, and then
/// blocks of 0x80 follow, in which the offset is the node.
pub proof fn lemma_frames_are_understood(node: NodeId, data: Seq<u8>, n: u8)
    requires
        1 <= node.raw() <= 127,
        data.len() == 8,
        n < 4,
    ensures
        event_of(FrameView { id: 128, data }) == Some(EventView::Sync),
        event_of(
            FrameView { id: (0x180 + 0x100 * n + node.raw()) as u16, data },
        ) matches Some(EventView::Tpdo { pdo_num, node: from, data: d, len }) && pdo_num == n
            && from == node && d == data && len == 8,
        event_of(
            FrameView { id: (0x200 + 0x100 * n + node.raw()) as u16, data },
        ) matches Some(EventView::Rpdo { pdo_num, node: from, data: d, len }) && pdo_num == n
            && from == node && d == data && len == 8,
        event_of(FrameView { id: (0x580 + node.raw()) as u16, data }) == Some(
            EventView::SdoResponse { node, data },
        ),
        event_of(FrameView { id: (0x600 + node.raw()) as u16, data }) == Some(
            EventView::SdoRequest { node, data },
        ),
        data[0] == 5 ==> event_of(FrameView { id: (0x700 + node.raw()) as u16, data }) == Some(
            EventView::Heartbeat { node, state: NmtState::Operational },
        ),
        event_of(FrameView { id: (0x80 + node.raw()) as u16, data }) matches Some(
            EventView::Emcy(m),
        ) && m.node == node && m.error_code == data[0] + 256 * data[1] && m.error_register == data[2]
            && m.vendor_data == data.skip(3),
        data[1] == 0 ==> event_of(FrameView { id: 0, data }) == Some(
            EventView::Nmt { command: data[0], target: None },
        ),
        data[1] == node.raw() ==> event_of(FrameView { id: 0, data }) == Some(
            EventView::Nmt { command: data[0], target: Some(node) },
        ),
        data[1] > 127 ==> event_of(FrameView { id: 0, data }) is None,
{
    lemma_construct_then_parse(node, n);
    lemma_node_id_of_raw(node);
    assert(padded(data, 8) =~= data);
}

/// A frame of a PDO that is shorter than eight bytes has its length told.
pub proof fn lemma_short_pdo_frames(node: NodeId, data: Seq<u8>, n: u8)
    requires
        1 <= node.raw() <= 127,
        data.len() <= 8,
        n < 4,
    ensures
        event_of(
            FrameView { id: (0x180 + 0x100 * n + node.raw()) as u16, data },
        ) matches Some(EventView::Tpdo { data: d, len, .. }) && len == data.len() && d.len() == 8
            && d.take(len as int) == data,
        event_of(
            FrameView { id: (0x200 + 0x100 * n + node.raw()) as u16, data },
        ) matches Some(EventView::Rpdo { data: d, len, .. }) && len == data.len() && d.len() == 8
            && d.take(len as int) == data,
        data.len() < 8 ==> event_of(FrameView { id: (0x580 + node.raw()) as u16, data }) is None,
        data.len() < 8 ==> event_of(FrameView { id: (0x600 + node.raw()) as u16, data }) is None,
        data.len() < 8 ==> event_of(FrameView { id: (0x80 + node.raw()) as u16, data }) is None,
        data.len() == 0 ==> event_of(FrameView { id: (0x700 + node.raw()) as u16, data }) is None,
        data.len() < 2 ==> event_of(FrameView { id: 0, data }) is None,
{
    lemma_construct_then_parse(node, n);
    assert(padded(data, 8).take(data.len() as int) =~= data);
}

} // verus!
