//! What the services of a node do, at the addresses that CiA 301 gives them.

use crate::bytes::{
    lemma_u16_bytes_roundtrip, lemma_u32_bytes_roundtrip, padded, u16_bytes, u32_bytes,
};
use crate::cobid::{
    lemma_construct_then_parse, lemma_node_id_of_raw, lemma_node_id_raw_of, parse_cob, NodeId,
    ParsedCobId,
};
use crate::heartbeat::{HeartbeatEvent, HeartbeatMonitorState, MonitorModel};
use crate::nmt::NmtState;
use crate::node::model::{
    all_framed, cob_id_entry, counted, deadline_events, extra_for, mapping_entries, mapping_record,
    queued, timeouts, transmitted, NodeModel,
};
use crate::node::{changed_entries, comparable, differing};
use crate::od::{OdContents, OdEventSource};
use crate::pdo::config::{lemma_mapping_value_roundtrip, PdoMapping, TpdoView};
use crate::pdo::engine::due_frames;
use crate::queue::push_evicting;
use crate::sdo::server::read_u32;
use crate::transport::FrameView;
use vstd::prelude::*;

verus! {

// ---- Configuration ----

/// An entry holds one byte.
pub open spec fn holds_u8<OD: OdContents>(od: OD, index: int, sub: int, v: u8) -> bool {
    od.read_result(index as u16, sub as u8, 4) == Ok::<Seq<u8>, crate::od::OdError>(seq![v])
}

/// An entry holds a value of two bytes, least significant first.
pub open spec fn holds_u16<OD: OdContents>(od: OD, index: int, sub: int, v: u16) -> bool {
    od.read_result(index as u16, sub as u8, 2) == Ok::<Seq<u8>, crate::od::OdError>(
        seq![(v % 256) as u8, (v / 256) as u8],
    )
}

/// An entry holds a value of four bytes, least significant first.
pub open spec fn holds_u32<OD: OdContents>(od: OD, index: int, sub: int, v: u32) -> bool {
    od.read_result(index as u16, sub as u8, 4) == Ok::<Seq<u8>, crate::od::OdError>(
        seq![
            (v % 256) as u8,
            (v / 256 % 256) as u8,
            (v / 65536 % 256) as u8,
            (v / 16777216) as u8,
        ],
    )
}

proof fn lemma_read_u32<OD: OdContents>(od: OD, index: u16, sub: u8, v: u32)
    requires
        holds_u32(od, index as int, sub as int, v),
    ensures
        read_u32(od, index, sub) == Some(v),
{
    lemma_u32_bytes_roundtrip(v, u32_bytes(v));
    assert(padded(u32_bytes(v), 4) =~= u32_bytes(v));
}

proof fn lemma_read_u16<OD: OdContents>(od: OD, index: u16, sub: u8, v: u16)
    requires
        holds_u16(od, index as int, sub as int, v),
    ensures
        crate::node::model::read_u16(od, index, sub) == Some(v),
{
    lemma_u16_bytes_roundtrip(v, u16_bytes(v));
    assert(padded(u16_bytes(v), 2) =~= u16_bytes(v));
}

proof fn lemma_read_u8<OD: OdContents>(od: OD, index: u16, sub: u8, v: u8)
    requires
        holds_u8(od, index as int, sub as int, v),
    ensures
        crate::node::model::read_u8(od, index, sub) == Some(v),
{
    let bytes = padded(seq![v], 4);
    assert(bytes[0] == v && bytes[1] == 0 && bytes[2] == 0 && bytes[3] == 0);
}

/// A mapping record holds mappings: their number, then one after another.
pub open spec fn holds_mappings<OD: OdContents>(
    od: OD,
    index: int,
    mappings: Seq<PdoMapping>,
) -> bool {
    &&& mappings.len() <= 64
    &&& holds_u8(od, index, 0, mappings.len() as u8)
    &&& forall|i: int|
        0 <= i < mappings.len() ==> holds_u32(
            od,
            index,
            i + 1,
            (#[trigger] mappings[i]).to_mapping_value(),
        )
}

proof fn lemma_mapping_entries<OD: OdContents>(
    od: OD,
    index: u16,
    mappings: Seq<PdoMapping>,
    n: int,
)
    requires
        holds_mappings(od, index as int, mappings),
        0 <= n <= mappings.len(),
    ensures
        mapping_entries(od, index, n) == mappings.take(n),
    decreases n,
{
    if n > 0 {
        lemma_mapping_entries(od, index, mappings, n - 1);
        let m = mappings[n - 1];
        assert(holds_u32(od, index as int, n - 1 + 1, m.to_mapping_value()));
        lemma_read_u32(od, index, n as u8, m.to_mapping_value());
        lemma_mapping_value_roundtrip(m, m.to_mapping_value());
        assert(mappings.take(n) =~= mappings.take(n - 1).push(m));
    } else {
        assert(mappings.take(0) =~= Seq::<PdoMapping>::empty());
    }
}

proof fn lemma_mapping_record<OD: OdContents>(od: OD, index: u16, mappings: Seq<PdoMapping>)
    requires
        holds_mappings(od, index as int, mappings),
    ensures
        mapping_record(od, index) == mappings,
{
    lemma_read_u8(od, index, 0, mappings.len() as u8);
    lemma_mapping_entries(od, index, mappings, mappings.len() as int);
    assert(mappings.take(mappings.len() as int) =~= mappings);
}

/// The position of the records of a PDO behind the first ones: its CANopen
/// number less one, or its place in the list if it has no number.
pub open spec fn record_offset(od_number: u16, slot: int) -> int {
    if od_number == 0 {
        slot
    } else {
        od_number - 1
    }
}

/// What the parameter records of a transmit PDO say, 0x1800 and 0x1A00 on, is
/// how the PDO is sent: its COB-ID and whether bit 31 disables it, the
/// transmission type, the inhibit time, the event timer, and the mapped objects
/// in order.
pub proof fn lemma_tpdo_configuration<OD: OdContents>(
    m: NodeModel<OD>,
    slot: int,
    cob: u32,
    kind: u8,
    inhibit: u16,
    timer: u16,
    mappings: Seq<PdoMapping>,
)
    requires
        0 <= slot < m.tpdo.pdos.len() <= 512,
        m.tpdo.pdos[slot].od_number <= 512,
        ({
            let n = record_offset(m.tpdo.pdos[slot].od_number, slot);
            &&& holds_u32(m.od, 0x1800 + n, 1, cob)
            &&& holds_u8(m.od, 0x1800 + n, 2, kind)
            &&& holds_u16(m.od, 0x1800 + n, 3, inhibit)
            &&& holds_u16(m.od, 0x1800 + n, 5, timer)
            &&& holds_mappings(m.od, 0x1A00 + n, mappings)
        }),
    ensures
        ({
            let pdo = m.pdo_synced().tpdo.pdos[slot];
            &&& pdo.cob_id == cob % 0x800
            &&& pdo.enabled <==> cob < 0x8000_0000 && cob % 0x800 != 0
            &&& pdo.transmission_type == kind
            &&& pdo.inhibit_time_100us == inhibit
            &&& pdo.event_timer_ms == timer
            &&& pdo.mappings == mappings
        }),
{
    let n = record_offset(m.tpdo.pdos[slot].od_number, slot);
    let comm = (0x1800 + n) as u16;
    let map = (0x1A00 + n) as u16;
    lemma_read_u32(m.od, comm, 1, cob);
    lemma_read_u8(m.od, comm, 2, kind);
    lemma_read_u16(m.od, comm, 3, inhibit);
    lemma_read_u16(m.od, comm, 5, timer);
    lemma_mapping_record(m.od, map, mappings);
}

/// What the parameter records of a receive PDO say, 0x1400 and 0x1600 on, is
/// how the PDO is received: its COB-ID and whether bit 31 disables it, the
/// transmission type, the deadline, and the mapped objects in order.
pub proof fn lemma_rpdo_configuration<OD: OdContents>(
    m: NodeModel<OD>,
    slot: int,
    cob: u32,
    kind: u8,
    timer: u16,
    mappings: Seq<PdoMapping>,
)
    requires
        0 <= slot < m.rpdo.pdos.len() <= 512,
        m.rpdo.pdos[slot].od_number <= 512,
        ({
            let n = record_offset(m.rpdo.pdos[slot].od_number, slot);
            &&& holds_u32(m.od, 0x1400 + n, 1, cob)
            &&& holds_u8(m.od, 0x1400 + n, 2, kind)
            &&& holds_u16(m.od, 0x1400 + n, 5, timer)
            &&& holds_mappings(m.od, 0x1600 + n, mappings)
        }),
    ensures
        ({
            let pdo = m.pdo_synced().rpdo.pdos[slot];
            &&& pdo.cob_id == cob % 0x800
            &&& pdo.enabled <==> cob < 0x8000_0000 && cob % 0x800 != 0
            &&& pdo.transmission_type == kind
            &&& pdo.deadline_ms == timer
            &&& pdo.mappings == mappings
        }),
{
    let n = record_offset(m.rpdo.pdos[slot].od_number, slot);
    let comm = (0x1400 + n) as u16;
    let map = (0x1600 + n) as u16;
    lemma_read_u32(m.od, comm, 1, cob);
    lemma_read_u8(m.od, comm, 2, kind);
    lemma_read_u16(m.od, comm, 5, timer);
    lemma_mapping_record(m.od, map, mappings);
}

/// Reading the configuration keeps what cannot be read, but for the mappings,
/// and changes nothing else of the node.
pub proof fn lemma_unreadable_configuration_stays<OD: OdContents>(m: NodeModel<OD>, slot: int)
    requires
        0 <= slot < m.tpdo.pdos.len() <= 512,
        m.tpdo.pdos[slot].od_number <= 512,
        forall|index: u16, sub: u8, n: nat| #[trigger] m.od.read_result(index, sub, n) is Err,
    ensures
        m.pdo_synced().tpdo.pdos[slot] == (TpdoView {
            mappings: Seq::empty(),
            ..m.tpdo.pdos[slot]
        }),
        m.pdo_synced().nmt == m.nmt,
        m.pdo_synced().od == m.od,
        m.pdo_synced().heartbeat == m.heartbeat,
        m.pdo_synced().tpdo.pdos.len() == m.tpdo.pdos.len(),
        m.heartbeat_synced(true).heartbeat == m.heartbeat,
{
}

/// The COB-ID that a node enters in the dictionary for a PDO is the one that
/// it reads from there: both the identifier and whether the PDO is enabled.
pub proof fn lemma_cob_id_entry_roundtrip(cob_id: u16, enabled: bool)
    requires
        cob_id <= 0x7FF,
    ensures
        cob_id_entry(cob_id, enabled) % 0x800 == cob_id,
        cob_id_entry(cob_id, enabled) < 0x8000_0000 <==> enabled,
{
}

/// The node sends heartbeats at the interval that object 0x1017 holds, and
/// monitors the nodes that the entries of object 0x1016 name, for the time that
/// they state. An entry without a time, or without a node, monitors nothing.
pub proof fn lemma_heartbeat_configuration<OD: OdContents>(
    m: NodeModel<OD>,
    interval: u16,
    sub: int,
    entry: u32,
    preserve: bool,
)
    requires
        m.monitors.len() == 8,
        holds_u16(m.od, 0x1017, 0, interval),
        1 <= sub <= 8,
        holds_u32(m.od, 0x1016, sub, entry),
    ensures
        m.heartbeat_synced(preserve).heartbeat.interval_ms == interval,
        m.heartbeat_synced(preserve).monitors.len() == 8,
        ({
            let node = entry / 65536 % 256;
            let time = entry % 65536;
            match m.heartbeat_synced(preserve).monitors[sub - 1] {
                Some(h) => {
                    &&& h.node.raw() == node
                    &&& h.timeout_ms == time
                    &&& time != 0
                    &&& !preserve ==> h.state == HeartbeatMonitorState::Waiting
                },
                None => time == 0 || node == 0 || node > 127,
            }
        }),
        preserve && m.monitors[sub - 1] is Some && m.monitors[sub - 1]->0.node.raw() == entry / 65536
            % 256 && m.monitors[sub - 1]->0.timeout_ms == entry % 65536 && entry % 65536 != 0 && 1
            <= entry / 65536 % 256 <= 127 ==> m.heartbeat_synced(preserve).monitors[sub - 1]
            == m.monitors[sub - 1],
{
    lemma_read_u16(m.od, 0x1017, 0, interval);
    lemma_read_u32(m.od, 0x1016, sub as u8, entry);
    let node = (entry / 65536 % 256) as u8;
    lemma_node_id_raw_of(node);
    if let Some(old_one) = m.monitors[sub - 1] {
        lemma_node_id_of_raw(old_one.node);
    }
}

// ---- Frames ----

/// NMT commands come with COB-ID 0: the command, then the node, where 0 means
/// every node. 1 starts, 2 stops, 128 makes pre-operational, 129 and 130 reset.
pub proof fn lemma_nmt_commands<OD: OdContents>(
    m: NodeModel<OD>,
    cap: nat,
    cmd: u8,
    target: u8,
    now: u64,
)
    requires
        extra_for(m.extra, 0, 0) is None,
    ensures
        ({
            let after = m.dispatch(cap, FrameView { id: 0, data: seq![cmd, target] }, now);
            let meant = target == 0 || target == m.node.raw();
            &&& after.out.len() == 0
            &&& meant && cmd == 1 ==> after.node == NodeModel { nmt: NmtState::Operational, ..m }
            &&& meant && cmd == 2 ==> after.node == NodeModel { nmt: NmtState::Stopped, ..m }
            &&& meant && cmd == 128 ==> after.node == NodeModel {
                nmt: NmtState::PreOperational,
                ..m
            }
            &&& meant && (cmd == 129 || cmd == 130) ==> after.node.nmt == NmtState::Initializing
            &&& meant && (cmd == 129 || cmd == 130) && m.nmt != NmtState::Initializing ==> {
                &&& !after.node.booted
                &&& after.node.sdo.transfer is None
            }
            &&& !meant || (cmd != 1 && cmd != 2 && cmd != 128 && cmd != 129 && cmd != 130)
                ==> after.node == m
        }),
{
    reveal(NodeModel::dispatch);
    assert(parse_cob(0) == ParsedCobId::Nmt);
}

/// The default SDO server answers requests with COB-ID 0x600 plus the node ID
/// by frames with COB-ID 0x580 plus the node ID, one at most.
pub proof fn lemma_sdo_addresses<OD: OdContents>(
    m: NodeModel<OD>,
    cap: nat,
    data: Seq<u8>,
    now: u64,
)
    requires
        extra_for(m.extra, (0x600 + m.node.raw()) as u16, 0) is None,
        1 <= m.node.raw() <= 127,
        data.len() == 8,
    ensures
        ({
            let frame = FrameView { id: (0x600 + m.node.raw()) as u16, data };
            let reply = m.sdo.step(m.od, m.events, cap, data, m.nmt, now).response;
            let out = m.dispatch(cap, frame, now).out;
            match reply {
                Some(d) => out == seq![FrameView { id: (0x580 + m.node.raw()) as u16, data: d }],
                None => out.len() == 0,
            }
        }),
        ({
            let frame = FrameView { id: (0x600 + m.node.raw()) as u16, data };
            m.dispatch(cap, frame, now).node.od == m.sdo.step(
                m.od,
                m.events,
                cap,
                data,
                m.nmt,
                now,
            ).od
        }),
{
    reveal(NodeModel::dispatch);
    reveal(NodeModel::default_sdo);
    let id = (0x600 + m.node.raw()) as u16;
    lemma_construct_then_parse(m.node, 0);
    assert(parse_cob(id) == ParsedCobId::SdoRequest(m.node));
}

/// An additional SDO server answers requests with its own COB-ID by frames
/// with its own COB-ID, whatever the service that the COB-ID would belong to.
pub proof fn lemma_extra_sdo_addresses<OD: OdContents>(
    m: NodeModel<OD>,
    cap: nat,
    i: int,
    data: Seq<u8>,
    now: u64,
)
    requires
        0 <= i < m.extra.len(),
        forall|j: int| 0 <= j < i ==> (#[trigger] m.extra[j]).rx != m.extra[i].rx,
        m.extra[i].tx <= 0x7FF,
        data.len() == 8,
    ensures
        ({
            let e = m.extra[i];
            let reply = e.server.step(m.od, m.events, cap, data, m.nmt, now).response;
            let out = m.dispatch(cap, FrameView { id: e.rx, data }, now).out;
            match reply {
                Some(d) => out == seq![FrameView { id: e.tx, data: d }],
                None => out.len() == 0,
            }
        }),
{
    reveal(NodeModel::dispatch);
    reveal(NodeModel::extra_sdo);
    lemma_extra_for(m, i, 0);
}

proof fn lemma_extra_for<OD: OdContents>(m: NodeModel<OD>, i: int, from: int)
    requires
        0 <= from <= i < m.extra.len(),
        forall|j: int| 0 <= j < i ==> (#[trigger] m.extra[j]).rx != m.extra[i].rx,
    ensures
        extra_for(m.extra, m.extra[i].rx, from) == Some(i),
    decreases i - from,
{
    if from < i {
        lemma_extra_for(m, i, from + 1);
    }
}

/// In the operational state a SYNC message, COB-ID 0x80, sends the PDOs that
/// are due on it, with what the dictionary holds.
pub proof fn lemma_sync_sends<OD: OdContents>(m: NodeModel<OD>, cap: nat, data: Seq<u8>, now: u64)
    requires
        extra_for(m.extra, 0x80, 0) is None,
        m.nmt == NmtState::Operational,
    ensures
        ({
            let after = m.dispatch(cap, FrameView { id: 0x80, data }, now);
            &&& after.out == due_frames(m.od, m.tpdo.pdos, m.tpdo.due_on_sync())
            &&& after.node == NodeModel { tpdo: m.tpdo.after_sync(), ..m }
        }),
{
    reveal(NodeModel::dispatch);
    assert(parse_cob(0x80) == ParsedCobId::Sync);
}

/// The heartbeat of a monitored node, COB-ID 0x700 plus its node ID, makes it
/// alive in the state that the byte stands for.
pub proof fn lemma_heartbeat_is_heard<OD: OdContents>(
    m: NodeModel<OD>,
    cap: nat,
    i: int,
    state: NmtState,
    now: u64,
)
    requires
        0 <= i < m.monitors.len(),
        m.monitors[i] is Some,
        1 <= m.monitors[i]->0.node.raw() <= 127,
        forall|j: int|
            0 <= j < i ==> ((#[trigger] m.monitors[j]) matches Some(h) ==> h.node
                != m.monitors[i]->0.node),
        extra_for(m.extra, (0x700 + m.monitors[i]->0.node.raw()) as u16, 0) is None,
    ensures
        ({
            let remote = m.monitors[i]->0.node;
            let byte: u8 = match state {
                NmtState::Initializing => 0,
                NmtState::Stopped => 4,
                NmtState::Operational => 5,
                NmtState::PreOperational => 127,
            };
            let frame = FrameView { id: (0x700 + remote.raw()) as u16, data: seq![byte] };
            let after = m.dispatch(cap, frame, now);
            &&& after.out.len() == 0
            &&& after.node.monitor_state(remote) == HeartbeatMonitorState::Alive {
                nmt_state: state,
                last_seen_us: now,
            }
        }),
{
    reveal(NodeModel::dispatch);
    let remote = m.monitors[i]->0.node;
    lemma_construct_then_parse(remote, 0);
    lemma_monitor_of(m.monitors, remote, i, 0);
    let byte: u8 = match state {
        NmtState::Initializing => 0,
        NmtState::Stopped => 4,
        NmtState::Operational => 5,
        NmtState::PreOperational => 127,
    };
    let after = m.monitors.update(i, Some(m.monitors[i]->0.heard(remote, byte, now)));
    assert forall|j: int| 0 <= j < i implies ((#[trigger] after[j]) matches Some(h) ==> h.node
        != remote) by {
        assert(after[j] == m.monitors[j]);
    }
    lemma_monitor_of(after, remote, i, 0);
}

proof fn lemma_monitor_of(
    monitors: Seq<Option<MonitorModel>>,
    node: NodeId,
    i: int,
    from: int,
)
    requires
        0 <= from <= i < monitors.len(),
        monitors[i] matches Some(h) && h.node == node,
        forall|j: int|
            0 <= j < i ==> ((#[trigger] monitors[j]) matches Some(h) ==> h.node != node),
    ensures
        crate::node::model::monitor_of(monitors, node, from) == Some(i),
    decreases i - from,
{
    if from < i {
        assert(monitors[from] matches Some(h) ==> h.node != node);
        lemma_monitor_of(monitors, node, i, from + 1);
    }
}

/// A node that goes silent for longer than its time is reported, once, and by
/// its own event; nodes that are in time are not.
pub proof fn lemma_silent_nodes_are_reported(
    monitors: Seq<Option<MonitorModel>>,
    now: u64,
    n: int,
    node: NodeId,
)
    requires
        0 <= n <= monitors.len(),
    ensures
        timeouts(monitors, now, n).contains(HeartbeatEvent::Timeout { node }) <==> exists|i: int|
            0 <= i < n && ((#[trigger] monitors[i]) matches Some(h) && h.node == node && h.overdue(
                now,
            )),
        forall|k: int|
            0 <= k < timeouts(monitors, now, n).len() ==> (#[trigger] timeouts(
                monitors,
                now,
                n,
            )[k]) is Timeout,
        timeouts(monitors, now, n).len() <= n,
    decreases n,
{
    if n > 0 {
        lemma_silent_nodes_are_reported(monitors, now, n - 1, node);
        let front = timeouts(monitors, now, n - 1);
        let all = timeouts(monitors, now, n);
        let event = HeartbeatEvent::Timeout { node };
        if front.contains(event) {
            let k = choose|k: int| 0 <= k < front.len() && front[k] == event;
            assert(all[k] == event);
        }
        if all.contains(event) && !front.contains(event) {
            let k = choose|k: int| 0 <= k < all.len() && all[k] == event;
            if k < front.len() {
                assert(front[k] == event);
            }
            assert(monitors[n - 1] matches Some(h) && h.node == node && h.overdue(now));
        }
        if monitors[n - 1] matches Some(h) && h.node == node && h.overdue(now) {
            assert(all[front.len() as int] == event);
        }
    }
}

/// Frames are processed in the order in which they came, each by the node as
/// the ones before left it, and answered in that order.
pub proof fn lemma_frames_in_order<OD: OdContents>(
    m: NodeModel<OD>,
    cap: nat,
    a: Seq<FrameView>,
    b: Seq<FrameView>,
    now: u64,
)
    ensures
        ({
            let first = m.dispatch_all(cap, a, now);
            let second = first.node.dispatch_all(cap, b, now);
            &&& m.dispatch_all(cap, a + b, now).node == second.node
            &&& m.dispatch_all(cap, a + b, now).out == first.out + second.out
        }),
    decreases a.len(),
{
    if a.len() == 0 {
        assert(a + b =~= b);
        assert(Seq::<FrameView>::empty() + m.dispatch_all(cap, b, now).out =~= m.dispatch_all(
            cap,
            b,
            now,
        ).out);
    } else {
        let step = m.dispatch(cap, a[0], now);
        lemma_frames_in_order(step.node, cap, a.drop_first(), b, now);
        assert((a + b).drop_first() =~= a.drop_first() + b);
        let rest = step.node.dispatch_all(cap, a.drop_first(), now);
        let last = rest.node.dispatch_all(cap, b, now);
        assert(step.out + (rest.out + last.out) =~= (step.out + rest.out) + last.out);
    }
}

/// A single frame is processed once.
pub proof fn lemma_single_frame<OD: OdContents>(
    m: NodeModel<OD>,
    cap: nat,
    frame: FrameView,
    now: u64,
)
    ensures
        m.dispatch_all(cap, seq![frame], now).node == m.dispatch(cap, frame, now).node,
        m.dispatch_all(cap, seq![frame], now).out == m.dispatch(cap, frame, now).out,
{
    reveal_with_fuel(NodeModel::dispatch_all, 2);
    assert(seq![frame].drop_first() =~= Seq::<FrameView>::empty());
    let first = m.dispatch(cap, frame, now);
    assert(first.out + Seq::<FrameView>::empty() =~= first.out);
}

// ---- Periodic work ----

/// Everything that waits is sent in a round of periodic work: a heartbeat with
/// the state of the node if one is due, and every emergency message, in order;
/// none of them is sent again in the next round.
pub proof fn lemma_services_send<OD: OdContents>(m: NodeModel<OD>, cap: nat, now: u64)
    ensures
        ({
            let after = m.services(cap, now);
            &&& m.heartbeat.due(now) ==> after.out.contains(
                FrameView {
                    id: (0x700 + m.heartbeat.node.raw()) as u16,
                    data: seq![
                        match m.nmt {
                            NmtState::Initializing => 0u8,
                            NmtState::Stopped => 4u8,
                            NmtState::Operational => 5u8,
                            NmtState::PreOperational => 127u8,
                        },
                    ],
                },
            )
            &&& m.heartbeat.due(now) ==> after.node.heartbeat.last_sent_us == now
            &&& !m.heartbeat.due(now) ==> after.node.heartbeat == m.heartbeat
            &&& exists|k: int|
                0 <= k <= after.out.len() - m.emcy.pending.len() && #[trigger] after.out.subrange(
                    k,
                    k + m.emcy.pending.len(),
                ) == m.emcy.pending
            &&& after.node.emcy.pending.len() == 0
            &&& after.node.nmt == m.nmt
            &&& after.node.od == m.od
            &&& after.node.dirty.len() == 0
        }),
{
    reveal(NodeModel::services);
    let a = m.sdo_timeouts(now);
    let b = a.node.sdo_segments(now);
    let c = b.node.deadlines_checked(cap, now).heartbeat_polled(now);
    let d = c.node.monitors_checked(now).emcy_sent();
    let e = d.node.tpdos_polled(now);
    let out = m.services(cap, now).out;
    assert(out == a.out + b.out + c.out + d.out + e.out);
    assert(d.out == m.emcy.pending);
    let k = (a.out + b.out + c.out).len() as int;
    assert(out.subrange(k, k + m.emcy.pending.len()) =~= m.emcy.pending);
    if m.heartbeat.due(now) {
        assert(c.out.len() == 1);
        assert(out[(a.out + b.out).len() as int] == c.out[0]);
    }
}

/// In the operational state the event-driven PDOs that are due are sent in a
/// round of periodic work, with what the dictionary holds.
pub proof fn lemma_services_send_pdos<OD: OdContents>(m: NodeModel<OD>, cap: nat, now: u64)
    requires
        m.nmt == NmtState::Operational,
    ensures
        ({
            let frames = due_frames(m.od, m.tpdo.pdos, m.tpdo.due_on_poll(now, m.dirty));
            let after = m.services(cap, now);
            &&& frames.len() <= after.out.len()
            &&& after.out.skip(after.out.len() - frames.len()) == frames
            &&& after.node.tpdo == m.tpdo.after_poll(now, m.dirty)
        }),
{
    reveal(NodeModel::services);
    let frames = due_frames(m.od, m.tpdo.pdos, m.tpdo.due_on_poll(now, m.dirty));
    let after = m.services(cap, now);
    assert(after.out.skip(after.out.len() - frames.len()) =~= frames);
}

/// An expired deadline of a receive PDO is reported at the communication
/// parameters of the PDO: 0x1400 for the first one, and so on.
pub proof fn lemma_deadline_events(numbers: Seq<int>, i: int)
    requires
        0 <= i < numbers.len(),
        1 <= numbers[i] <= 512,
    ensures
        deadline_events(numbers).len() == numbers.len(),
        deadline_events(numbers)[i].index == 0x13FF + numbers[i],
        deadline_events(numbers)[i].subindex == 0,
        deadline_events(numbers)[i].source == OdEventSource::RpdoDeadline,
{
}

// ---- Queues ----

/// Frames wait for sending in order, as many as the queue has room for; the
/// ones behind are lost.
pub proof fn lemma_transmission_order(tx: Seq<FrameView>, capacity: nat, frames: Seq<FrameView>)
    requires
        tx.len() <= capacity,
    ensures
        tx.len() + frames.len() <= capacity ==> transmitted(tx, capacity, frames) == tx + frames,
        tx.len() + frames.len() > capacity ==> transmitted(tx, capacity, frames) == (tx
            + frames).take(capacity as int),
    decreases frames.len(),
{
    if frames.len() == 0 {
        assert(tx + frames =~= tx);
    } else if tx.len() < capacity {
        lemma_transmission_order(tx.push(frames[0]), capacity, frames.drop_first());
        assert(tx.push(frames[0]) + frames.drop_first() =~= tx + frames);
    } else {
        lemma_transmission_order(tx, capacity, frames.drop_first());
        assert((tx + frames).take(capacity as int) =~= tx);
        assert((tx + frames.drop_first()).take(capacity as int) =~= tx);
        assert(tx + Seq::<FrameView>::empty() =~= tx);
        if frames.len() == 1 {
            assert(frames.drop_first() =~= Seq::<FrameView>::empty());
        }
    }
}

/// A queue holds the latest events in order, as many as it has room for.
pub proof fn lemma_latest_events_are_kept<T>(items: Seq<T>, capacity: nat, more: Seq<T>)
    requires
        items.len() <= capacity,
        capacity > 0,
    ensures
        items.len() + more.len() <= capacity ==> queued(items, capacity, more) == items + more,
        items.len() + more.len() > capacity ==> queued(items, capacity, more) == (items
            + more).skip(items.len() + more.len() - capacity),
    decreases more.len(),
{
    let all = items + more;
    if more.len() == 0 {
        assert(all =~= items);
    } else {
        let front = more.drop_last();
        lemma_latest_events_are_kept(items, capacity, front);
        assert((items + front).push(more.last()) =~= all);
        let before = queued(items, capacity, front);
        if all.len() > capacity {
            if before.len() == capacity {
                assert(push_evicting(before, capacity, more.last()) =~= all.skip(
                    all.len() - capacity,
                ));
            }
        }
    }
}

/// Lost events are counted one by one, up to the largest count.
pub proof fn lemma_count_saturates(dropped: u32, more: int)
    requires
        more >= 0,
    ensures
        dropped + more <= 0xFFFF_FFFF ==> counted(dropped, more) == dropped + more,
        dropped + more > 0xFFFF_FFFF ==> counted(dropped, more) == 0xFFFF_FFFF,
{
}

/// Several payloads are sent as frames in order, one for each.
pub proof fn lemma_payloads_in_order(id: u16, payloads: Seq<Seq<u8>>)
    requires
        id <= 0x7FF,
    ensures
        all_framed(id, payloads).len() == payloads.len(),
        forall|i: int|
            0 <= i < payloads.len() ==> (#[trigger] all_framed(id, payloads)[i]) == (FrameView {
                id,
                data: payloads[i],
            }),
    decreases payloads.len(),
{
    if payloads.len() > 0 {
        lemma_payloads_in_order(id, payloads.skip(1));
        let rest = all_framed(id, payloads.skip(1));
        assert forall|i: int| 0 <= i < payloads.len() implies (#[trigger] all_framed(
            id,
            payloads,
        )[i]) == (FrameView { id, data: payloads[i] }) by {
            if i > 0 {
                assert(all_framed(id, payloads)[i] == rest[i - 1]);
                assert(payloads.skip(1)[i - 1] == payloads[i]);
            }
        }
    }
}

// ---- Changes by the application ----

proof fn lemma_differing<OD: OdContents>(
    before: OD,
    after: OD,
    mappings: Seq<PdoMapping>,
    index: u16,
    sub: u8,
)
    ensures
        differing(before, after, mappings).contains((index, sub)) <==> exists|i: int|
            0 <= i < mappings.len() && (#[trigger] mappings[i]).index == index
                && mappings[i].subindex == sub && shown(before, index, sub) != shown(
                after,
                index,
                sub,
            ),
    decreases mappings.len(),
{
    let list = differing(before, after, mappings);
    if mappings.len() > 0 {
        let front = mappings.drop_last();
        lemma_differing(before, after, front, index, sub);
        let rest = differing(before, after, front);
        let m = mappings.last();
        let (x, y) = (comparable(before, m), comparable(after, m));
        if x.len() == 0 {
            assert(x =~= Seq::<u8>::empty());
        }
        if y.len() == 0 {
            assert(y =~= Seq::<u8>::empty());
        }
        assert((x == y) == (shown(before, m.index, m.subindex) == shown(after, m.index, m.subindex)));
        if list.contains((index, sub)) {
            let k = choose|k: int| 0 <= k < list.len() && list[k] == (index, sub);
            if k < rest.len() {
                assert(rest[k] == (index, sub));
                let i = choose|i: int|
                    0 <= i < front.len() && (#[trigger] front[i]).index == index
                        && front[i].subindex == sub;
                assert(mappings[i] == front[i]);
            } else {
                assert(mappings[mappings.len() - 1] == m);
            }
        }
        if exists|i: int|
            0 <= i < mappings.len() && (#[trigger] mappings[i]).index == index
                && mappings[i].subindex == sub && shown(before, index, sub) != shown(
                after,
                index,
                sub,
            ) {
            let i = choose|i: int|
                0 <= i < mappings.len() && (#[trigger] mappings[i]).index == index
                    && mappings[i].subindex == sub;
            if i < front.len() {
                assert(front[i] == mappings[i]);
                let k = choose|k: int| 0 <= k < rest.len() && rest[k] == (index, sub);
                assert(list[k] == (index, sub));
            } else {
                assert(list[list.len() - 1] == (index, sub));
            }
        }
    }
}

/// What a comparison shows of an entry: its value of at most eight bytes, or
/// nothing.
pub open spec fn shown<OD: OdContents>(od: OD, index: u16, sub: u8) -> Option<Seq<u8>> {
    match od.read_result(index, sub, 8) {
        Ok(v) => if v.len() == 0 {
            None
        } else {
            Some(v)
        },
        Err(_) => None,
    }
}

/// An entry counts as changed between two dictionaries if and only if one of
/// the transmit PDOs maps it and its value is another one, or can be read in one
/// of the two alone.
pub proof fn lemma_changed_entries<OD: OdContents>(
    before: OD,
    after: OD,
    pdos: Seq<TpdoView>,
    n: int,
    index: u16,
    sub: u8,
)
    requires
        0 <= n <= pdos.len(),
    ensures
        changed_entries(before, after, pdos, n).contains((index, sub)) <==> shown(
            before,
            index,
            sub,
        ) != shown(after, index, sub) && exists|p: int, i: int|
            0 <= p < n && 0 <= i < pdos[p].mappings.len() && (
            #[trigger] pdos[p].mappings[i]).index == index && pdos[p].mappings[i].subindex == sub,
    decreases n,
{
    if n > 0 {
        lemma_changed_entries(before, after, pdos, n - 1, index, sub);
        lemma_differing(before, after, pdos[n - 1].mappings, index, sub);
        let a = changed_entries(before, after, pdos, n - 1);
        let b = differing(before, after, pdos[n - 1].mappings);
        let list = changed_entries(before, after, pdos, n);
        assert(list == a + b);
        if list.contains((index, sub)) {
            let k = choose|k: int| 0 <= k < list.len() && list[k] == (index, sub);
            if k < a.len() {
                assert(a[k] == (index, sub));
            } else {
                assert(b[k - a.len()] == (index, sub));
            }
        }
        if a.contains((index, sub)) {
            let k = choose|k: int| 0 <= k < a.len() && a[k] == (index, sub);
            assert(list[k] == (index, sub));
        }
        if b.contains((index, sub)) {
            let k = choose|k: int| 0 <= k < b.len() && b[k] == (index, sub);
            assert(list[a.len() + k] == (index, sub));
        }
    }
}

} // verus!
