//! What a node does, step by step.

use crate::bytes::{le_u16, padded, u32_bytes};
use crate::cobid::{parse_cob, NodeId, ParsedCobId};
use crate::emcy::EmcyModel;
use crate::heartbeat::{HeartbeatEvent, HeartbeatMonitorState, MonitorModel, ProducerModel};
use crate::lss::{LssIdentity, LssModel, LSS_REQUEST_COB, LSS_RESPONSE_COB};
use crate::nmt::{nmt_step, NmtCommand, NmtState, NmtTransition};
use crate::od::{OdContents, OdEvent, OdEventSource};
use crate::pdo::config::{PdoMapping, RpdoView, TpdoView};
use crate::pdo::engine::{due_frames, RpdoModel, TpdoModel};
use crate::queue::push_evicting;
use crate::sdo::server::{
    hb_entry_node, hb_entry_time, pdo_config_index, read_u32, ServerModel, CONSUMER_HEARTBEAT,
};
use crate::transport::FrameView;
use vstd::prelude::*;

verus! {

/// Maximum number of 0x1016 consumer heartbeat entries a `Node` monitors.
/// OD entries beyond this many subindices are readable/writable via SDO but
/// not monitored.
pub const MAX_HEARTBEAT_MONITORS: usize = 8;

/// Size of the heartbeat-consumer event queue. On overflow the oldest event is
/// evicted and counted as dropped.
pub const HB_EVENT_QUEUE: usize = 8;

/// Producer heartbeat time.
pub const PRODUCER_HEARTBEAT: u16 = 0x1017;

/// Bases of the PDO parameter records.
pub const RPDO_COMM: u16 = 0x1400;

pub const RPDO_MAPPING: u16 = 0x1600;

pub const TPDO_COMM: u16 = 0x1800;

pub const TPDO_MAPPING: u16 = 0x1A00;

/// An additional SDO server: its transfer, and its COB-IDs.
#[verifier::ext_equal]
pub struct ExtraModel {
    pub server: ServerModel,
    /// Client to server.
    pub rx: u16,
    /// Server to client.
    pub tx: u16,
}

/// The state of a node.
#[verifier::ext_equal]
#[verifier::reject_recursive_types(OD)]
pub struct NodeModel<OD> {
    pub node: NodeId,
    pub od: OD,
    pub nmt: NmtState,
    pub sdo: ServerModel,
    pub extra: Seq<ExtraModel>,
    pub tpdo: TpdoModel,
    pub rpdo: RpdoModel,
    pub heartbeat: ProducerModel,
    pub monitors: Seq<Option<MonitorModel>>,
    pub hb_events: Seq<HeartbeatEvent>,
    pub emcy: EmcyModel,
    pub lss: LssModel,
    pub booted: bool,
    pub auto_start: bool,
    pub events: Seq<OdEvent>,
    /// Entries that the application changed since the last processing.
    pub dirty: Seq<(u16, u8)>,
    /// Events lost to full queues.
    pub dropped: u32,
}

/// A count that stays at its largest value.
pub open spec fn counted(dropped: u32, more: int) -> u32 {
    if dropped + more <= u32::MAX {
        (dropped + more) as u32
    } else {
        u32::MAX
    }
}

/// The frame with some payload, if the COB-ID is one of 11 bits.
pub open spec fn framed(id: u16, data: Seq<u8>) -> Seq<FrameView> {
    if id <= 0x7FF {
        seq![FrameView { id, data }]
    } else {
        Seq::empty()
    }
}

/// The frames with several payloads.
pub open spec fn all_framed(id: u16, payloads: Seq<Seq<u8>>) -> Seq<FrameView>
    decreases payloads.len(),
{
    if payloads.len() == 0 {
        Seq::empty()
    } else {
        framed(id, payloads[0]) + all_framed(id, payloads.skip(1))
    }
}

// ---- Configuration in the dictionary ----

/// What a two-byte entry holds, a short one being filled up with zeros.
pub open spec fn read_u16<OD: OdContents>(od: OD, index: u16, subindex: u8) -> Option<u16> {
    match od.read_result(index, subindex, 2) {
        Ok(v) => Some(le_u16(padded(v, 2))),
        Err(_) => None,
    }
}

/// What a one-byte entry holds.
pub open spec fn read_u8<OD: OdContents>(od: OD, index: u16, subindex: u8) -> Option<u8> {
    match read_u32(od, index, subindex) {
        Some(v) => Some((v % 256) as u8),
        None => None,
    }
}

/// The index of a PDO's record: at the explicit CANopen number if set, else at
/// the engine slot.
pub open spec fn record_index(base: u16, od_number: u16, slot: int) -> u16 {
    if od_number == 0 {
        ((base + slot) % 0x1_0000) as u16
    } else {
        ((base + od_number - 1) % 0x1_0000) as u16
    }
}

/// The COB-ID entry of a PDO: bit 31 says that it is disabled.
pub open spec fn cob_id_entry(cob_id: u16, enabled: bool) -> u32 {
    if enabled {
        cob_id as u32
    } else {
        (0x8000_0000 + cob_id) as u32
    }
}

/// The dictionary after the COB-IDs of the first `n` transmit PDOs were
/// written to it.
pub open spec fn with_tpdo_cob_ids<OD: OdContents>(
    od: OD,
    pdos: Seq<TpdoView>,
    n: int,
) -> OD
    decreases n,
{
    if n <= 0 {
        od
    } else {
        let p = pdos[n - 1];
        with_tpdo_cob_ids(od, pdos, n - 1).after_write(
            record_index(TPDO_COMM, p.od_number, n - 1),
            1,
            u32_bytes(cob_id_entry(p.cob_id, p.enabled)),
        )
    }
}

/// The dictionary after the COB-IDs of the first `n` receive PDOs were
/// written to it.
pub open spec fn with_rpdo_cob_ids<OD: OdContents>(
    od: OD,
    pdos: Seq<RpdoView>,
    n: int,
) -> OD
    decreases n,
{
    if n <= 0 {
        od
    } else {
        let p = pdos[n - 1];
        with_rpdo_cob_ids(od, pdos, n - 1).after_write(
            record_index(RPDO_COMM, p.od_number, n - 1),
            1,
            u32_bytes(cob_id_entry(p.cob_id, p.enabled)),
        )
    }
}

/// The mappings in the first `n` entries of a mapping record, those that
/// cannot be read being left out.
pub open spec fn mapping_entries<OD: OdContents>(od: OD, index: u16, n: int) -> Seq<
    PdoMapping,
>
    decreases n,
{
    if n <= 0 {
        Seq::empty()
    } else {
        match read_u32(od, index, n as u8) {
            Some(v) => mapping_entries(od, index, n - 1).push(PdoMapping::from_mapping_value(v)),
            None => mapping_entries(od, index, n - 1),
        }
    }
}

/// The mappings in a mapping record, of which there are as many as its
/// subindex 0 says, but not more than a PDO can have.
pub open spec fn mapping_record<OD: OdContents>(od: OD, index: u16) -> Seq<PdoMapping> {
    match read_u8(od, index, 0) {
        Some(count) => mapping_entries(
            od,
            index,
            if count < 64 {
                count as int
            } else {
                64
            },
        ),
        None => Seq::empty(),
    }
}

/// A transmit PDO after its configuration was read from the dictionary.
/// Entries that cannot be read leave the setting as it is, except for the
/// mappings.
pub open spec fn tpdo_from_od<OD: OdContents>(od: OD, p: TpdoView, slot: int) -> TpdoView {
    let comm = record_index(TPDO_COMM, p.od_number, slot);
    let cob = read_u32(od, comm, 1);
    TpdoView {
        od_number: p.od_number,
        cob_id: match cob {
            Some(raw) => (raw % 0x800) as u16,
            None => p.cob_id,
        },
        // A COB-ID of 0 is one that is not resolved yet.
        enabled: match cob {
            Some(raw) => raw < 0x8000_0000 && raw % 0x800 != 0,
            None => p.enabled,
        },
        transmission_type: match read_u8(od, comm, 2) {
            Some(v) => v,
            None => p.transmission_type,
        },
        inhibit_time_100us: match read_u16(od, comm, 3) {
            Some(v) => v,
            None => p.inhibit_time_100us,
        },
        event_timer_ms: match read_u16(od, comm, 5) {
            Some(v) => v,
            None => p.event_timer_ms,
        },
        mappings: mapping_record(od, record_index(TPDO_MAPPING, p.od_number, slot)),
    }
}

/// A receive PDO after its configuration was read from the dictionary.
pub open spec fn rpdo_from_od<OD: OdContents>(od: OD, p: RpdoView, slot: int) -> RpdoView {
    let comm = record_index(RPDO_COMM, p.od_number, slot);
    let cob = read_u32(od, comm, 1);
    RpdoView {
        od_number: p.od_number,
        cob_id: match cob {
            Some(raw) => (raw % 0x800) as u16,
            None => p.cob_id,
        },
        enabled: match cob {
            Some(raw) => raw < 0x8000_0000 && raw % 0x800 != 0,
            None => p.enabled,
        },
        transmission_type: match read_u8(od, comm, 2) {
            Some(v) => v,
            None => p.transmission_type,
        },
        deadline_ms: match read_u16(od, comm, 5) {
            Some(v) => v,
            None => p.deadline_ms,
        },
        mappings: mapping_record(od, record_index(RPDO_MAPPING, p.od_number, slot)),
    }
}

/// The node and consumer time in ms that a 0x1016 entry asks to monitor.
pub open spec fn consumer_entry<OD: OdContents>(od: OD, subindex: u8) -> Option<
    (NodeId, u16),
> {
    match read_u32(od, CONSUMER_HEARTBEAT, subindex) {
        Some(raw) if hb_entry_time(raw) != 0 && 1 <= hb_entry_node(raw) <= 127 => Some(
            (NodeId::of_raw(hb_entry_node(raw)), hb_entry_time(raw)),
        ),
        _ => None,
    }
}

/// The monitor of a 0x1016 entry. If `preserve` is set, a monitor whose entry
/// is unchanged keeps its state.
pub open spec fn monitor_from_od<OD: OdContents>(
    od: OD,
    subindex: u8,
    existing: Option<MonitorModel>,
    preserve: bool,
) -> Option<MonitorModel> {
    match (consumer_entry(od, subindex), existing) {
        (Some((node, time)), Some(m)) if preserve && m.node == node && m.timeout_ms == time => Some(
            m,
        ),
        (Some((node, time)), _) => Some(MonitorModel::fresh(node, time)),
        (None, _) => None,
    }
}

// ---- Heartbeat monitoring ----

/// The first monitor from `from` on that monitors a node.
pub open spec fn monitor_of(monitors: Seq<Option<MonitorModel>>, node: NodeId, from: int) -> Option<
    int,
>
    decreases monitors.len() - from,
{
    if from < 0 || from >= monitors.len() {
        None
    } else if monitors[from] matches Some(m) && m.node == node {
        Some(from)
    } else {
        monitor_of(monitors, node, from + 1)
    }
}

/// The timeouts of the first `n` monitors.
pub open spec fn timeouts(monitors: Seq<Option<MonitorModel>>, now: u64, n: int) -> Seq<
    HeartbeatEvent,
>
    decreases n,
{
    if n <= 0 {
        Seq::empty()
    } else {
        let front = timeouts(monitors, now, n - 1);
        match monitors[n - 1] {
            Some(m) if m.overdue(now) => front.push(HeartbeatEvent::Timeout { node: m.node }),
            _ => front,
        }
    }
}

// ---- Steps ----

/// What a step does: the node after it, and the frames that it sends.
#[verifier::reject_recursive_types(OD)]
pub struct NodeStep<OD> {
    pub node: NodeModel<OD>,
    pub out: Seq<FrameView>,
}

/// The frames of the first `n` additional servers that a timeout aborts.
pub open spec fn extra_aborts(extra: Seq<ExtraModel>, now: u64, n: int) -> Seq<FrameView>
    decreases n,
{
    if n <= 0 {
        Seq::empty()
    } else {
        let e = extra[n - 1];
        match e.server.timeout(now).1 {
            Some(d) => extra_aborts(extra, now, n - 1) + framed(e.tx, d),
            None => extra_aborts(extra, now, n - 1),
        }
    }
}

/// The block segments of the first `n` additional servers.
pub open spec fn extra_segments(extra: Seq<ExtraModel>, now: u64, n: int) -> Seq<FrameView>
    decreases n,
{
    if n <= 0 {
        Seq::empty()
    } else {
        let e = extra[n - 1];
        extra_segments(extra, now, n - 1) + all_framed(e.tx, e.server.drain(now).1)
    }
}

/// The additional server from `from` on that receives a COB-ID.
pub open spec fn extra_for(extra: Seq<ExtraModel>, id: u16, from: int) -> Option<int>
    decreases extra.len() - from,
{
    if from < 0 || from >= extra.len() {
        None
    } else if extra[from].rx == id {
        Some(from)
    } else {
        extra_for(extra, id, from + 1)
    }
}

/// The events that report expired PDO deadlines.
pub open spec fn deadline_events(numbers: Seq<int>) -> Seq<OdEvent> {
    numbers.map_values(
        |n: int|
            OdEvent {
                index: (RPDO_COMM + n - 1) as u16,
                subindex: 0,
                source: OdEventSource::RpdoDeadline,
            },
    )
}

/// A queue after several events, each of which evicts the oldest one if the
/// queue is full.
pub open spec fn queued<T>(items: Seq<T>, capacity: nat, more: Seq<T>) -> Seq<T>
    decreases more.len(),
{
    if more.len() == 0 {
        items
    } else {
        push_evicting(queued(items, capacity, more.drop_last()), capacity, more.last())
    }
}

/// How many events are lost that way.
pub open spec fn evicted<T>(items: Seq<T>, capacity: nat, more: Seq<T>) -> int
    decreases more.len(),
{
    if more.len() == 0 {
        0
    } else {
        let before = queued(items, capacity, more.drop_last());
        evicted(items, capacity, more.drop_last()) + (if before.len() == capacity {
            1int
        } else {
            0int
        })
    }
}

impl<OD: OdContents> NodeModel<OD> {
    /// A new node. The COB-IDs of its PDOs and SDO servers are entered in the
    /// dictionary, its heartbeat configuration is taken from there.
    pub open spec fn fresh(
        node: NodeId,
        heartbeat_interval_ms: u16,
        auto_start: bool,
        tpdo: Seq<TpdoView>,
        rpdo: Seq<RpdoView>,
        extra: Seq<ExtraModel>,
        identity: LssIdentity,
        od: OD,
    ) -> NodeModel<OD> {
        let with_tpdo = with_tpdo_cob_ids(od, tpdo, tpdo.len() as int);
        let with_pdos = with_rpdo_cob_ids(with_tpdo, rpdo, rpdo.len() as int);
        (NodeModel {
            node,
            od: with_pdos.after_store_sdo_cob_ids(node),
            nmt: NmtState::Initializing,
            sdo: ServerModel { transfer: None, committed: None },
            extra,
            tpdo: TpdoModel::fresh(tpdo),
            rpdo: RpdoModel::fresh(rpdo),
            heartbeat: ProducerModel {
                node,
                interval_ms: heartbeat_interval_ms,
                last_sent_us: 0,
            },
            monitors: Seq::new(MAX_HEARTBEAT_MONITORS as nat, |i: int| None),
            hb_events: Seq::empty(),
            emcy: EmcyModel { node, register: 0, pending: Seq::empty() },
            lss: LssModel::fresh(identity, node.raw()),
            booted: false,
            auto_start,
            events: Seq::empty(),
            dirty: Seq::empty(),
            dropped: 0,
        }).heartbeat_synced(false)
    }

    /// The node after its heartbeat configuration was read from the dictionary.
    pub open spec fn heartbeat_synced(self, preserve: bool) -> NodeModel<OD> {
        NodeModel {
            heartbeat: ProducerModel {
                interval_ms: match read_u16(self.od, PRODUCER_HEARTBEAT, 0) {
                    Some(ms) => ms,
                    None => self.heartbeat.interval_ms,
                },
                ..self.heartbeat
            },
            monitors: Seq::new(
                MAX_HEARTBEAT_MONITORS as nat,
                |i: int| monitor_from_od(self.od, (i + 1) as u8, self.monitors[i], preserve),
            ),
            ..self
        }
    }

    /// The node after its PDO configuration was read from the dictionary.
    pub open spec fn pdo_synced(self) -> NodeModel<OD> {
        NodeModel {
            tpdo: TpdoModel {
                pdos: Seq::new(
                    self.tpdo.pdos.len(),
                    |i: int| tpdo_from_od(self.od, self.tpdo.pdos[i], i),
                ),
                ..self.tpdo
            },
            rpdo: RpdoModel {
                pdos: Seq::new(
                    self.rpdo.pdos.len(),
                    |i: int| rpdo_from_od(self.od, self.rpdo.pdos[i], i),
                ),
                ..self.rpdo
            },
            ..self
        }
    }

    /// The node after a reset of its communication: every SDO transfer is
    /// given up, the configuration is read again, and the node boots next.
    pub open spec fn communication_reset(self) -> NodeModel<OD> {
        (NodeModel {
            booted: false,
            sdo: self.sdo.with(None),
            extra: Seq::new(
                self.extra.len(),
                |i: int| ExtraModel { server: self.extra[i].server.with(None), ..self.extra[i] },
            ),
            ..self
        }).pdo_synced().heartbeat_synced(false)
    }

    /// The node after a reset that its own application asked for.
    pub open spec fn local_reset(self) -> NodeModel<OD> {
        NodeModel { nmt: NmtState::Initializing, ..self.communication_reset() }
    }

    /// The node after the application announced a change.
    pub open spec fn notified(self, capacity: nat, entry: (u16, u8)) -> NodeModel<OD> {
        if self.dirty.contains(entry) || self.dirty.len() >= capacity {
            self
        } else {
            NodeModel { dirty: self.dirty.push(entry), ..self }
        }
    }

    /// A step that sends nothing.
    pub open spec fn silent(self) -> NodeStep<OD> {
        NodeStep { node: self, out: Seq::empty() }
    }

    /// The boot sequence, if it is due: the boot-up message is sent and the
    /// node becomes pre-operational, or operational if it starts by itself.
    pub open spec fn boot(self, now: u64) -> NodeStep<OD> {
        if self.booted {
            self.silent()
        } else {
            NodeStep {
                node: NodeModel {
                    booted: true,
                    heartbeat: self.heartbeat.sent(now),
                    nmt: if self.auto_start {
                        NmtState::Operational
                    } else {
                        NmtState::PreOperational
                    },
                    ..self
                },
                out: seq![
                    crate::heartbeat::heartbeat_frame(self.heartbeat.node, NmtState::Initializing),
                ],
            }
        }
    }

    /// The node after an SDO request brought the dictionary, the event queue
    /// and the response: an event that a write pushed out of a full queue is
    /// counted, and services whose configuration was written read it again.
    pub open spec fn sdo_committed(
        self,
        was_full: bool,
        committed: Option<(u16, u8)>,
    ) -> NodeModel<OD> {
        let counted_node = if was_full && committed is Some {
            NodeModel { dropped: counted(self.dropped, 1), ..self }
        } else {
            self
        };
        match committed {
            Some((index, _)) => if pdo_config_index(index) {
                counted_node.pdo_synced()
            } else if index == CONSUMER_HEARTBEAT || index == PRODUCER_HEARTBEAT {
                counted_node.heartbeat_synced(true)
            } else {
                counted_node
            },
            None => counted_node,
        }
    }

    /// A request to the default SDO server. Short frames are ignored.
    #[verifier::opaque]
    pub open spec fn default_sdo(self, capacity: nat, data: Seq<u8>, now: u64) -> NodeStep<OD> {
        if data.len() < 8 {
            self.silent()
        } else {
            let st = self.sdo.step(self.od, self.events, capacity, data, self.nmt, now);
            let after = NodeModel {
                od: st.od,
                events: st.events,
                sdo: ServerModel { committed: None, ..st.server },
                ..self
            };
            NodeStep {
                node: after.sdo_committed(self.events.len() == capacity, st.server.committed),
                out: match st.response {
                    Some(d) => framed((0x580 + self.node.raw()) as u16, d),
                    None => Seq::empty(),
                },
            }
        }
    }

    /// A request to an additional SDO server.
    #[verifier::opaque]
    pub open spec fn extra_sdo(self, i: int, capacity: nat, data: Seq<u8>, now: u64) -> NodeStep<
        OD,
    > {
        if data.len() < 8 {
            self.silent()
        } else {
            let e = self.extra[i];
            let st = e.server.step(self.od, self.events, capacity, data, self.nmt, now);
            let after = NodeModel {
                od: st.od,
                events: st.events,
                extra: self.extra.update(
                    i,
                    ExtraModel { server: ServerModel { committed: None, ..st.server }, ..e },
                ),
                ..self
            };
            NodeStep {
                node: after.sdo_committed(self.events.len() == capacity, st.server.committed),
                out: match st.response {
                    Some(d) => framed(e.tx, d),
                    None => Seq::empty(),
                },
            }
        }
    }

    /// An NMT command.
    pub open spec fn commanded(self, data: Seq<u8>) -> NodeModel<OD> {
        if data.len() < 2 {
            self
        } else {
            match NmtCommand::from_byte(data[0]) {
                Some(cmd) => {
                    let (nmt, transition) = nmt_step(self.nmt, cmd, data[1], self.node);
                    let after = NodeModel { nmt, ..self };
                    if transition == NmtTransition::ResetApplication || transition
                        == NmtTransition::ResetCommunication {
                        after.communication_reset()
                    } else {
                        after
                    }
                },
                None => self,
            }
        }
    }

    /// The heartbeat of another node.
    pub open spec fn heard(self, remote: NodeId, state_byte: u8, now: u64) -> NodeModel<OD> {
        match monitor_of(self.monitors, remote, 0) {
            Some(i) => {
                let m = self.monitors[i]->0;
                self.with_hb_events(m.reported(remote, state_byte)).with_monitors(
                    self.monitors.update(i, Some(m.heard(remote, state_byte, now))),
                )
            },
            None => self,
        }
    }

    pub open spec fn with_monitors(self, monitors: Seq<Option<MonitorModel>>) -> NodeModel<OD> {
        NodeModel { monitors, ..self }
    }

    /// The node after heartbeat events were queued.
    pub open spec fn with_hb_events(self, more: Seq<HeartbeatEvent>) -> NodeModel<OD> {
        let cap = HB_EVENT_QUEUE as nat;
        NodeModel {
            hb_events: queued(self.hb_events, cap, more),
            dropped: counted(self.dropped, evicted(self.hb_events, cap, more)),
            ..self
        }
    }

    /// The node after dictionary events were queued.
    pub open spec fn with_events(self, capacity: nat, more: Seq<OdEvent>) -> NodeModel<OD> {
        NodeModel {
            events: queued(self.events, capacity, more),
            dropped: counted(self.dropped, evicted(self.events, capacity, more)),
            ..self
        }
    }

    /// What a received frame does.
    #[verifier::opaque]
    pub open spec fn dispatch(self, capacity: nat, frame: FrameView, now: u64) -> NodeStep<OD> {
        match extra_for(self.extra, frame.id, 0) {
            Some(i) => self.extra_sdo(i, capacity, frame.data, now),
            None => match parse_cob(frame.id) {
                ParsedCobId::Nmt => self.commanded(frame.data).silent(),
                ParsedCobId::SdoRequest(node) if node == self.node => self.default_sdo(
                    capacity,
                    frame.data,
                    now,
                ),
                ParsedCobId::Sync => if self.nmt == NmtState::Operational {
                    NodeStep {
                        node: NodeModel { tpdo: self.tpdo.after_sync(), ..self },
                        out: due_frames(self.od, self.tpdo.pdos, self.tpdo.due_on_sync()),
                    }
                } else {
                    self.silent()
                },
                ParsedCobId::Rpdo { .. } | ParsedCobId::Tpdo { .. } => if self.nmt
                    == NmtState::Operational {
                    let effect = self.rpdo.effect(frame, self.od, self.events, capacity);
                    (NodeModel {
                        od: effect.od,
                        events: effect.events,
                        dropped: counted(self.dropped, effect.dropped),
                        rpdo: self.rpdo.received(frame, now),
                        ..self
                    }).silent()
                } else {
                    self.silent()
                },
                ParsedCobId::Heartbeat(remote) => if frame.data.len() >= 1 {
                    self.heard(remote, frame.data[0], now).silent()
                } else {
                    self.silent()
                },
                _ => if frame.id == LSS_REQUEST_COB {
                    NodeStep {
                        node: NodeModel { lss: self.lss.after(frame), ..self },
                        out: match self.lss.response(frame) {
                            Some(data) => seq![FrameView { id: LSS_RESPONSE_COB, data }],
                            None => Seq::empty(),
                        },
                    }
                } else {
                    self.silent()
                },
            },
        }
    }

    /// What several received frames do.
    pub open spec fn dispatch_all(self, capacity: nat, frames: Seq<FrameView>, now: u64) -> NodeStep<
        OD,
    >
        decreases frames.len(),
    {
        if frames.len() == 0 {
            self.silent()
        } else {
            let first = self.dispatch(capacity, frames[0], now);
            let rest = first.node.dispatch_all(capacity, frames.drop_first(), now);
            NodeStep { node: rest.node, out: first.out + rest.out }
        }
    }

    /// Stale SDO transfers are aborted.
    pub open spec fn sdo_timeouts(self, now: u64) -> NodeStep<OD> {
        NodeStep {
            node: NodeModel {
                sdo: self.sdo.timeout(now).0,
                extra: Seq::new(
                    self.extra.len(),
                    |i: int|
                        ExtraModel {
                            server: self.extra[i].server.timeout(now).0,
                            ..self.extra[i]
                        },
                ),
                ..self
            },
            out: (match self.sdo.timeout(now).1 {
                Some(d) => framed((0x580 + self.node.raw()) as u16, d),
                None => Seq::empty(),
            }) + extra_aborts(self.extra, now, self.extra.len() as int),
        }
    }

    /// Block segments that are due are sent.
    pub open spec fn sdo_segments(self, now: u64) -> NodeStep<OD> {
        NodeStep {
            node: NodeModel {
                sdo: self.sdo.drain(now).0,
                extra: Seq::new(
                    self.extra.len(),
                    |i: int|
                        ExtraModel { server: self.extra[i].server.drain(now).0, ..self.extra[i] },
                ),
                ..self
            },
            out: all_framed((0x580 + self.node.raw()) as u16, self.sdo.drain(now).1)
                + extra_segments(self.extra, now, self.extra.len() as int),
        }
    }

    /// The reception deadlines of PDOs are checked. Outside the operational
    /// state silence does not count.
    pub open spec fn deadlines_checked(self, capacity: nat, now: u64) -> NodeModel<OD> {
        if self.nmt == NmtState::Operational {
            let numbers = self.rpdo.expired_numbers(now, self.rpdo.pdos.len() as int);
            let after = NodeModel { rpdo: self.rpdo.checked(now), ..self };
            after.with_events(capacity, deadline_events(numbers))
        } else {
            NodeModel { rpdo: self.rpdo.monitoring_reset(), ..self }
        }
    }

    /// A heartbeat is sent if it is due.
    pub open spec fn heartbeat_polled(self, now: u64) -> NodeStep<OD> {
        if self.heartbeat.due(now) {
            NodeStep {
                node: NodeModel { heartbeat: self.heartbeat.sent(now), ..self },
                out: seq![crate::heartbeat::heartbeat_frame(self.heartbeat.node, self.nmt)],
            }
        } else {
            self.silent()
        }
    }

    /// The heartbeats of other nodes are checked.
    pub open spec fn monitors_checked(self, now: u64) -> NodeModel<OD> {
        let n = self.monitors.len();
        self.with_hb_events(timeouts(self.monitors, now, n as int)).with_monitors(
            Seq::new(
                n,
                |i: int|
                    match self.monitors[i] {
                        Some(m) => Some(m.checked(now)),
                        None => None,
                    },
            ),
        )
    }

    /// All waiting emergency messages are sent.
    pub open spec fn emcy_sent(self) -> NodeStep<OD> {
        NodeStep {
            node: NodeModel { emcy: EmcyModel { pending: Seq::empty(), ..self.emcy }, ..self },
            out: self.emcy.pending,
        }
    }

    /// Event-driven PDOs that are due are sent, in the operational state only.
    pub open spec fn tpdos_polled(self, now: u64) -> NodeStep<OD> {
        if self.nmt == NmtState::Operational {
            NodeStep {
                node: NodeModel {
                    tpdo: self.tpdo.after_poll(now, self.dirty),
                    dirty: Seq::empty(),
                    ..self
                },
                out: due_frames(
                    self.od,
                    self.tpdo.pdos,
                    self.tpdo.due_on_poll(now, self.dirty),
                ),
            }
        } else {
            (NodeModel { dirty: Seq::empty(), ..self }).silent()
        }
    }

    /// The periodic work of a node.
    #[verifier::opaque]
    pub open spec fn services(self, capacity: nat, now: u64) -> NodeStep<OD> {
        let a = self.sdo_timeouts(now);
        let b = a.node.sdo_segments(now);
        let c = b.node.deadlines_checked(capacity, now).heartbeat_polled(now);
        let d = c.node.monitors_checked(now).emcy_sent();
        let e = d.node.tpdos_polled(now);
        NodeStep { node: e.node, out: a.out + b.out + c.out + d.out + e.out }
    }

    /// One round of processing: boot if due, the received frames, the periodic
    /// work.
    pub open spec fn round(self, capacity: nat, frames: Seq<FrameView>, now: u64) -> NodeStep<OD> {
        let a = self.boot(now);
        let b = a.node.dispatch_all(capacity, frames, now);
        let c = b.node.services(capacity, now);
        NodeStep { node: c.node, out: a.out + b.out + c.out }
    }

    /// The state of the monitor of a node.
    pub open spec fn monitor_state(self, node: NodeId) -> HeartbeatMonitorState {
        match monitor_of(self.monitors, node, 0) {
            Some(i) => self.monitors[i]->0.state,
            None => HeartbeatMonitorState::Disabled,
        }
    }
}

/// A queue for sending after several frames were put there. Frames beyond its
/// capacity are lost.
pub open spec fn transmitted(tx: Seq<FrameView>, capacity: nat, frames: Seq<FrameView>) -> Seq<
    FrameView,
>
    decreases frames.len(),
{
    if frames.len() == 0 {
        tx
    } else {
        let rest = if tx.len() < capacity {
            tx.push(frames[0])
        } else {
            tx
        };
        transmitted(rest, capacity, frames.drop_first())
    }
}

} // verus!
