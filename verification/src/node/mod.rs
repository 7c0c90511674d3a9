//! A CANopen node: NMT, SDO servers, PDO engines, heartbeat, emergency messages
//! and LSS tied together.

use crate::bytes::{bit, padded, u32_to_le};
use crate::cobid::{CobId, NodeId, ParsedCobId};
use crate::emcy::{EmcyModel, EmcyProducer};
use crate::heartbeat::{
    buffered_events, event_at, event_queue_len, events_added, new_event_buf, new_event_queue,
    pop_front_event, push_evicting_event, queued_events, HeartbeatEvent, HeartbeatMonitor,
    HeartbeatMonitorState, HeartbeatProducer, HeartbeatQueue, MonitorModel,
};
use crate::lss::{LssIdentity, LssSlave, LSS_REQUEST_COB};
use crate::nmt::{NmtCommand, NmtHandler, NmtState, NmtTransition};
use crate::node::model::{
    all_framed, cob_id_entry, consumer_entry, counted, deadline_events, evicted, extra_aborts,
    extra_for, extra_segments, framed, mapping_entries, mapping_record, monitor_of, queued,
    read_u16, read_u8, record_index, rpdo_from_od, timeouts, tpdo_from_od, transmitted,
    with_rpdo_cob_ids, with_tpdo_cob_ids, ExtraModel, NodeModel, HB_EVENT_QUEUE,
    MAX_HEARTBEAT_MONITORS, PRODUCER_HEARTBEAT, RPDO_COMM, RPDO_MAPPING, TPDO_COMM, TPDO_MAPPING,
};
use crate::od::{ObjectDictionary, OdChanges, OdContents, OdEvent, OdEventSource};
use crate::pdo::config::{
    heapless_vec_new, heapless_vec_push, mapped, mapping_at, mapping_count, rpdo_views, tpdo_views,
    PdoConfigSource, PdoMapping, PdoMappings, PdoNumber, RpdoConfig, TpdoConfig, TpdoView,
};
use crate::pdo::engine::{raw_numbers, RpdoEngine, RpdoModel, TpdoEngine, TpdoModel};
use crate::queue::{push_evicting, BoundedQueue};
use crate::sdo::config::{SdoServerConfig, SdoServerConfigSource};
use crate::sdo::server::{
    hb_entry_node, hb_entry_time, is_pdo_config_index, read_entry_u32, SdoServer, ServerModel,
    CONSUMER_HEARTBEAT,
};
use crate::time::Clock;
use crate::transport::{frame_views, CanFrame, FrameView, MailboxModel, MailboxTransport};
use vstd::prelude::*;

pub mod laws;
pub mod model;
pub mod service_laws;

verus! {

/// Type of reset requested via `Node::request_reset`.
#[derive(Clone, Copy, Debug, PartialEq, Eq, Structural)]
pub enum ResetType {
    /// Full reset: re-initialize all application and communication parameters.
    Application,
    /// Communication-only reset: re-initialize PDO config, heartbeat, etc.
    /// Application data in the OD is preserved.
    Communication,
}

/// Configuration for creating a Node.
///
/// `SDO` is the number of *additional* SDO servers (0x1201+); the default
/// server (0x1200) is always present and not counted here.
pub struct NodeConfig<const TPDO: usize, const RPDO: usize, const SDO: usize> {
    pub node_id: NodeId,
    /// Producer heartbeat interval in ms (0 = disabled). Fallback only: if
    /// the OD declares 0x1017 (Producer heartbeat time), that entry is the
    /// source of truth: its value wins at init, and SDO writes to it change
    /// the runtime period.
    pub heartbeat_interval_ms: u16,
    /// If true, the node transitions directly to Operational after boot,
    /// without waiting for an NMT Start command from a master.
    pub auto_start: bool,
    pub tpdo: [TpdoConfig; TPDO],
    pub rpdo: [RpdoConfig; RPDO],
    /// Additional SDO servers (0x1201+), resolved COB-IDs.
    pub sdo_servers: [SdoServerConfig; SDO],
    /// LSS identity (0x1018). Set to default if LSS is not needed.
    pub identity: LssIdentity,
}

/// The COB-IDs of a server are those of no other.
pub open spec fn disjoint(a: SdoServerConfig, b: SdoServerConfig) -> bool {
    a.cob_rx != b.cob_rx && a.cob_rx != b.cob_tx && a.cob_tx != b.cob_rx && a.cob_tx != b.cob_tx
}

/// The COB-IDs of the default SDO server of a node.
pub open spec fn default_server(node: NodeId) -> SdoServerConfig {
    SdoServerConfig {
        cob_rx: (0x600 + node.raw()) as u16,
        cob_tx: (0x580 + node.raw()) as u16,
    }
}

/// The COB-IDs of additional SDO servers are non-zero, distinct from each
/// other, and distinct from those of the default server.
pub open spec fn sdo_cob_ids_unique(node: NodeId, servers: Seq<SdoServerConfig>) -> bool {
    &&& forall|i: int|
        0 <= i < servers.len() ==> {
            let s = #[trigger] servers[i];
            s.cob_rx != 0 && s.cob_tx != 0 && s.cob_rx != s.cob_tx && disjoint(
                s,
                default_server(node),
            )
        }
    &&& forall|i: int, j: int| 0 <= i < j < servers.len() ==> disjoint(servers[i], servers[j])
}

impl<const TPDO: usize, const RPDO: usize, const SDO: usize> NodeConfig<TPDO, RPDO, SDO> {
    /// Build a config with PDO and additional-SDO-server settings pulled from
    /// the OD and defaults for the rest: heartbeat every 1000 ms, no
    /// auto-start, default LSS identity.
    pub fn from_od<S>(od: &S, node_id: NodeId) -> (r: Self) where
        S: PdoConfigSource<TPDO, RPDO> + SdoServerConfigSource<SDO>,

        ensures
            r.node_id == node_id,
            r.heartbeat_interval_ms == 1000,
            !r.auto_start,
            tpdo_views(r.tpdo@) == od.declared_tpdos(node_id),
            rpdo_views(r.rpdo@) == od.declared_rpdos(node_id),
            r.sdo_servers@ == od.declared_sdo_servers(node_id),
            r.identity == (LssIdentity { vendor_id: 0, product_code: 0, revision: 0, serial: 0 }),
    {
        NodeConfig {
            node_id,
            heartbeat_interval_ms: 1000,
            auto_start: false,
            tpdo: od.tpdo_configs(node_id),
            rpdo: od.rpdo_configs(node_id),
            sdo_servers: od.sdo_server_configs(node_id),
            identity: LssIdentity::default(),
        }
    }

    /// Whether the COB-IDs of the additional SDO servers are non-zero, distinct
    /// from each other, and distinct from the default SDO server's
    /// `0x600/0x580 + node_id`.
    pub fn extra_sdo_cob_ids_are_unique(&self) -> (r: bool)
        ensures
            r == sdo_cob_ids_unique(self.node_id, self.sdo_servers@),
    {
        let default = SdoServerConfig {
            cob_rx: CobId::sdo_rx(self.node_id).raw(),
            cob_tx: CobId::sdo_tx(self.node_id).raw(),
        };
        assert(default == default_server(self.node_id));
        let ghost all = self.sdo_servers@;
        let mut i: usize = 0;
        while i < SDO
            invariant
                i <= SDO,
                all == self.sdo_servers@,
                all.len() == SDO,
                default == default_server(self.node_id),
                forall|a: int|
                    0 <= a < i ==> {
                        let s = #[trigger] all[a];
                        s.cob_rx != 0 && s.cob_tx != 0 && s.cob_rx != s.cob_tx && disjoint(
                            s,
                            default,
                        )
                    },
                forall|a: int, b: int| 0 <= a < i && a < b < SDO ==> disjoint(all[a], all[b]),
            decreases SDO - i,
        {
            let s = self.sdo_servers[i];
            assert(s == all[i as int]);
            if s.cob_rx == 0 || s.cob_tx == 0 || s.cob_rx == s.cob_tx || !are_disjoint(s, default) {
                return false;
            }
            let mut j: usize = i + 1;
            while j < SDO
                invariant
                    i < j <= SDO,
                    all == self.sdo_servers@,
                    all.len() == SDO,
                    s == all[i as int],
                    forall|b: int| i < b < j ==> disjoint(s, #[trigger] all[b]),
                decreases SDO - j,
            {
                if !are_disjoint(s, self.sdo_servers[j]) {
                    assert(!disjoint(all[i as int], all[j as int]));
                    return false;
                }
                j += 1;
            }
            i += 1;
        }
        true
    }
}

fn are_disjoint(a: SdoServerConfig, b: SdoServerConfig) -> (r: bool)
    ensures
        r == disjoint(a, b),
{
    a.cob_rx != b.cob_rx && a.cob_rx != b.cob_tx && a.cob_tx != b.cob_rx && a.cob_tx != b.cob_tx
}

/// An additional SDO server with its COB-IDs.
pub struct ExtraSdo {
    server: SdoServer,
    rx: u16,
    tx: u16,
}

impl View for ExtraSdo {
    type V = ExtraModel;

    closed spec fn view(&self) -> ExtraModel {
        ExtraModel { server: self.server@, rx: self.rx, tx: self.tx }
    }
}

/// The state of additional servers, one by one.
pub open spec fn extra_views(extra: Seq<ExtraSdo>) -> Seq<ExtraModel> {
    extra.map_values(|e: ExtraSdo| e@)
}

/// The state of additional servers that have not served yet.
pub open spec fn fresh_extras(servers: Seq<SdoServerConfig>) -> Seq<ExtraModel> {
    servers.map_values(
        |s: SdoServerConfig|
            ExtraModel {
                server: ServerModel { transfer: None, committed: None },
                rx: s.cob_rx,
                tx: s.cob_tx,
            },
    )
}

/// The state of monitors, one by one.
pub open spec fn monitor_views(monitors: Seq<Option<HeartbeatMonitor>>) -> Seq<
    Option<MonitorModel>,
> {
    monitors.map_values(
        |m: Option<HeartbeatMonitor>|
            match m {
                Some(h) => Some(h@),
                None => None,
            },
    )
}

/// A CANopen node. Ties together NMT, SDO server, PDO engines, and heartbeat.
///
/// Generic over the object dictionary type, PDO counts, number of additional
/// SDO servers, event queue size, and dirty set size.
pub struct Node<
    OD: ObjectDictionary,
    const TPDO: usize,
    const RPDO: usize,
    const SDO: usize,
    const EVT_QUEUE: usize,
    const DIRTY_SET: usize,
> {
    node_id: NodeId,
    od: OD,
    nmt: NmtHandler,
    sdo_server: SdoServer,
    /// Additional SDO servers (0x1201+), each an independent transfer state
    /// machine.
    extra_sdo: Vec<ExtraSdo>,
    tpdo: TpdoEngine<TPDO>,
    rpdo: RpdoEngine<RPDO>,
    heartbeat: HeartbeatProducer,
    hb_monitors: [Option<HeartbeatMonitor>; 8],
    hb_event_queue: HeartbeatQueue,
    emcy: EmcyProducer,
    lss: LssSlave,
    booted: bool,
    auto_start: bool,
    event_queue: BoundedQueue<OdEvent, EVT_QUEUE>,
    dirty_set: Vec<(u16, u8)>,
    event_overflow_count: u32,
}

impl<
    OD: ObjectDictionary,
    const TPDO: usize,
    const RPDO: usize,
    const SDO: usize,
    const EVT_QUEUE: usize,
    const DIRTY_SET: usize,
> View for Node<OD, TPDO, RPDO, SDO, EVT_QUEUE, DIRTY_SET> {
    type V = NodeModel<OD::Contents>;

    closed spec fn view(&self) -> NodeModel<OD::Contents> {
        NodeModel {
            node: self.node_id,
            od: self.od.contents(),
            nmt: self.nmt@,
            sdo: self.sdo_server@,
            extra: extra_views(self.extra_sdo@),
            tpdo: self.tpdo@,
            rpdo: self.rpdo@,
            heartbeat: self.heartbeat@,
            monitors: monitor_views(self.hb_monitors@),
            hb_events: queued_events(self.hb_event_queue),
            emcy: self.emcy@,
            lss: self.lss@,
            booted: self.booted,
            auto_start: self.auto_start,
            events: self.event_queue@,
            dirty: self.dirty_set@,
            dropped: self.event_overflow_count,
        }
    }
}

// ---- Reading configuration ----

/// Read a two-byte entry, short entries being filled up with zeros.
fn read_entry_u16<OD: ObjectDictionary>(od: &OD, index: u16, subindex: u8) -> (r: Option<u16>)
    ensures
        r == read_u16(od.contents(), index, subindex),
{
    let mut buf: [u8; 2] = [0u8; 2];
    match od.read(index, subindex, &mut buf) {
        Ok(n) => {
            assert(buf@ =~= padded(buf@.take(n as int), 2)) by {
                assert forall|i: int| n <= i < 2 implies buf@[i] == 0 by {
                    assert(buf@.skip(n as int)[i - n] == 0);
                }
            }
            Some(buf[0] as u16 + 0x100 * buf[1] as u16)
        },
        Err(_) => None,
    }
}

fn read_entry_u8<OD: ObjectDictionary>(od: &OD, index: u16, subindex: u8) -> (r: Option<u8>)
    ensures
        r == read_u8(od.contents(), index, subindex),
{
    match read_entry_u32(od, index, subindex) {
        Some(v) => Some((v % 256) as u8),
        None => None,
    }
}

/// The index of a PDO's record.
fn pdo_record_index(base: u16, od_number: u16, slot: usize) -> (r: u16)
    ensures
        r == record_index(base, od_number, slot as int),
{
    let offset: u16 = if od_number == 0 {
        (slot % 0x1_0000) as u16
    } else {
        od_number - 1
    };
    base.wrapping_add(offset)
}

/// Read the mappings in a mapping record.
fn read_mapping_record<OD: ObjectDictionary>(od: &OD, index: u16) -> (r: PdoMappings)
    ensures
        mapped(r) == mapping_record(od.contents(), index),
{
    let mut list = heapless_vec_new();
    let count: u8 = match read_entry_u8(od, index, 0) {
        Some(c) => if c < 64 {
            c
        } else {
            64
        },
        None => 0,
    };
    let mut sub: u8 = 0;
    while sub < count
        invariant
            sub <= count <= 64,
            mapped(list) == mapping_entries(od.contents(), index, sub as int),
            mapped(list).len() <= sub,
        decreases count - sub,
    {
        sub += 1;
        if let Some(v) = read_entry_u32(od, index, sub) {
            let _ = heapless_vec_push(&mut list, PdoMapping::from_mapping_value(v));
        }
    }
    list
}

/// Read the configuration of a transmit PDO.
fn read_tpdo<OD: ObjectDictionary>(od: &OD, p: &TpdoConfig, slot: usize) -> (r: TpdoConfig)
    ensures
        r@ == tpdo_from_od(od.contents(), p@, slot as int),
{
    let comm: u16 = pdo_record_index(TPDO_COMM, p.od_number, slot);
    let map: u16 = pdo_record_index(TPDO_MAPPING, p.od_number, slot);
    let mut c = TpdoConfig {
        od_number: p.od_number,
        cob_id: p.cob_id,
        transmission_type: p.transmission_type,
        inhibit_time_100us: p.inhibit_time_100us,
        event_timer_ms: p.event_timer_ms,
        mappings: read_mapping_record(od, map),
        enabled: p.enabled,
    };
    if let Some(raw) = read_entry_u32(od, comm, 1) {
        c.enabled = raw < 0x8000_0000 && raw % 0x800 != 0;
        c.cob_id = (raw % 0x800) as u16;
    }
    if let Some(v) = read_entry_u8(od, comm, 2) {
        c.transmission_type = v;
    }
    if let Some(v) = read_entry_u16(od, comm, 3) {
        c.inhibit_time_100us = v;
    }
    if let Some(v) = read_entry_u16(od, comm, 5) {
        c.event_timer_ms = v;
    }
    c
}

/// Read the configuration of a receive PDO.
fn read_rpdo<OD: ObjectDictionary>(od: &OD, p: &RpdoConfig, slot: usize) -> (r: RpdoConfig)
    ensures
        r@ == rpdo_from_od(od.contents(), p@, slot as int),
{
    let comm: u16 = pdo_record_index(RPDO_COMM, p.od_number, slot);
    let map: u16 = pdo_record_index(RPDO_MAPPING, p.od_number, slot);
    let mut c = RpdoConfig {
        od_number: p.od_number,
        cob_id: p.cob_id,
        transmission_type: p.transmission_type,
        deadline_ms: p.deadline_ms,
        mappings: read_mapping_record(od, map),
        enabled: p.enabled,
    };
    if let Some(raw) = read_entry_u32(od, comm, 1) {
        c.enabled = raw < 0x8000_0000 && raw % 0x800 != 0;
        c.cob_id = (raw % 0x800) as u16;
    }
    if let Some(v) = read_entry_u8(od, comm, 2) {
        c.transmission_type = v;
    }
    if let Some(v) = read_entry_u16(od, comm, 5) {
        c.deadline_ms = v;
    }
    c
}

/// Read which node a 0x1016 entry asks to monitor, and for how long.
fn read_consumer_entry<OD: ObjectDictionary>(od: &OD, subindex: u8) -> (r: Option<(NodeId, u16)>)
    ensures
        r == consumer_entry(od.contents(), subindex),
{
    broadcast use {
        crate::cobid::lemma_node_id_of_raw,
        crate::cobid::lemma_node_id_raw_of,
    };

    match read_entry_u32(od, CONSUMER_HEARTBEAT, subindex) {
        Some(raw) => {
            let time: u16 = (raw % 0x1_0000) as u16;
            let node: u8 = (raw / 0x1_0000 % 0x100) as u8;
            assert(time == hb_entry_time(raw));
            assert(node == hb_entry_node(raw));
            if time == 0 {
                return None;
            }
            match NodeId::new(node) {
                Some(n) => Some((n, time)),
                None => None,
            }
        },
        None => None,
    }
}

/// Append a frame, if its COB-ID has 11 bits.
fn push_framed(out: &mut Vec<CanFrame>, id: u16, data: &[u8; 8])
    ensures
        frame_views(final(out)@) == frame_views(old(out)@) + framed(id, data@),
{
    match CanFrame::new(id, data.as_slice()) {
        Some(f) => {
            out.push(f);
            assert(frame_views(out@) =~= frame_views(old(out)@) + framed(id, data@));
        },
        None => {
            assert(frame_views(out@) =~= frame_views(old(out)@) + framed(id, data@));
        },
    }
}

// ---- Lemmas on queues ----

/// Events queued one after the other are events queued together.
proof fn lemma_queued_push<T>(items: Seq<T>, capacity: nat, more: Seq<T>, e: T)
    ensures
        queued(items, capacity, more.push(e)) == push_evicting(
            queued(items, capacity, more),
            capacity,
            e,
        ),
        evicted(items, capacity, more.push(e)) == evicted(items, capacity, more) + (if queued(
            items,
            capacity,
            more,
        ).len() == capacity {
            1int
        } else {
            0int
        }),
{
    assert(more.push(e).drop_last() =~= more);
}

proof fn lemma_evicted_not_negative<T>(items: Seq<T>, capacity: nat, more: Seq<T>)
    ensures
        evicted(items, capacity, more) >= 0,
    decreases more.len(),
{
    if more.len() > 0 {
        lemma_evicted_not_negative(items, capacity, more.drop_last());
    }
}

impl<
    OD: ObjectDictionary,
    const TPDO: usize,
    const RPDO: usize,
    const SDO: usize,
    const EVT_QUEUE: usize,
    const DIRTY_SET: usize,
> Node<OD, TPDO, RPDO, SDO, EVT_QUEUE, DIRTY_SET> {
    /// Create a node.
    ///
    /// The COB-IDs of additional SDO servers have to be unique: colliding ones
    /// would make the dispatcher steal frames from the default server or answer
    /// on the wrong COB-ID. `NodeConfig::extra_sdo_cob_ids_are_unique` tells.
    pub fn new(config: NodeConfig<TPDO, RPDO, SDO>, od: OD) -> (r: Self)
        requires
            sdo_cob_ids_unique(config.node_id, config.sdo_servers@),
        ensures
            r@ == NodeModel::fresh(
                config.node_id,
                config.heartbeat_interval_ms,
                config.auto_start,
                tpdo_views(config.tpdo@),
                rpdo_views(config.rpdo@),
                fresh_extras(config.sdo_servers@),
                config.identity,
                od.contents(),
            ),
    {
        let ghost servers = config.sdo_servers@;
        let mut extra_sdo: Vec<ExtraSdo> = Vec::new();
        let mut i: usize = 0;
        while i < SDO
            invariant
                i <= SDO,
                servers == config.sdo_servers@,
                servers.len() == SDO,
                extra_views(extra_sdo@) == fresh_extras(servers.take(i as int)),
            decreases SDO - i,
        {
            let ghost before = extra_sdo@;
            let s = config.sdo_servers[i];
            let e = ExtraSdo { server: SdoServer::new(), rx: s.cob_rx, tx: s.cob_tx };
            extra_sdo.push(e);
            i += 1;
            assert(servers.take(i as int) =~= servers.take(i - 1).push(s));
            assert(extra_views(extra_sdo@) =~= extra_views(before).push(e@));
            assert(extra_views(extra_sdo@) =~= fresh_extras(servers.take(i as int)));
        }
        assert(servers.take(SDO as int) =~= servers);
        let mut node = Node {
            node_id: config.node_id,
            od,
            nmt: NmtHandler::new(),
            sdo_server: SdoServer::new(),
            extra_sdo,
            tpdo: TpdoEngine::new(config.tpdo),
            rpdo: RpdoEngine::new(config.rpdo),
            heartbeat: HeartbeatProducer::new(config.node_id, config.heartbeat_interval_ms),
            hb_monitors: [None, None, None, None, None, None, None, None],
            hb_event_queue: new_event_queue(),
            emcy: EmcyProducer::new(config.node_id),
            lss: LssSlave::new(config.identity, config.node_id.raw()),
            booted: false,
            auto_start: config.auto_start,
            event_queue: BoundedQueue::new(),
            dirty_set: Vec::new(),
            event_overflow_count: 0,
        };
        assert(node@.monitors =~= Seq::new(MAX_HEARTBEAT_MONITORS as nat, |i: int| None));
        node.write_pdo_cob_ids_to_od();
        node.od.store_sdo_server_cob_ids(config.node_id);
        node.sync_heartbeat_from_od(false);
        node
    }

    /// Re-read heartbeat configuration from the OD: producer heartbeat time
    /// (0x1017) and consumer heartbeat entries (0x1016). If the OD has no
    /// 0x1017 entry, the configured interval stays in effect.
    ///
    /// With `preserve_monitor_state`, monitors whose 0x1016 entry is
    /// unchanged keep their runtime state. Without it, every monitor
    /// restarts in `Waiting`.
    fn sync_heartbeat_from_od(&mut self, preserve_monitor_state: bool)
        ensures
            final(self)@ == old(self)@.heartbeat_synced(preserve_monitor_state),
    {
        let ghost m = self@;
        if let Some(ms) = read_entry_u16(&self.od, PRODUCER_HEARTBEAT, 0) {
            self.heartbeat.set_interval_ms(ms);
        }
        let ghost goal = m.heartbeat_synced(preserve_monitor_state);
        let mut slot: usize = 0;
        while slot < MAX_HEARTBEAT_MONITORS
            invariant
                slot <= MAX_HEARTBEAT_MONITORS,
                goal == m.heartbeat_synced(preserve_monitor_state),
                self@.heartbeat == goal.heartbeat,
                self@ == (NodeModel {
                    heartbeat: self@.heartbeat,
                    monitors: self@.monitors,
                    ..m
                }),
                m.monitors.len() == 8,
                forall|j: int| 0 <= j < slot ==> self@.monitors[j] == goal.monitors[j],
                forall|j: int| slot <= j < 8 ==> self@.monitors[j] == m.monitors[j],
            decreases MAX_HEARTBEAT_MONITORS - slot,
        {
            let existing = self.hb_monitors[slot];
            assert(self@.monitors[slot as int] == m.monitors[slot as int]);
            let configured = read_consumer_entry(&self.od, slot as u8 + 1);
            let updated: Option<HeartbeatMonitor> = match (configured, existing) {
                (Some((node, time)), Some(e)) => if preserve_monitor_state && e.node_id() == node
                    && e.timeout_ms() == time {
                    Some(e)
                } else {
                    Some(HeartbeatMonitor::new(node, time))
                },
                (Some((node, time)), None) => Some(HeartbeatMonitor::new(node, time)),
                (None, _) => None,
            };
            self.hb_monitors[slot] = updated;
            assert(self@.monitors[slot as int] == goal.monitors[slot as int]);
            slot += 1;
        }
        assert(self@ =~= goal);
    }

    /// Current producer heartbeat interval in ms (0 = disabled).
    pub fn heartbeat_interval_ms(&self) -> (r: u16)
        ensures
            r == self@.heartbeat.interval_ms,
    {
        self.heartbeat.interval_ms()
    }

    /// Mirror the resolved PDO COB-IDs into the OD comm-param entries, so that
    /// SDO reads of 0x1400/0x1800 sub 1 return the real COB-ID.
    fn write_pdo_cob_ids_to_od(&mut self)
        ensures
            final(self)@ == (NodeModel {
                od: with_rpdo_cob_ids(
                    with_tpdo_cob_ids(
                        old(self)@.od,
                        old(self)@.tpdo.pdos,
                        old(self)@.tpdo.pdos.len() as int,
                    ),
                    old(self)@.rpdo.pdos,
                    old(self)@.rpdo.pdos.len() as int,
                ),
                ..old(self)@
            }),
    {
        let ghost m = self@;
        proof {
            self.tpdo.lemma_slots();
            self.rpdo.lemma_slots();
        }
        let mut n: usize = 0;
        while n < TPDO
            invariant
                n <= TPDO,
                m.tpdo.pdos.len() == TPDO,
                self@ == (NodeModel { od: with_tpdo_cob_ids(m.od, m.tpdo.pdos, n as int), ..m }),
            decreases TPDO - n,
        {
            let c = self.tpdo.config_slot(n);
            let index: u16 = pdo_record_index(TPDO_COMM, c.od_number, n);
            let raw: u32 = pdo_cob_id_entry(c.cob_id, c.enabled);
            let _ = self.od.write(index, 1, u32_to_le(raw).as_slice());
            n += 1;
        }
        let ghost t = self@;
        let mut n: usize = 0;
        while n < RPDO
            invariant
                n <= RPDO,
                t == (NodeModel {
                    od: with_tpdo_cob_ids(m.od, m.tpdo.pdos, m.tpdo.pdos.len() as int),
                    ..m
                }),
                m.rpdo.pdos.len() == RPDO,
                self@ == (NodeModel { od: with_rpdo_cob_ids(t.od, m.rpdo.pdos, n as int), ..m }),
            decreases RPDO - n,
        {
            let c = self.rpdo.config_slot(n);
            let index: u16 = pdo_record_index(RPDO_COMM, c.od_number, n);
            let raw: u32 = pdo_cob_id_entry(c.cob_id, c.enabled);
            let _ = self.od.write(index, 1, u32_to_le(raw).as_slice());
            n += 1;
        }
    }

    /// Re-read PDO configuration from the OD (entries 0x1400-0x1BFF) and
    /// update the PDO engines. Call after changes to PDO parameter entries.
    pub fn sync_pdo_from_od(&mut self)
        ensures
            final(self)@ == old(self)@.pdo_synced(),
    {
        let ghost m = self@;
        let ghost goal = m.pdo_synced();
        proof {
            self.tpdo.lemma_slots();
            self.rpdo.lemma_slots();
        }
        let mut n: usize = 0;
        while n < TPDO
            invariant
                n <= TPDO,
                goal == m.pdo_synced(),
                m.tpdo.pdos.len() == TPDO,
                self@.tpdo.pdos.len() == TPDO,
                self@ == (NodeModel {
                    tpdo: TpdoModel { pdos: self@.tpdo.pdos, ..m.tpdo },
                    ..m
                }),
                forall|j: int| 0 <= j < n ==> self@.tpdo.pdos[j] == goal.tpdo.pdos[j],
                forall|j: int| n <= j < TPDO ==> self@.tpdo.pdos[j] == m.tpdo.pdos[j],
            decreases TPDO - n,
        {
            let c = read_tpdo(&self.od, self.tpdo.config_slot(n), n);
            assert(c@ == goal.tpdo.pdos[n as int]);
            self.tpdo.set_config_slot(n, c);
            n += 1;
        }
        assert(self@.tpdo.pdos =~= goal.tpdo.pdos);
        let ghost t = self@;
        let mut n: usize = 0;
        while n < RPDO
            invariant
                n <= RPDO,
                goal == m.pdo_synced(),
                t == (NodeModel { tpdo: goal.tpdo, ..m }),
                m.rpdo.pdos.len() == RPDO,
                self@.rpdo.pdos.len() == RPDO,
                self@ == (NodeModel {
                    rpdo: RpdoModel { pdos: self@.rpdo.pdos, ..m.rpdo },
                    ..t
                }),
                forall|j: int| 0 <= j < n ==> self@.rpdo.pdos[j] == goal.rpdo.pdos[j],
                forall|j: int| n <= j < RPDO ==> self@.rpdo.pdos[j] == m.rpdo.pdos[j],
            decreases RPDO - n,
        {
            let c = read_rpdo(&self.od, self.rpdo.config_slot(n), n);
            assert(c@ == goal.rpdo.pdos[n as int]);
            self.rpdo.set_config_slot(n, c);
            n += 1;
        }
        assert(self@.rpdo.pdos =~= goal.rpdo.pdos);
    }

    /// Abort any in-progress transfer on every SDO server (default + extra),
    /// so a stale transfer on one channel cannot outlive a reset.
    fn abort_all_sdo_transfers(&mut self)
        ensures
            final(self)@ == (NodeModel {
                sdo: old(self)@.sdo.with(None),
                extra: Seq::new(
                    old(self)@.extra.len(),
                    |i: int|
                        ExtraModel {
                            server: old(self)@.extra[i].server.with(None),
                            ..old(self)@.extra[i]
                        },
                ),
                ..old(self)@
            }),
    {
        let ghost m = self@;
        self.sdo_server.abort_transfer();
        let mut i: usize = 0;
        while i < self.extra_sdo.len()
            invariant
                i <= self.extra_sdo@.len(),
                self.extra_sdo@.len() == m.extra.len(),
                self@ == (NodeModel { sdo: m.sdo.with(None), extra: self@.extra, ..m }),
                forall|j: int|
                    0 <= j < i ==> self@.extra[j] == (ExtraModel {
                        server: m.extra[j].server.with(None),
                        ..m.extra[j]
                    }),
                forall|j: int| i <= j < m.extra.len() ==> self@.extra[j] == m.extra[j],
            decreases self.extra_sdo@.len() - i,
        {
            let ghost before = self@.extra;
            self.extra_sdo[i].server.abort_transfer();
            assert(self@.extra =~= before.update(
                i as int,
                ExtraModel { server: before[i as int].server.with(None), ..before[i as int] },
            ));
            i += 1;
        }
        assert(self@.extra =~= Seq::new(
            m.extra.len(),
            |i: int| ExtraModel { server: m.extra[i].server.with(None), ..m.extra[i] },
        ));
    }
}

// ---- The application's view ----

/// What the guard on the dictionary compares: the value of an entry in up to 8
/// bytes, nothing if it cannot be read.
pub open spec fn comparable<OD: OdContents>(od: OD, m: PdoMapping) -> Seq<u8> {
    match od.read_result(m.index, m.subindex, 8) {
        Ok(v) => v,
        Err(_) => Seq::empty(),
    }
}

/// The mapped entries that differ between two dictionaries.
pub open spec fn differing<OD: OdContents>(
    before: OD,
    after: OD,
    mappings: Seq<PdoMapping>,
) -> Seq<(u16, u8)>
    decreases mappings.len(),
{
    if mappings.len() == 0 {
        Seq::empty()
    } else {
        let m = mappings.last();
        let front = differing(before, after, mappings.drop_last());
        if comparable(before, m) == comparable(after, m) {
            front
        } else {
            front.push((m.index, m.subindex))
        }
    }
}

/// The entries of the first `n` transmit PDOs that differ between two
/// dictionaries.
pub open spec fn changed_entries<OD: OdContents>(
    before: OD,
    after: OD,
    pdos: Seq<TpdoView>,
    n: int,
) -> Seq<(u16, u8)>
    decreases n,
{
    if n <= 0 {
        Seq::empty()
    } else {
        changed_entries(before, after, pdos, n - 1) + differing(
            before,
            after,
            pdos[n - 1].mappings,
        )
    }
}

/// The most changes that are noticed at once.
pub const MAX_NOTICED_CHANGES: usize = 32;

/// A node after several entries were announced as changed.
pub open spec fn all_notified<OD: OdContents>(
    m: NodeModel<OD>,
    capacity: nat,
    entries: Seq<(u16, u8)>,
) -> NodeModel<OD>
    decreases entries.len(),
{
    if entries.len() == 0 {
        m
    } else {
        all_notified(m, capacity, entries.drop_last()).notified(capacity, entries.last())
    }
}

/// The events from `k` on are skipped until one decodes to a change.
pub open spec fn next_change_at<OD: OdChanges>(od: OD::Contents, events: Seq<OdEvent>, k: int) -> bool {
    &&& 0 <= k <= events.len()
    &&& forall|j: int| 0 <= j < k ==> OD::decodes(od, #[trigger] events[j], None)
}

/// Read an entry for comparison.
fn read_comparable<OD: ObjectDictionary>(od: &OD, m: PdoMapping) -> (r: Vec<u8>)
    ensures
        r@ == comparable(od.contents(), m),
{
    let mut buf: [u8; 8] = [0u8; 8];
    match od.read(m.index, m.subindex, &mut buf) {
        Ok(n) => {
            let r = crate::bytes::to_vec(vstd::slice::slice_subrange(buf.as_slice(), 0, n));
            assert(r@ =~= buf@.take(n as int));
            r
        },
        Err(_) => Vec::new(),
    }
}

fn same_bytes(a: &Vec<u8>, b: &Vec<u8>) -> (r: bool)
    ensures
        r == (a@ == b@),
{
    if a.len() != b.len() {
        return false;
    }
    let mut i: usize = 0;
    while i < a.len()
        invariant
            i <= a@.len(),
            a@.len() == b@.len(),
            forall|j: int| 0 <= j < i ==> a@[j] == b@[j],
        decreases a@.len() - i,
    {
        if a[i] != b[i] {
            return false;
        }
        i += 1;
    }
    assert(a@ =~= b@);
    true
}

impl<
    OD: ObjectDictionary,
    const TPDO: usize,
    const RPDO: usize,
    const SDO: usize,
    const EVT_QUEUE: usize,
    const DIRTY_SET: usize,
> Node<OD, TPDO, RPDO, SDO, EVT_QUEUE, DIRTY_SET> {
    pub fn node_id(&self) -> (r: NodeId)
        ensures
            r == self@.node,
    {
        self.node_id
    }

    pub fn state(&self) -> (r: NmtState)
        ensures
            r == self@.nmt,
    {
        self.nmt.state()
    }

    pub fn od(&self) -> (r: &OD)
        ensures
            r.contents() == self@.od,
    {
        &self.od
    }

    /// Mutable access to the OD.
    ///
    /// To trigger event-driven TPDOs, announce the changes: with
    /// `notify_changed`, or all at once with `notify_differences`.
    pub fn od_mut(&mut self) -> (r: &mut OD)
        ensures
            r.contents() == old(self)@.od,
            final(self)@ == (NodeModel { od: final(r).contents(), ..old(self)@ }),
    {
        &mut self.od
    }

    /// Announce every TPDO-mapped entry whose value differs from the one in
    /// `before`, triggering event-driven TPDOs on the next processing. Returns
    /// whether there were any.
    pub fn notify_differences(&mut self, before: &OD) -> (r: bool)
        ensures
            ({
                let m = old(self)@;
                let all = changed_entries(before.contents(), m.od, m.tpdo.pdos, m.tpdo.pdos.len() as int);
                let noticed = all.take(if all.len() < MAX_NOTICED_CHANGES {
                    all.len() as int
                } else {
                    MAX_NOTICED_CHANGES as int
                });
                &&& final(self)@ == all_notified(m, DIRTY_SET as nat, noticed)
                &&& r == (noticed.len() > 0)
            }),
    {
        let ghost m = self@;
        proof {
            self.tpdo.lemma_slots();
        }
        let mut changed: Vec<(u16, u8)> = Vec::new();
        let mut n: usize = 0;
        while n < TPDO
            invariant
                n <= TPDO,
                self@ == m,
                m.tpdo.pdos.len() == TPDO,
                changed@ == changed_entries(before.contents(), m.od, m.tpdo.pdos, n as int),
            decreases TPDO - n,
        {
            let list = &self.tpdo.config_slot(n).mappings;
            let ghost ms = m.tpdo.pdos[n as int].mappings;
            assert(ms == mapped(*list));
            let ghost front = changed@;
            let count: usize = mapping_count(list);
            let mut k: usize = 0;
            assert(ms.take(0) =~= Seq::<PdoMapping>::empty());
            assert(front + Seq::<(u16, u8)>::empty() =~= front);
            while k < count
                invariant
                    k <= count,
                    count == ms.len(),
                    ms == mapped(*list),
                    self@ == m,
                    self.od.contents() == m.od,
                    changed@ == front + differing(before.contents(), m.od, ms.take(k as int)),
                decreases count - k,
            {
                let mapping = mapping_at(list, k);
                assert(ms.take(k + 1).drop_last() =~= ms.take(k as int));
                let was = read_comparable(before, mapping);
                let is = read_comparable(&self.od, mapping);
                if !same_bytes(&was, &is) {
                    changed.push((mapping.index, mapping.subindex));
                    assert(changed@ =~= front + differing(
                        before.contents(),
                        m.od,
                        ms.take(k as int),
                    ).push((mapping.index, mapping.subindex)));
                }
                k += 1;
            }
            assert(ms.take(count as int) =~= ms);
            n += 1;
        }
        let ghost all = changed@;
        let count: usize = if changed.len() < MAX_NOTICED_CHANGES {
            changed.len()
        } else {
            MAX_NOTICED_CHANGES
        };
        let mut i: usize = 0;
        assert(all.take(0) =~= Seq::<(u16, u8)>::empty());
        while i < count
            invariant
                i <= count <= changed@.len(),
                all == changed@,
                self@ == all_notified(m, DIRTY_SET as nat, all.take(i as int)),
            decreases count - i,
        {
            let entry = changed[i];
            self.notify_changed(entry.0, entry.1);
            assert(all.take(i + 1).drop_last() =~= all.take(i as int));
            i += 1;
        }
        count > 0
    }

    pub fn tpdo_engine(&self) -> (r: &TpdoEngine<TPDO>)
        ensures
            r@ == self@.tpdo,
    {
        &self.tpdo
    }

    pub fn tpdo_engine_mut(&mut self) -> (r: &mut TpdoEngine<TPDO>)
        ensures
            r@ == old(self)@.tpdo,
            final(self)@ == (NodeModel { tpdo: final(r)@, ..old(self)@ }),
    {
        &mut self.tpdo
    }

    pub fn rpdo_engine(&self) -> (r: &RpdoEngine<RPDO>)
        ensures
            r@ == self@.rpdo,
    {
        &self.rpdo
    }

    pub fn rpdo_engine_mut(&mut self) -> (r: &mut RpdoEngine<RPDO>)
        ensures
            r@ == old(self)@.rpdo,
            final(self)@ == (NodeModel { rpdo: final(r)@, ..old(self)@ }),
    {
        &mut self.rpdo
    }

    /// Report an emergency error. Sends an EMCY frame on the next processing
    /// and sets the corresponding bits in the error register.
    ///
    /// `register_bits` should be a combination of `emcy::error_register::*` constants.
    pub fn set_error(&mut self, error_code: u16, register_bits: u8, vendor_data: &[u8])
        ensures
            final(self)@ == (NodeModel {
                emcy: old(self)@.emcy.set(error_code, register_bits, vendor_data@),
                ..old(self)@
            }),
    {
        self.emcy.set_error(error_code, register_bits, vendor_data);
    }

    /// Clear error register bits. If all errors are cleared, sends an
    /// "error reset" EMCY frame (code 0x0000) on the next processing.
    pub fn clear_error(&mut self, register_bits: u8)
        ensures
            final(self)@ == (NodeModel {
                emcy: old(self)@.emcy.clear(register_bits),
                ..old(self)@
            }),
    {
        self.emcy.clear_error(register_bits);
    }

    /// Clear all errors and send an error-reset EMCY.
    pub fn clear_all_errors(&mut self)
        ensures
            final(self)@ == (NodeModel { emcy: old(self)@.emcy.clear_all(), ..old(self)@ }),
    {
        self.emcy.clear_all();
    }

    /// Current error register value (OD 0x1001).
    pub fn error_register(&self) -> (r: u8)
        ensures
            r == self@.emcy.register,
    {
        self.emcy.error_register()
    }

    /// Drain the next OD event from the queue.
    ///
    /// Call this in the main loop after `process()` to react to OD changes
    /// made by the protocol stack (SDO downloads, RPDO writes).
    pub fn next_event(&mut self) -> (r: Option<OdEvent>)
        ensures
            r is Some <==> old(self)@.events.len() > 0,
            r matches Some(e) ==> e == old(self)@.events[0] && final(self)@ == (NodeModel {
                events: old(self)@.events.drop_first(),
                ..old(self)@
            }),
            r is None ==> final(self)@ == old(self)@,
    {
        self.event_queue.pop_front()
    }

    /// Drain the next OD event and decode it into the OD's typed change enum.
    ///
    /// Events without an application-level variant (e.g. writes to
    /// PDO communication parameters) are skipped. The value carried by the
    /// variant is read at drain time, so a burst of writes to the same entry
    /// yields the freshest value.
    pub fn next_change(&mut self) -> (r: Option<OD::Change>) where OD: OdChanges
        ensures
            match r {
                Some(c) => exists|k: int|
                    {
                        &&& #[trigger] next_change_at::<OD>(old(self)@.od, old(self)@.events, k)
                        &&& k < old(self)@.events.len()
                        &&& OD::decodes(old(self)@.od, old(self)@.events[k], Some(c))
                        &&& final(self)@ == (NodeModel {
                            events: old(self)@.events.skip(k + 1),
                            ..old(self)@
                        })
                    },
                None => {
                    let m = old(self)@;
                    &&& next_change_at::<OD>(m.od, m.events, m.events.len() as int)
                    &&& final(self)@ == (NodeModel { events: Seq::empty(), ..m })
                },
            },
    {
        let ghost m = self@;
        let ghost mut k: int = 0;
        assert(m.events.skip(0) =~= m.events);
        assert(next_change_at::<OD>(m.od, m.events, 0));
        loop
            invariant
                m == old(self)@,
                next_change_at::<OD>(m.od, m.events, k),
                self@ == (NodeModel { events: m.events.skip(k), ..m }),
                self.od.contents() == m.od,
            decreases m.events.len() - k,
        {
            match self.event_queue.pop_front() {
                Some(evt) => {
                    assert(m.events.skip(k).drop_first() =~= m.events.skip(k + 1));
                    assert(evt == m.events[k]);
                    match self.od.decode_event(evt) {
                        Some(change) => {
                            assert(next_change_at::<OD>(m.od, m.events, k));
                            return Some(change);
                        },
                        None => {
                            proof {
                                k = k + 1;
                            }
                        },
                    }
                },
                None => {
                    assert(k == m.events.len());
                    assert(m.events.skip(k) =~= Seq::<OdEvent>::empty());
                    return None;
                },
            }
        }
    }

    /// Resolved COB-ID of the TPDO with the given CANopen number
    /// (`PdoNumber::of::<1>()` = TPDO1), if declared. A COB-ID of 0 is a
    /// predefined default not yet resolved, and reported as absent.
    pub fn tpdo_cob_id(&self, number: PdoNumber) -> (r: Option<CobId>)
        ensures
            match (r, self@.tpdo.slot_of(number)) {
                (Some(c), Some(s)) => c.raw() == self@.tpdo.pdos[s].cob_id && c.raw() != 0,
                (Some(_), None) => false,
                (None, Some(s)) => {
                    let id = self@.tpdo.pdos[s].cob_id;
                    id == 0 || id > 0x7FF
                },
                (None, None) => true,
            },
    {
        match self.tpdo.config(number) {
            Some(c) => if c.cob_id != 0 {
                CobId::new(c.cob_id)
            } else {
                None
            },
            None => None,
        }
    }

    /// Resolved COB-ID of the RPDO with the given CANopen number
    /// (`PdoNumber::of::<1>()` = RPDO1), if declared.
    pub fn rpdo_cob_id(&self, number: PdoNumber) -> (r: Option<CobId>)
        ensures
            match (r, self@.rpdo.slot_of(number)) {
                (Some(c), Some(s)) => c.raw() == self@.rpdo.pdos[s].cob_id && c.raw() != 0,
                (Some(_), None) => false,
                (None, Some(s)) => {
                    let id = self@.rpdo.pdos[s].cob_id;
                    id == 0 || id > 0x7FF
                },
                (None, None) => true,
            },
    {
        match self.rpdo.config(number) {
            Some(c) => if c.cob_id != 0 {
                CobId::new(c.cob_id)
            } else {
                None
            },
            None => None,
        }
    }

    /// Does the RPDO with the given CANopen number lack an in-deadline
    /// reception? (`PdoNumber::of::<79>()` = RPDO79, sparse or not.)
    ///
    /// For a monitored RPDO this level query reads `true` whenever the data is
    /// not fresh: initially, before the first frame ever arrives, and again
    /// once the gap since the last frame exceeds the deadline, until the next
    /// reception clears it. Unmonitored or undeclared RPDOs always read
    /// `false`. The mapped OD entries keep their last received values
    /// throughout.
    ///
    /// The stack never sends EMCY automatically: report
    /// `EmcyErrorCode::RpdoTimeout` (0x8250) via `set_error` if the bus should
    /// know.
    pub fn rpdo_deadline_expired(&self, number: PdoNumber) -> (r: bool)
        ensures
            r == (self@.rpdo.slot_of(number) matches Some(s) && self@.rpdo.lacks_data(s)),
    {
        self.rpdo.deadline_expired(number)
    }

    /// Drain the next heartbeat-consumer event (0x1016 monitoring).
    ///
    /// Emitted for monitored nodes: monitoring started, remote NMT state
    /// change, remote reset (boot-up frame), timeout, and recovery. The stack
    /// only reports: reacting is application policy.
    pub fn next_heartbeat_event(&mut self) -> (r: Option<HeartbeatEvent>)
        ensures
            r is Some <==> old(self)@.hb_events.len() > 0,
            r matches Some(e) ==> e == old(self)@.hb_events[0] && final(self)@ == (NodeModel {
                hb_events: old(self)@.hb_events.drop_first(),
                ..old(self)@
            }),
            r is None ==> final(self)@ == old(self)@,
    {
        pop_front_event(&mut self.hb_event_queue)
    }

    /// Level query for a monitored node's heartbeat (0x1016 consumer).
    ///
    /// `Disabled` if no 0x1016 entry monitors that node;
    /// `Waiting` until its first heartbeat arrives; use
    /// `HeartbeatMonitorState::is_alive` as the freshness ("valid") flag.
    pub fn heartbeat_status(&self, node: NodeId) -> (r: HeartbeatMonitorState)
        ensures
            r == self@.monitor_state(node),
    {
        let mut i: usize = 0;
        while i < MAX_HEARTBEAT_MONITORS
            invariant
                i <= MAX_HEARTBEAT_MONITORS,
                self@.monitors.len() == 8,
                monitor_of(self@.monitors, node, 0) == monitor_of(
                    self@.monitors,
                    node,
                    i as int,
                ),
            decreases MAX_HEARTBEAT_MONITORS - i,
        {
            assert(self@.monitors[i as int] == monitor_views(self.hb_monitors@)[i as int]);
            if let Some(m) = self.hb_monitors[i] {
                if m.node_id() == node {
                    return m.state();
                }
            }
            i += 1;
        }
        HeartbeatMonitorState::Disabled
    }

    /// Number of events dropped due to event queue overflow (OD events and
    /// heartbeat-consumer events combined).
    pub fn events_dropped(&self) -> (r: u32)
        ensures
            r == self@.dropped,
    {
        self.event_overflow_count
    }

    /// Whether events wait to be drained.
    pub fn has_events(&self) -> (r: bool)
        ensures
            r == (self@.events.len() > 0 || self@.hb_events.len() > 0),
    {
        !self.event_queue.is_empty() || event_queue_len(&self.hb_event_queue) > 0
    }

    /// Request a CANopen-layer reset from the application.
    ///
    /// This triggers the same reset sequence as an NMT Reset command from an
    /// external master: the node aborts any in-progress SDO transfer, re-syncs
    /// PDO config from the OD, and re-enters Initializing. On the next
    /// processing the boot sequence runs (boot heartbeat, transition to
    /// PreOperational or Operational per `auto_start`).
    pub fn request_reset(&mut self, reset_type: ResetType)
        ensures
            final(self)@ == old(self)@.local_reset(),
    {
        self.reset_communication();
        match reset_type {
            ResetType::Application | ResetType::Communication => {
                self.nmt = NmtHandler::new();
            },
        }
    }

    /// Mark an OD entry as changed by the application.
    ///
    /// On the next processing, if an event-driven TPDO (type 254/255)
    /// maps this entry and the inhibit time has elapsed, the TPDO is sent.
    pub fn notify_changed(&mut self, index: u16, subindex: u8)
        ensures
            final(self)@ == old(self)@.notified(DIRTY_SET as nat, (index, subindex)),
    {
        let mut i: usize = 0;
        while i < self.dirty_set.len()
            invariant
                i <= self.dirty_set@.len(),
                *self == *old(self),
                forall|j: int| 0 <= j < i ==> self.dirty_set@[j] != (index, subindex),
            decreases self.dirty_set@.len() - i,
        {
            if self.dirty_set[i].0 == index && self.dirty_set[i].1 == subindex {
                assert(self@.dirty[i as int] == (index, subindex));
                return ;
            }
            i += 1;
        }
        if self.dirty_set.len() < DIRTY_SET {
            self.dirty_set.push((index, subindex));
        }
    }
}

// ---- Processing ----

impl<
    OD: ObjectDictionary,
    const TPDO: usize,
    const RPDO: usize,
    const SDO: usize,
    const EVT_QUEUE: usize,
    const DIRTY_SET: usize,
> Node<OD, TPDO, RPDO, SDO, EVT_QUEUE, DIRTY_SET> {
    /// Queue a heartbeat-consumer event. A full queue loses its oldest event.
    fn queue_heartbeat_event(&mut self, event: HeartbeatEvent)
        ensures
            final(self)@ == old(self)@.with_hb_events(seq![event]),
    {
        let ghost m = self@;
        proof {
            lemma_queued_push(m.hb_events, HB_EVENT_QUEUE as nat, seq![], event);
            assert(seq![event] =~= Seq::<HeartbeatEvent>::empty().push(event));
            assert(seq![] =~= Seq::<HeartbeatEvent>::empty());
        }
        if push_evicting_event(&mut self.hb_event_queue, event) {
            self.event_overflow_count = self.event_overflow_count.saturating_add(1);
        }
    }

    /// Queue a dictionary event. A full queue loses its oldest event.
    fn queue_event(&mut self, event: OdEvent)
        ensures
            final(self)@ == old(self)@.with_events(EVT_QUEUE as nat, seq![event]),
    {
        let ghost m = self@;
        proof {
            lemma_queued_push(m.events, EVT_QUEUE as nat, seq![], event);
            assert(seq![event] =~= Seq::<OdEvent>::empty().push(event));
            assert(seq![] =~= Seq::<OdEvent>::empty());
        }
        if self.event_queue.push_evicting(event) {
            self.event_overflow_count = self.event_overflow_count.saturating_add(1);
        }
    }

    /// Process an SDO request against the default server (0x1200) and append
    /// the response on that server's tx COB-ID. All servers share the OD, event
    /// queue, and config-resync path; only the transfer state machine and
    /// COB-IDs differ.
    fn handle_default_sdo(&mut self, frame: &CanFrame, out: &mut Vec<CanFrame>, now: u64)
        ensures
            ({
                let st = old(self)@.default_sdo(EVT_QUEUE as nat, frame@.data, now);
                &&& final(self)@ == st.node
                &&& frame_views(final(out)@) == frame_views(old(out)@) + st.out
            }),
    {
        proof {
            reveal(NodeModel::default_sdo);
        }
        assert(frame_views(out@) + Seq::<FrameView>::empty() =~= frame_views(out@));
        if frame.raw_dlc() < 8 {
            return ;
        }
        let req: [u8; 8] = payload(frame);
        let mut resp: [u8; 8] = [0u8; 8];
        let state = self.nmt.state();
        let was_full = self.event_queue.is_full();
        let ok = self.sdo_server.process(
            &req,
            &mut self.od,
            &mut resp,
            &mut self.event_queue,
            state,
            now,
        ).is_ok();
        if ok {
            push_framed(out, CobId::sdo_tx(self.node_id).raw(), &resp);
        }
        let committed = self.sdo_server.take_committed_write();
        self.after_sdo(was_full, committed);
    }

    /// Process an SDO request against an additional server (0x1201+).
    fn handle_extra_sdo(&mut self, i: usize, frame: &CanFrame, out: &mut Vec<CanFrame>, now: u64)
        requires
            i < old(self)@.extra.len(),
        ensures
            ({
                let st = old(self)@.extra_sdo(i as int, EVT_QUEUE as nat, frame@.data, now);
                &&& final(self)@ == st.node
                &&& frame_views(final(out)@) == frame_views(old(out)@) + st.out
            }),
    {
        proof {
            reveal(NodeModel::extra_sdo);
        }
        assert(frame_views(out@) + Seq::<FrameView>::empty() =~= frame_views(out@));
        if frame.raw_dlc() < 8 {
            return ;
        }
        let ghost m = self@;
        let req: [u8; 8] = payload(frame);
        let mut resp: [u8; 8] = [0u8; 8];
        let state = self.nmt.state();
        let was_full = self.event_queue.is_full();
        assert(m.extra[i as int] == self.extra_sdo@[i as int]@);
        let ok = self.extra_sdo[i].server.process(
            &req,
            &mut self.od,
            &mut resp,
            &mut self.event_queue,
            state,
            now,
        ).is_ok();
        if ok {
            push_framed(out, self.extra_sdo[i].tx, &resp);
        }
        let committed = self.extra_sdo[i].server.take_committed_write();
        proof {
            let e = m.extra[i as int];
            let st = e.server.step(m.od, m.events, EVT_QUEUE as nat, frame@.data, m.nmt, now);
            assert(self@.extra =~= m.extra.update(
                i as int,
                ExtraModel { server: ServerModel { committed: None, ..st.server }, ..e },
            ));
        }
        self.after_sdo(was_full, committed);
    }

    /// Resync runtime services whose config lives in the OD. Signalled
    /// directly by the SDO server rather than via the event queue: an
    /// overflowing queue must not be able to swallow a config change.
    fn after_sdo(&mut self, was_full: bool, committed: Option<(u16, u8)>)
        ensures
            final(self)@ == old(self)@.sdo_committed(was_full, committed),
    {
        if was_full && committed.is_some() {
            self.event_overflow_count = self.event_overflow_count.saturating_add(1);
        }
        if let Some((index, _)) = committed {
            if is_pdo_config_index(index) {
                self.sync_pdo_from_od();
            } else if index == CONSUMER_HEARTBEAT || index == PRODUCER_HEARTBEAT {
                self.sync_heartbeat_from_od(true);
            }
        }
    }

    fn handle_nmt(&mut self, data: &[u8])
        ensures
            final(self)@ == old(self)@.commanded(data@),
    {
        if data.len() < 2 {
            return ;
        }
        if let Some(cmd) = NmtCommand::from_byte(data[0]) {
            match self.nmt.process_command(cmd, data[1], self.node_id) {
                NmtTransition::ResetApplication | NmtTransition::ResetCommunication => {
                    self.reset_communication();
                },
                _ => {},
            }
        }
    }

    fn reset_communication(&mut self)
        ensures
            final(self)@ == old(self)@.communication_reset(),
    {
        self.booted = false;
        self.abort_all_sdo_transfers();
        self.sync_pdo_from_od();
        self.sync_heartbeat_from_od(false);
    }

    fn handle_heartbeat(&mut self, remote: NodeId, state_byte: u8, now: u64)
        ensures
            final(self)@ == old(self)@.heard(remote, state_byte, now),
    {
        let ghost m = self@;
        let mut i: usize = 0;
        while i < MAX_HEARTBEAT_MONITORS
            invariant
                i <= MAX_HEARTBEAT_MONITORS,
                self@ == m,
                m.monitors.len() == 8,
                m == old(self)@,
                monitor_of(m.monitors, remote, 0) == monitor_of(m.monitors, remote, i as int),
            decreases MAX_HEARTBEAT_MONITORS - i,
        {
            assert(m.monitors[i as int] == monitor_views(self.hb_monitors@)[i as int]);
            if let Some(monitor) = self.hb_monitors[i] {
                let mut monitor = monitor;
                let ghost was = monitor@;
                let mut events = new_event_buf();
                // 0x1016 validation rejects duplicate node ids, so at most one
                // monitor matches.
                if monitor.process(remote, state_byte, now, &mut events) {
                    self.hb_monitors[i] = Some(monitor);
                    proof {
                        lemma_buffer_holds_all(was.reported(remote, state_byte));
                        assert(self@.monitors =~= m.monitors.update(i as int, Some(monitor@)));
                    }
                    let ghost evs = buffered_events(events);
                    let ghost base = self@;
                    assert(evs.take(0) =~= Seq::<HeartbeatEvent>::empty());
                    assert(base.with_hb_events(Seq::empty()) =~= base);
                    let mut k: usize = 0;
                    while k < 2
                        invariant
                            k <= 2,
                            evs == buffered_events(events),
                            evs.len() <= 2,
                            self@ == base.with_hb_events(
                                evs.take(if k < evs.len() {
                                    k as int
                                } else {
                                    evs.len() as int
                                }),
                            ),
                        decreases 2 - k,
                    {
                        if let Some(e) = event_at(&events, k) {
                            self.queue_heartbeat_event(e);
                            proof {
                                lemma_hb_events_push(base, evs.take(k as int), e);
                                assert(evs.take(k + 1) =~= evs.take(k as int).push(e));
                            }
                        }
                        k += 1;
                    }
                    assert(evs.take(evs.len() as int) =~= evs);
                    return ;
                }
            }
            i += 1;
        }
    }
}

impl<
    OD: ObjectDictionary,
    const TPDO: usize,
    const RPDO: usize,
    const SDO: usize,
    const EVT_QUEUE: usize,
    const DIRTY_SET: usize,
> Node<OD, TPDO, RPDO, SDO, EVT_QUEUE, DIRTY_SET> {
    /// Run the boot sequence if it is due. Appends the frames to send.
    pub fn boot(&mut self, now: u64, out: &mut Vec<CanFrame>)
        ensures
            final(self)@ == old(self)@.boot(now).node,
            frame_views(final(out)@) == frame_views(old(out)@) + old(self)@.boot(now).out,
    {
        assert(frame_views(out@) + Seq::<FrameView>::empty() =~= frame_views(out@));
        if !self.booted {
            self.booted = true;
            let boot_frame = self.heartbeat.send_boot(now);
            out.push(boot_frame);
            assert(frame_views(out@) =~= frame_views(old(out)@) + seq![boot_frame@]);
            self.nmt.boot_complete();
            if self.auto_start {
                let _ = self.nmt.process_command(NmtCommand::StartRemoteNode, 0, self.node_id);
            }
        }
    }

    /// The additional SDO server that receives requests on a COB-ID.
    fn find_extra(&self, id: u16) -> (r: Option<usize>)
        ensures
            match r {
                Some(i) => extra_for(self@.extra, id, 0) == Some(i as int) && i < self@.extra.len(),
                None => extra_for(self@.extra, id, 0) is None,
            },
    {
        let ghost extra = self@.extra;
        let mut i: usize = 0;
        while i < self.extra_sdo.len()
            invariant
                i <= self.extra_sdo@.len(),
                extra == self@.extra,
                self.extra_sdo@.len() == extra.len(),
                extra_for(extra, id, 0) == extra_for(extra, id, i as int),
            decreases self.extra_sdo@.len() - i,
        {
            assert(extra[i as int] == self.extra_sdo@[i as int]@);
            if self.extra_sdo[i].rx == id {
                return Some(i);
            }
            i += 1;
        }
        None
    }

    /// Handle a received frame. Appends the frames to send.
    pub fn dispatch_frame(&mut self, frame: &CanFrame, out: &mut Vec<CanFrame>, now: u64)
        ensures
            ({
                let st = old(self)@.dispatch(EVT_QUEUE as nat, frame@, now);
                &&& final(self)@ == st.node
                &&& frame_views(final(out)@) == frame_views(old(out)@) + st.out
            }),
    {
        proof {
            reveal(NodeModel::dispatch);
        }
        assert(frame_views(out@) + Seq::<FrameView>::empty() =~= frame_views(out@));
        let cob = match CobId::new(frame.raw_id()) {
            Some(c) => c,
            None => {
                return ;
            },
        };
        // Additional SDO servers (0x1201+) match by their configured rx COB-ID,
        // which is arbitrary and need not fall in the default SDO request range.
        // Check them first; the default server is handled in the parse below.
        if let Some(i) = self.find_extra(frame.raw_id()) {
            self.handle_extra_sdo(i, frame, out, now);
            return ;
        }
        match cob.parse() {
            ParsedCobId::Nmt => {
                self.handle_nmt(frame.data());
            },
            ParsedCobId::SdoRequest(node) => {
                if node == self.node_id {
                    self.handle_default_sdo(frame, out, now);
                }
            },
            ParsedCobId::Sync => {
                if self.nmt.state() == NmtState::Operational {
                    self.tpdo.on_sync(&self.od, out);
                }
            },
            ParsedCobId::Rpdo { .. } | ParsedCobId::Tpdo { .. } => {
                // The RPDO engine matches on COB-ID, wherever it lies.
                if self.nmt.state() == NmtState::Operational {
                    let (_, dropped) = self.rpdo.process_with_drop_count(
                        frame,
                        &mut self.od,
                        &mut self.event_queue,
                        now,
                    );
                    self.event_overflow_count = self.event_overflow_count.saturating_add(dropped);
                }
            },
            ParsedCobId::Heartbeat(remote) => {
                if frame.raw_dlc() >= 1 {
                    self.handle_heartbeat(remote, frame.data()[0], now);
                }
            },
            _ => {
                // LSS has fixed COB-IDs outside the standard scheme.
                if frame.raw_id() == LSS_REQUEST_COB {
                    if let Some(resp) = self.lss.process(frame) {
                        out.push(resp);
                        assert(frame_views(out@) =~= frame_views(old(out)@) + seq![resp@]);
                    }
                }
            },
        }
    }

    /// Abort stale SDO transfers (default + extra servers).
    fn run_sdo_timeouts(&mut self, now: u64, out: &mut Vec<CanFrame>)
        ensures
            final(self)@ == old(self)@.sdo_timeouts(now).node,
            frame_views(final(out)@) == frame_views(old(out)@) + old(self)@.sdo_timeouts(now).out,
    {
        let ghost m = self@;
        let ghost before = frame_views(out@);
        assert(before + Seq::<FrameView>::empty() =~= before);
        if let Some(abort) = self.sdo_server.check_timeout(now) {
            push_framed(out, CobId::sdo_tx(self.node_id).raw(), &abort);
        }
        let ghost first = frame_views(out@);
        assert(first + Seq::<FrameView>::empty() =~= first);
        let ghost goal = m.sdo_timeouts(now).node;
        let mut i: usize = 0;
        while i < self.extra_sdo.len()
            invariant
                i <= self.extra_sdo@.len(),
                self.extra_sdo@.len() == m.extra.len(),
                goal == m.sdo_timeouts(now).node,
                self@ == (NodeModel { sdo: goal.sdo, extra: self@.extra, ..m }),
                forall|j: int| 0 <= j < i ==> self@.extra[j] == goal.extra[j],
                forall|j: int| i <= j < m.extra.len() ==> self@.extra[j] == m.extra[j],
                frame_views(out@) == first + extra_aborts(m.extra, now, i as int),
            decreases self.extra_sdo@.len() - i,
        {
            let ghost so_far = self@.extra;
            let ghost sent = frame_views(out@);
            let ghost e = so_far[i as int];
            assert(e == self.extra_sdo@[i as int]@);
            if let Some(abort) = self.extra_sdo[i].server.check_timeout(now) {
                push_framed(out, self.extra_sdo[i].tx, &abort);
                assert(frame_views(out@) =~= first + (extra_aborts(m.extra, now, i as int)
                    + framed(e.tx, abort@)));
            }
            assert(self@.extra =~= so_far.update(
                i as int,
                ExtraModel { server: e.server.timeout(now).0, ..e },
            ));
            i += 1;
        }
        assert(self@.extra =~= goal.extra);
        assert(frame_views(out@) =~= before + m.sdo_timeouts(now).out);
    }

    /// Send all pending emergency messages: burst errors queue several.
    fn send_emcy(&mut self, out: &mut Vec<CanFrame>)
        ensures
            final(self)@ == old(self)@.emcy_sent().node,
            frame_views(final(out)@) == frame_views(old(out)@) + old(self)@.emcy_sent().out,
    {
        let ghost m = self@;
        let ghost goal = frame_views(out@) + m.emcy.pending;
        let mut done = false;
        while !done
            invariant
                self@ == (NodeModel {
                    emcy: EmcyModel { pending: self@.emcy.pending, ..m.emcy },
                    ..m
                }),
                frame_views(out@) + self@.emcy.pending == goal,
                done ==> self@.emcy.pending.len() == 0,
            decreases self@.emcy.pending.len(), bit(!done),
        {
            let ghost sent = out@;
            let ghost left = self@.emcy.pending;
            match self.emcy.take_pending() {
                Some(frame) => {
                    out.push(frame);
                    assert(frame_views(out@) =~= frame_views(sent).push(frame@));
                    assert(frame_views(out@) + left.drop_first() =~= frame_views(sent) + left);
                },
                None => {
                    done = true;
                },
            }
        }
        assert(self@.emcy.pending =~= Seq::<FrameView>::empty());
        assert(frame_views(out@) =~= goal);
    }

    /// Send the pending sub-block segments of block uploads (default + extra).
    fn run_sdo_segments(&mut self, now: u64, out: &mut Vec<CanFrame>)
        ensures
            final(self)@ == old(self)@.sdo_segments(now).node,
            frame_views(final(out)@) == frame_views(old(out)@) + old(self)@.sdo_segments(now).out,
    {
        let ghost m = self@;
        let ghost before = frame_views(out@);
        send_segments(&mut self.sdo_server, CobId::sdo_tx(self.node_id).raw(), now, out);
        let ghost first = frame_views(out@);
        assert(first + Seq::<FrameView>::empty() =~= first);
        let ghost goal = m.sdo_segments(now).node;
        let mut i: usize = 0;
        while i < self.extra_sdo.len()
            invariant
                i <= self.extra_sdo@.len(),
                self.extra_sdo@.len() == m.extra.len(),
                goal == m.sdo_segments(now).node,
                self@ == (NodeModel { sdo: goal.sdo, extra: self@.extra, ..m }),
                forall|j: int| 0 <= j < i ==> self@.extra[j] == goal.extra[j],
                forall|j: int| i <= j < m.extra.len() ==> self@.extra[j] == m.extra[j],
                frame_views(out@) == first + extra_segments(m.extra, now, i as int),
            decreases self.extra_sdo@.len() - i,
        {
            let ghost so_far = self@.extra;
            let ghost e = so_far[i as int];
            assert(e == self.extra_sdo@[i as int]@);
            let tx: u16 = self.extra_sdo[i].tx;
            send_segments(&mut self.extra_sdo[i].server, tx, now, out);
            assert(frame_views(out@) =~= first + (extra_segments(m.extra, now, i as int)
                + all_framed(e.tx, e.server.drain(now).1)));
            assert(self@.extra =~= so_far.update(
                i as int,
                ExtraModel { server: e.server.drain(now).0, ..e },
            ));
            i += 1;
        }
        assert(self@.extra =~= goal.extra);
        assert(frame_views(out@) =~= before + m.sdo_segments(now).out);
    }

    /// RPDO deadline monitoring (CiA 301 event timer, comm param sub 5).
    /// Only meaningful in Operational: outside it, PDO traffic legitimately
    /// stops, so the monitoring state is discarded and re-arms on the first
    /// reception after returning to Operational.
    fn run_deadlines(&mut self, now: u64)
        ensures
            final(self)@ == old(self)@.deadlines_checked(EVT_QUEUE as nat, now),
    {
        let ghost m = self@;
        proof {
            self.rpdo.lemma_slots();
        }
        if self.nmt.state() == NmtState::Operational {
            let mut expired: Vec<PdoNumber> = Vec::new();
            assert(raw_numbers(expired@) =~= Seq::<int>::empty());
            self.rpdo.check_deadlines(now, &mut expired);
            let ghost base = self@;
            let ghost numbers = m.rpdo.expired_numbers(now, RPDO as int);
            assert(raw_numbers(expired@) =~= numbers);
            let ghost evs = deadline_events(numbers);
            assert(evs.take(0) =~= Seq::<OdEvent>::empty());
            assert(base.with_events(EVT_QUEUE as nat, Seq::empty()) =~= base);
            let mut k: usize = 0;
            while k < expired.len()
                invariant
                    k <= expired@.len(),
                    evs == deadline_events(raw_numbers(expired@)),
                    evs.len() == expired@.len(),
                    self@ == base.with_events(EVT_QUEUE as nat, evs.take(k as int)),
                decreases expired@.len() - k,
            {
                let number = expired[k];
                let event = OdEvent {
                    index: RPDO_COMM + number.od_offset(),
                    subindex: 0,
                    source: OdEventSource::RpdoDeadline,
                };
                assert(raw_numbers(expired@)[k as int] == number.raw());
                assert(event == evs[k as int]);
                self.queue_event(event);
                proof {
                    lemma_events_push(base, EVT_QUEUE as nat, evs.take(k as int), event);
                    assert(evs.take(k + 1) =~= evs.take(k as int).push(event));
                }
                k += 1;
            }
            assert(evs.take(evs.len() as int) =~= evs);
        } else {
            self.rpdo.reset_deadline_monitoring();
        }
    }

    /// Heartbeat consumer timeouts (0x1016). Unlike RPDO deadlines this is
    /// not gated on Operational: error control stays active in every
    /// post-boot NMT state.
    fn run_monitors(&mut self, now: u64)
        ensures
            final(self)@ == old(self)@.monitors_checked(now),
    {
        let ghost m = self@;
        let ghost goal = m.monitors_checked(now);
        assert(m.with_hb_events(Seq::empty()) =~= m);
        let mut i: usize = 0;
        while i < MAX_HEARTBEAT_MONITORS
            invariant
                i <= MAX_HEARTBEAT_MONITORS,
                goal == m.monitors_checked(now),
                m.monitors.len() == 8,
                self@ == m.with_hb_events(timeouts(m.monitors, now, i as int)).with_monitors(
                    self@.monitors,
                ),
                forall|j: int| 0 <= j < i ==> self@.monitors[j] == goal.monitors[j],
                forall|j: int| i <= j < 8 ==> self@.monitors[j] == m.monitors[j],
            decreases MAX_HEARTBEAT_MONITORS - i,
        {
            let ghost so_far = self@.monitors;
            assert(so_far[i as int] == monitor_views(self.hb_monitors@)[i as int]);
            if let Some(monitor) = self.hb_monitors[i] {
                let mut monitor = monitor;
                let timeout = monitor.check_timeout(now);
                self.hb_monitors[i] = Some(monitor);
                assert(self@.monitors =~= so_far.update(i as int, Some(monitor@)));
                if let Some(event) = timeout {
                    proof {
                        lemma_hb_events_push(m, timeouts(m.monitors, now, i as int), event);
                    }
                    self.queue_heartbeat_event(event);
                }
            }
            i += 1;
        }
        assert(self@.monitors =~= goal.monitors);
    }

    /// Do the periodic work. Appends the frames to send: SDO aborts and block
    /// segments, heartbeat, emergency message and event-driven TPDOs.
    pub fn run_services(&mut self, now: u64, out: &mut Vec<CanFrame>)
        ensures
            ({
                let st = old(self)@.services(EVT_QUEUE as nat, now);
                &&& final(self)@ == st.node
                &&& frame_views(final(out)@) == frame_views(old(out)@) + st.out
            }),
    {
        proof {
            reveal(NodeModel::services);
        }
        let ghost m = self@;
        let ghost o0 = frame_views(out@);
        self.run_sdo_timeouts(now, out);
        let ghost a = m.sdo_timeouts(now);
        self.run_sdo_segments(now, out);
        let ghost b = a.node.sdo_segments(now);
        self.run_deadlines(now);
        let ghost c = b.node.deadlines_checked(EVT_QUEUE as nat, now).heartbeat_polled(now);
        let ghost o2 = frame_views(out@);
        assert(o2 =~= o0 + a.out + b.out);
        if let Some(hb) = self.heartbeat.poll(now, self.nmt.state()) {
            out.push(hb);
        }
        assert(self@ == c.node);
        assert(frame_views(out@) =~= o2 + c.out);
        self.run_monitors(now);
        let ghost d = c.node.monitors_checked(now).emcy_sent();
        let ghost o3 = frame_views(out@);
        self.send_emcy(out);
        assert(self@ == d.node);
        assert(frame_views(out@) =~= o3 + d.out);
        let ghost e = d.node.tpdos_polled(now);
        let ghost o4 = frame_views(out@);
        if self.nmt.state() == NmtState::Operational {
            self.tpdo.poll(&self.od, now, self.dirty_set.as_slice(), out);
        }
        self.dirty_set.clear();
        assert(self@ == e.node);
        assert(frame_views(out@) =~= o4 + e.out);
        assert(frame_views(out@) =~= o0 + (a.out + b.out + c.out + d.out + e.out));
    }

    /// Take all received frames from the transport and dispatch them. Appends
    /// the frames to send.
    #[verifier::spinoff_prover]
    fn dispatch_received<const TX: usize, const RX: usize>(
        &mut self,
        transport: &mut MailboxTransport<TX, RX>,
        out: &mut Vec<CanFrame>,
        now: u64,
    )
        ensures
            ({
                let st = old(self)@.dispatch_all(EVT_QUEUE as nat, old(transport)@.rx, now);
                &&& final(self)@ == st.node
                &&& frame_views(final(out)@) == frame_views(old(out)@) + st.out
                &&& final(transport)@ == (MailboxModel { rx: Seq::empty(), ..old(transport)@ })
            }),
    {
        let ghost cap = EVT_QUEUE as nat;
        let ghost all = self@.dispatch_all(cap, transport@.rx, now);
        let ghost start = frame_views(out@);
        let mut done = false;
        while !done
            invariant
                cap == EVT_QUEUE,
                transport@.tx == old(transport)@.tx,
                all.node == self@.dispatch_all(cap, transport@.rx, now).node,
                start + all.out == frame_views(out@) + self@.dispatch_all(
                    cap,
                    transport@.rx,
                    now,
                ).out,
                done ==> transport@.rx.len() == 0,
            decreases transport@.rx.len(), bit(!done),
        {
            let ghost here = self@;
            let ghost left = transport@.rx;
            let ghost sent = frame_views(out@);
            match transport.receive() {
                Some(frame) => {
                    self.dispatch_frame(&frame, out, now);
                    proof {
                        let first = here.dispatch(cap, left[0], now);
                        let rest = first.node.dispatch_all(cap, left.drop_first(), now);
                        assert(sent + (first.out + rest.out) =~= frame_views(out@) + rest.out);
                    }
                },
                None => {
                    done = true;
                },
            }
        }
        assert(transport@.rx =~= Seq::<FrameView>::empty());
        assert(frame_views(out@) + Seq::<FrameView>::empty() =~= frame_views(out@));
    }

    /// One round of processing at a given time: takes all received frames from
    /// the transport, handles protocol logic, and queues outgoing frames
    /// (heartbeat, PDO, SDO responses). Frames for which the transport has no
    /// room are lost.
    pub fn process_at<const TX: usize, const RX: usize>(
        &mut self,
        transport: &mut MailboxTransport<TX, RX>,
        now: u64,
    )
        ensures
            ({
                let st = old(self)@.round(EVT_QUEUE as nat, old(transport)@.rx, now);
                &&& final(self)@ == st.node
                &&& final(transport)@ == (MailboxModel {
                    rx: Seq::empty(),
                    tx: transmitted(old(transport)@.tx, TX as nat, st.out),
                })
            }),
    {
        let ghost m = self@;
        let ghost cap = EVT_QUEUE as nat;
        let ghost rx = transport@.rx;
        let mut out: Vec<CanFrame> = Vec::new();
        assert(frame_views(out@) =~= Seq::<FrameView>::empty());
        self.boot(now, &mut out);
        self.dispatch_received(transport, &mut out, now);
        self.run_services(now, &mut out);
        assert(frame_views(out@) =~= m.round(cap, rx, now).out);
        transmit_all(transport, &out);
    }

    /// Main processing function. Call this periodically (e.g., every 1ms).
    ///
    /// Does one round of processing at the time that the clock shows.
    pub fn process<const TX: usize, const RX: usize, C: Clock>(
        &mut self,
        transport: &mut MailboxTransport<TX, RX>,
        clock: &C,
    )
        ensures
            exists|now: u64|
                {
                    let st = #[trigger] old(self)@.round(
                        EVT_QUEUE as nat,
                        old(transport)@.rx,
                        now,
                    );
                    &&& call_ensures(C::now_us, (clock,), now)
                    &&& final(self)@ == st.node
                    &&& final(transport)@ == (MailboxModel {
                        rx: Seq::empty(),
                        tx: transmitted(old(transport)@.tx, TX as nat, st.out),
                    })
                },
    {
        let now: u64 = clock.now_us();
        self.process_at(transport, now);
    }
}

/// Queue frames for sending. Those for which there is no room are lost.
fn transmit_all<const TX: usize, const RX: usize>(
    transport: &mut MailboxTransport<TX, RX>,
    frames: &Vec<CanFrame>,
)
    ensures
        final(transport)@ == (MailboxModel {
            tx: transmitted(old(transport)@.tx, TX as nat, frame_views(frames@)),
            ..old(transport)@
        }),
{
    let ghost all = frame_views(frames@);
    let mut i: usize = 0;
    assert(all.skip(0) =~= all);
    while i < frames.len()
        invariant
            i <= frames@.len(),
            all == frame_views(frames@),
            transport@.rx == old(transport)@.rx,
            transmitted(old(transport)@.tx, TX as nat, all) == transmitted(
                transport@.tx,
                TX as nat,
                all.skip(i as int),
            ),
        decreases frames@.len() - i,
    {
        assert(all.skip(i as int).drop_first() =~= all.skip(i + 1));
        let _ = transport.transmit(&frames[i]);
        i += 1;
    }
}

/// Send all block segments of a server that are due.
fn send_segments(server: &mut SdoServer, tx: u16, now: u64, out: &mut Vec<CanFrame>)
    ensures
        final(server)@ == old(server)@.drain(now).0,
        frame_views(final(out)@) == frame_views(old(out)@) + all_framed(
            tx,
            old(server)@.drain(now).1,
        ),
{
    let ghost first = server@;
    let ghost before = frame_views(out@);
    let mut done = false;
    while !done
        invariant
            first.drain(now).0 == server@.drain(now).0,
            before + all_framed(tx, first.drain(now).1) == frame_views(out@) + all_framed(
                tx,
                server@.drain(now).1,
            ),
            done ==> server@.poll(now).1 is None && server@.poll(now).0 == server@,
        decreases server@.due_segments(), bit(!done),
    {
        let ghost here = server@;
        let ghost sent = frame_views(out@);
        match server.poll_block_upload(now) {
            Some(segment) => {
                push_framed(out, tx, &segment);
                proof {
                    let (end, more) = server@.drain(now);
                    assert((seq![segment@] + more).skip(1) =~= more);
                    assert(sent + (framed(tx, segment@) + all_framed(tx, more))
                        =~= frame_views(out@) + all_framed(tx, more));
                }
            },
            None => {
                done = true;
            },
        }
    }
    assert(frame_views(out@) + Seq::<FrameView>::empty() =~= frame_views(out@));
}

/// The payload of a full frame.
fn payload(frame: &CanFrame) -> (r: [u8; 8])
    requires
        frame@.data.len() >= 8,
    ensures
        r@ == frame@.data,
{
    let d = frame.data();
    let r: [u8; 8] = [d[0], d[1], d[2], d[3], d[4], d[5], d[6], d[7]];
    assert(r@ =~= frame@.data);
    r
}

/// A heartbeat never reports more events than the buffer holds.
proof fn lemma_buffer_holds_all(events: Seq<HeartbeatEvent>)
    requires
        events.len() <= 2,
    ensures
        events_added(Seq::empty(), events) == events,
{
    reveal_with_fuel(events_added, 3);
    assert(events_added(Seq::empty(), events) =~= events);
}

/// Heartbeat events queued one after the other.
proof fn lemma_hb_events_push<OD: OdContents>(
    m: NodeModel<OD>,
    more: Seq<HeartbeatEvent>,
    e: HeartbeatEvent,
)
    ensures
        m.with_hb_events(more).with_hb_events(seq![e]) == m.with_hb_events(more.push(e)),
{
    let cap = HB_EVENT_QUEUE as nat;
    lemma_queued_push(m.hb_events, cap, more, e);
    lemma_queued_push(queued(m.hb_events, cap, more), cap, seq![], e);
    assert(seq![e] =~= Seq::<HeartbeatEvent>::empty().push(e));
    assert(seq![] =~= Seq::<HeartbeatEvent>::empty());
    lemma_evicted_not_negative(m.hb_events, cap, more);
}

/// Dictionary events queued one after the other.
proof fn lemma_events_push<OD: OdContents>(
    m: NodeModel<OD>,
    cap: nat,
    more: Seq<OdEvent>,
    e: OdEvent,
)
    ensures
        m.with_events(cap, more).with_events(cap, seq![e]) == m.with_events(cap, more.push(e)),
{
    lemma_queued_push(m.events, cap, more, e);
    lemma_queued_push(queued(m.events, cap, more), cap, seq![], e);
    assert(seq![e] =~= Seq::<OdEvent>::empty().push(e));
    assert(seq![] =~= Seq::<OdEvent>::empty());
    lemma_evicted_not_negative(m.events, cap, more);
}

/// The COB-ID entry of a PDO: bit 31 says that it is disabled.
fn pdo_cob_id_entry(cob_id: u16, enabled: bool) -> (r: u32)
    ensures
        r == cob_id_entry(cob_id, enabled),
{
    if enabled {
        cob_id as u32
    } else {
        0x8000_0000 + cob_id as u32
    }
}

} // verus!
