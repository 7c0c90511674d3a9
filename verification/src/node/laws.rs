//! What holds of a node whatever it is doing.

use crate::cobid::{parse_cob, NodeId, ParsedCobId};
use crate::heartbeat::{heartbeat_frame, HeartbeatMonitorState};
use crate::nmt::{NmtCommand, NmtState};
use crate::node::model::{
    counted, evicted, extra_for, queued, rpdo_from_od, tpdo_from_od, NodeModel, PRODUCER_HEARTBEAT,
};
use crate::od::{OdContents, OdEvent, OdEventSource};
use crate::queue::push_evicting;
use crate::sdo::server::pdo_config_index;
use crate::transport::FrameView;
use vstd::prelude::*;

verus! {

/// Reading the PDO configuration from the dictionary twice is the same as
/// reading it once.
pub proof fn lemma_pdo_sync_is_idempotent<OD: OdContents>(m: NodeModel<OD>)
    ensures
        m.pdo_synced().pdo_synced() == m.pdo_synced(),
{
    let once = m.pdo_synced();
    let twice = once.pdo_synced();
    assert forall|i: int| 0 <= i < m.tpdo.pdos.len() implies twice.tpdo.pdos[i]
        == once.tpdo.pdos[i] by {
        assert(tpdo_from_od(m.od, once.tpdo.pdos[i], i) == once.tpdo.pdos[i]);
    }
    assert forall|i: int| 0 <= i < m.rpdo.pdos.len() implies twice.rpdo.pdos[i]
        == once.rpdo.pdos[i] by {
        assert(rpdo_from_od(m.od, once.rpdo.pdos[i], i) == once.rpdo.pdos[i]);
    }
    assert(twice.tpdo.pdos =~= once.tpdo.pdos);
    assert(twice.rpdo.pdos =~= once.rpdo.pdos);
}

/// Outside the operational state no PDO is sent or received: SYNC and PDO
/// frames change nothing, and no event-driven PDO goes out.
pub proof fn lemma_no_pdo_outside_operational<OD: OdContents>(
    m: NodeModel<OD>,
    cap: nat,
    frame: FrameView,
    now: u64,
)
    requires
        m.nmt != NmtState::Operational,
        extra_for(m.extra, frame.id, 0) is None,
        parse_cob(frame.id) is Sync || parse_cob(frame.id) is Tpdo || parse_cob(frame.id) is Rpdo,
    ensures
        m.dispatch(cap, frame, now) == m.silent(),
        m.tpdos_polled(now).out == Seq::<FrameView>::empty(),
        m.tpdos_polled(now).node.tpdo == m.tpdo,
{
    reveal(NodeModel::dispatch);
}

/// After a reset the first frame that the node sends is its boot-up message,
/// and it is pre-operational then, or operational if it starts by itself.
pub proof fn lemma_reset_then_boot<OD: OdContents>(
    m: NodeModel<OD>,
    cap: nat,
    frames: Seq<FrameView>,
    now: u64,
)
    ensures
        m.local_reset().nmt == NmtState::Initializing,
        m.local_reset().round(cap, frames, now).out.len() > 0,
        m.local_reset().round(cap, frames, now).out[0] == heartbeat_frame(
            m.heartbeat.node,
            NmtState::Initializing,
        ),
        m.local_reset().boot(now).node.nmt == (if m.auto_start {
            NmtState::Operational
        } else {
            NmtState::PreOperational
        }),
        m.local_reset().boot(now).node.booted,
{
}

/// A reset commanded by the master does what one requested by the application
/// does, unless the node is initializing already.
pub proof fn lemma_commanded_reset_is_local_reset<OD: OdContents>(
    m: NodeModel<OD>,
    data: Seq<u8>,
)
    requires
        data.len() >= 2,
        NmtCommand::from_byte(data[0]) == Some(NmtCommand::ResetNode) || NmtCommand::from_byte(
            data[0],
        ) == Some(NmtCommand::ResetCommunication),
        data[1] == 0 || data[1] == m.node.raw(),
        m.nmt != NmtState::Initializing,
    ensures
        m.commanded(data) == m.local_reset(),
{
}

/// A reset ends every SDO transfer, and restarts every heartbeat monitor.
pub proof fn lemma_reset_forgets<OD: OdContents>(m: NodeModel<OD>, i: int)
    ensures
        m.local_reset().sdo.transfer is None,
        0 <= i < m.extra.len() ==> m.local_reset().extra[i].server.transfer is None,
        0 <= i < 8 ==> (m.local_reset().monitors[i] matches Some(h) ==> h.state
            == HeartbeatMonitorState::Waiting),
        m.local_reset().od == m.od,
{
}

/// The SDO servers of a node are independent: a request to one leaves the
/// transfers of the others alone.
pub proof fn lemma_sdo_servers_are_independent<OD: OdContents>(
    m: NodeModel<OD>,
    cap: nat,
    i: int,
    j: int,
    data: Seq<u8>,
    now: u64,
)
    requires
        0 <= i < m.extra.len(),
        0 <= j < m.extra.len(),
        i != j,
    ensures
        m.default_sdo(cap, data, now).node.extra == m.extra,
        m.extra_sdo(i, cap, data, now).node.sdo == m.sdo,
        m.extra_sdo(i, cap, data, now).node.extra[j] == m.extra[j],
{
    reveal(NodeModel::default_sdo);
    reveal(NodeModel::extra_sdo);
}

/// An SDO write to a PDO parameter or to a heartbeat time takes effect at once,
/// whatever the event queue holds: afterwards the services run with what the
/// dictionary says.
pub proof fn lemma_config_write_takes_effect<OD: OdContents>(
    m: NodeModel<OD>,
    cap: nat,
    data: Seq<u8>,
    now: u64,
)
    requires
        data.len() >= 8,
        m.sdo.step(m.od, m.events, cap, data, m.nmt, now).server.committed is Some,
    ensures
        ({
            let after = m.default_sdo(cap, data, now).node;
            let index = (m.sdo.step(
                m.od,
                m.events,
                cap,
                data,
                m.nmt,
                now,
            ).server.committed->0).0;
            &&& pdo_config_index(index) ==> after.pdo_synced() == after
            &&& index == PRODUCER_HEARTBEAT ==> after.heartbeat.interval_ms
                == after.heartbeat_synced(true).heartbeat.interval_ms
        }),
{
    reveal(NodeModel::default_sdo);
    let st = m.sdo.step(m.od, m.events, cap, data, m.nmt, now);
    let index = (st.server.committed->0).0;
    let after = NodeModel {
        od: st.od,
        events: st.events,
        sdo: crate::sdo::server::ServerModel { committed: None, ..st.server },
        ..m
    };
    lemma_pdo_sync_is_idempotent(after);
    let more = NodeModel { dropped: counted(after.dropped, 1), ..after };
    lemma_pdo_sync_is_idempotent(more);
}

/// A request to the SDO server of another node is ignored.
pub proof fn lemma_foreign_sdo_is_ignored<OD: OdContents>(
    m: NodeModel<OD>,
    cap: nat,
    frame: FrameView,
    other: NodeId,
    now: u64,
)
    requires
        parse_cob(frame.id) == ParsedCobId::SdoRequest(other),
        other != m.node,
        extra_for(m.extra, frame.id, 0) is None,
    ensures
        m.dispatch(cap, frame, now) == m.silent(),
{
    reveal(NodeModel::dispatch);
}

/// Announcing a change twice is the same as announcing it once.
pub proof fn lemma_notification_is_idempotent<OD: OdContents>(
    m: NodeModel<OD>,
    cap: nat,
    entry: (u16, u8),
)
    ensures
        m.notified(cap, entry).notified(cap, entry) == m.notified(cap, entry),
{
    if !m.dirty.contains(entry) && m.dirty.len() < cap {
        assert(m.dirty.push(entry)[m.dirty.len() as int] == entry);
    }
}

/// Outside the operational state the reception deadlines of PDOs are not
/// monitored: no event is queued, and monitoring starts anew with the first
/// frame that is received afterwards.
pub proof fn lemma_deadlines_rest_outside_operational<OD: OdContents>(
    m: NodeModel<OD>,
    cap: nat,
    now: u64,
    later: u64,
    i: int,
)
    requires
        m.nmt != NmtState::Operational,
        0 <= i < m.rpdo.pdos.len(),
    ensures
        m.deadlines_checked(cap, now).events == m.events,
        m.deadlines_checked(cap, now).rpdo.pdos == m.rpdo.pdos,
        !m.deadlines_checked(cap, now).rpdo.newly_expired(i, later),
{
}

/// An SDO request that writes an object queues an event, and counts the event
/// that it pushes out of a full queue. Any other request leaves the queue and
/// the count as they were.
pub proof fn lemma_lost_events_are_counted<OD: OdContents>(
    m: NodeModel<OD>,
    cap: nat,
    data: Seq<u8>,
    now: u64,
)
    requires
        m.sdo.committed is None,
        m.events.len() <= cap,
        data.len() == 8,
    ensures
        ({
            let after = m.default_sdo(cap, data, now).node;
            match m.sdo.step(m.od, m.events, cap, data, m.nmt, now).server.committed {
                None => after.events == m.events && after.dropped == m.dropped,
                Some((index, subindex)) => {
                    &&& after.events == push_evicting(
                        m.events,
                        cap,
                        OdEvent { index, subindex, source: OdEventSource::Sdo },
                    )
                    &&& after.dropped == counted(
                        m.dropped,
                        if m.events.len() == cap {
                            1
                        } else {
                            0
                        },
                    )
                },
            }
        }),
{
    reveal(NodeModel::default_sdo);
}

/// Every event is queued, or an event was evicted for it and counted.
pub proof fn lemma_events_are_queued_or_counted<T>(items: Seq<T>, capacity: nat, more: Seq<T>)
    requires
        items.len() <= capacity,
    ensures
        queued(items, capacity, more).len() <= capacity,
        queued(items, capacity, more).len() + evicted(items, capacity, more) == items.len()
            + more.len(),
    decreases more.len(),
{
    if more.len() > 0 {
        lemma_events_are_queued_or_counted(items, capacity, more.drop_last());
    }
}

} // verus!
