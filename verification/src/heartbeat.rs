//! Heartbeat production and consumption.

use crate::cobid::{CobId, NodeId};
use crate::nmt::NmtState;
use crate::queue::push_evicting;
use crate::time::elapsed_us;
use crate::transport::{CanFrame, FrameView};
use vstd::prelude::*;

verus! {

/// The heartbeat frame of a node.
pub open spec fn heartbeat_frame(node: NodeId, state: NmtState) -> FrameView {
    FrameView { id: (0x700 + node.raw()) as u16, data: seq![state.heartbeat_byte()] }
}

/// The state of a heartbeat producer.
#[verifier::ext_equal]
pub struct ProducerModel {
    pub node: NodeId,
    pub interval_ms: u16,
    pub last_sent_us: u64,
}

impl ProducerModel {
    /// A heartbeat is due: production is enabled and the interval has passed.
    pub open spec fn due(self, now: u64) -> bool {
        self.interval_ms != 0 && elapsed_us(now, self.last_sent_us) >= self.interval_ms * 1000
    }

    /// The producer after sending a frame.
    pub open spec fn sent(self, now: u64) -> ProducerModel {
        ProducerModel { last_sent_us: now, ..self }
    }
}

/// Heartbeat producer. Generates heartbeat frames at a configurable interval.
pub struct HeartbeatProducer {
    node_id: NodeId,
    interval_ms: u16,
    last_sent_us: u64,
}

impl View for HeartbeatProducer {
    type V = ProducerModel;

    closed spec fn view(&self) -> ProducerModel {
        ProducerModel {
            node: self.node_id,
            interval_ms: self.interval_ms,
            last_sent_us: self.last_sent_us,
        }
    }
}

impl HeartbeatProducer {
    pub fn new(node_id: NodeId, interval_ms: u16) -> (r: Self)
        ensures
            r@ == (ProducerModel { node: node_id, interval_ms, last_sent_us: 0 }),
    {
        HeartbeatProducer { node_id, interval_ms, last_sent_us: 0 }
    }

    /// Set the heartbeat interval. 0 disables heartbeat.
    pub fn set_interval_ms(&mut self, ms: u16)
        ensures
            final(self)@ == (ProducerModel { interval_ms: ms, ..old(self)@ }),
    {
        self.interval_ms = ms;
    }

    pub fn interval_ms(&self) -> (r: u16)
        ensures
            r == self@.interval_ms,
    {
        self.interval_ms
    }

    /// Check if a heartbeat is due. Returns the frame to send, if any.
    pub fn poll(&mut self, now_us: u64, state: NmtState) -> (r: Option<CanFrame>)
        ensures
            r is Some <==> old(self)@.due(now_us),
            r matches Some(f) ==> f@ == heartbeat_frame(old(self)@.node, state),
            final(self)@ == (if old(self)@.due(now_us) {
                old(self)@.sent(now_us)
            } else {
                old(self)@
            }),
    {
        if self.interval_ms == 0 {
            return None;
        }
        if now_us.wrapping_sub(self.last_sent_us) >= self.interval_ms as u64 * 1000 {
            self.last_sent_us = now_us;
            Some(self.frame(state))
        } else {
            None
        }
    }

    /// Force sending a heartbeat immediately (e.g., on boot).
    pub fn send_boot(&mut self, now_us: u64) -> (r: CanFrame)
        ensures
            r@ == heartbeat_frame(old(self)@.node, NmtState::Initializing),
            final(self)@ == old(self)@.sent(now_us),
    {
        self.last_sent_us = now_us;
        self.frame(NmtState::Initializing)
    }

    fn frame(&self, state: NmtState) -> (r: CanFrame)
        ensures
            r@ == heartbeat_frame(self@.node, state),
    {
        let data: [u8; 1] = [state.heartbeat_byte()];
        assert(data@ =~= seq![state.heartbeat_byte()]);
        CanFrame::new(CobId::heartbeat(self.node_id).raw(), data.as_slice()).unwrap()
    }
}

/// After a heartbeat was sent, the next one is not due before the interval
/// has passed, and is due as soon as it has; with interval 0 none ever is.
pub proof fn lemma_heartbeat_interval(m: ProducerModel, sent_at: u64, now: u64)
    requires
        sent_at <= now,
    ensures
        m.sent(sent_at).due(now) <==> m.interval_ms != 0 && now - sent_at >= m.interval_ms * 1000,
{
}

/// Lifecycle state of one monitored heartbeat producer (0x1016 entry).
///
/// Monitoring starts with the first heartbeat (or boot-up) frame from the
/// producer, per CiA 301: a configured-but-never-seen node is `Waiting`, not
/// failed. `Timeout` means the node *was* alive and then went silent.
#[derive(Clone, Copy, Debug, PartialEq, Eq, Structural)]
pub enum HeartbeatMonitorState {
    /// Not monitored: no matching 0x1016 entry, or its consumer time is 0.
    Disabled,
    /// Configured, but no heartbeat/boot-up seen yet. No timeout can fire.
    Waiting,
    /// Last heartbeat is within the consumer time.
    Alive { nmt_state: NmtState, last_seen_us: u64 },
    /// Was alive, then the consumer time elapsed without a heartbeat.
    Timeout { last_nmt_state: NmtState, last_seen_us: u64, timed_out_us: u64 },
}

impl HeartbeatMonitorState {
    /// The "valid" flag: heartbeat seen and fresh.
    pub fn is_alive(&self) -> (r: bool)
        ensures
            r == (self is Alive),
    {
        match self {
            HeartbeatMonitorState::Alive { .. } => true,
            _ => false,
        }
    }
}

/// Typed heartbeat-consumer event.
///
/// The stack only reports; operational consequences (EMCY, state changes,
/// resets) are application policy.
#[derive(Clone, Copy, Debug, PartialEq, Eq, Structural)]
pub enum HeartbeatEvent {
    /// First heartbeat/boot-up frame from a monitored node: monitoring is
    /// now active.
    Started { node: NodeId, state: NmtState },
    /// A monitored node reported a different NMT state than before.
    StateChanged { node: NodeId, old: NmtState, new: NmtState },
    /// A monitored node sent a boot-up frame after previously reporting a
    /// non-boot state: it was reset. Emitted in addition to `StateChanged`
    /// or `Recovered`.
    RemoteReset { node: NodeId },
    /// A monitored node's consumer time elapsed without a heartbeat.
    ///
    /// The stack never sends EMCY by itself; applications conventionally
    /// report `EmcyErrorCode::HeartbeatError` (0x8130) with
    /// `error_register::COMMUNICATION` and the node id in the vendor bytes.
    Timeout { node: NodeId },
    /// A heartbeat arrived from a monitored node that had timed out.
    Recovered { node: NodeId, state: NmtState },
}

// ---- The event buffer ----

/// The events that one heartbeat frame can produce: a state-carrying event
/// plus `RemoteReset`.
pub type HeartbeatEventBuf = heapless::Vec<HeartbeatEvent, 2>;

/// The events in a buffer, in the order in which they were put there.
pub uninterp spec fn buffered_events(buf: heapless::Vec<HeartbeatEvent, 2>) -> Seq<HeartbeatEvent>;

/// Calls `heapless::Vec::new`, which makes an empty vector.
#[verifier::external_body]
pub(crate) fn new_event_buf() -> (r: heapless::Vec<HeartbeatEvent, 2>)
    ensures
        buffered_events(r) == Seq::<HeartbeatEvent>::empty(),
{
    heapless::Vec::new()
}

/// Calls `heapless::Vec::push`, which appends the item while the vector holds
/// fewer than its capacity of 2, and else hands the item back.
#[verifier::external_body]
pub(crate) fn push_event(buf: &mut heapless::Vec<HeartbeatEvent, 2>, event: HeartbeatEvent) -> (r:
    Result<(), HeartbeatEvent>)
    ensures
        r is Ok <==> buffered_events(*old(buf)).len() < 2,
        r is Ok ==> buffered_events(*final(buf)) == buffered_events(*old(buf)).push(event),
        r matches Err(back) ==> back == event && buffered_events(*final(buf)) == buffered_events(
            *old(buf),
        ),
{
    buf.push(event)
}

/// Reads the slice that `heapless::Vec` dereferences to: its length, and the
/// items in order.
#[verifier::external_body]
pub(crate) fn event_at(buf: &heapless::Vec<HeartbeatEvent, 2>, i: usize) -> (r: Option<
    HeartbeatEvent,
>)
    ensures
        r is Some <==> i < buffered_events(*buf).len(),
        r matches Some(e) ==> e == buffered_events(*buf)[i as int],
{
    buf.get(i).copied()
}

// ---- The event queue ----

/// The events that wait for the application, oldest first.
pub type HeartbeatQueue = heapless::Deque<HeartbeatEvent, 8>;

/// The events in a queue, oldest first.
pub uninterp spec fn queued_events(queue: heapless::Deque<HeartbeatEvent, 8>) -> Seq<HeartbeatEvent>;

/// Calls `heapless::Deque::new`, which makes an empty queue.
#[verifier::external_body]
pub(crate) fn new_event_queue() -> (r: heapless::Deque<HeartbeatEvent, 8>)
    ensures
        queued_events(r) == Seq::<HeartbeatEvent>::empty(),
{
    heapless::Deque::new()
}

/// Calls `heapless::Deque::push_back`, which appends the item while the queue
/// holds fewer than its capacity of 8, and else hands the item back. The queue
/// never holds more.
#[verifier::external_body]
pub(crate) fn push_back_event(
    queue: &mut heapless::Deque<HeartbeatEvent, 8>,
    event: HeartbeatEvent,
) -> (r: Result<(), HeartbeatEvent>)
    ensures
        r is Ok <==> queued_events(*old(queue)).len() < 8,
        r is Ok ==> queued_events(*final(queue)) == queued_events(*old(queue)).push(event),
        r matches Err(back) ==> back == event && queued_events(*final(queue)) == queued_events(
            *old(queue),
        ),
        queued_events(*final(queue)).len() <= 8,
{
    queue.push_back(event)
}

/// Calls `heapless::Deque::pop_front`, which takes the oldest item, if there
/// is one.
#[verifier::external_body]
pub(crate) fn pop_front_event(queue: &mut heapless::Deque<HeartbeatEvent, 8>) -> (r: Option<
    HeartbeatEvent,
>)
    ensures
        r is Some <==> queued_events(*old(queue)).len() > 0,
        r matches Some(e) ==> e == queued_events(*old(queue))[0] && queued_events(*final(queue))
            == queued_events(*old(queue)).drop_first(),
        r is None ==> queued_events(*final(queue)) == queued_events(*old(queue)),
{
    queue.pop_front()
}

/// Calls `heapless::Deque::len`, the number of items.
#[verifier::external_body]
pub(crate) fn event_queue_len(queue: &heapless::Deque<HeartbeatEvent, 8>) -> (r: usize)
    ensures
        r == queued_events(*queue).len(),
{
    queue.len()
}

/// Append an event, dropping the oldest one if the queue is full. Returns
/// whether it was.
pub(crate) fn push_evicting_event(queue: &mut HeartbeatQueue, event: HeartbeatEvent) -> (was_full:
    bool)
    ensures
        queued_events(*final(queue)) == push_evicting(queued_events(*old(queue)), 8, event),
        was_full == (queued_events(*old(queue)).len() == 8),
{
    match push_back_event(queue, event) {
        Ok(()) => false,
        Err(e) => {
            let _ = pop_front_event(queue);
            let _ = push_back_event(queue, e);
            true
        },
    }
}

/// A buffer after another event, which is lost if the buffer is full.
pub open spec fn event_added(events: Seq<HeartbeatEvent>, event: HeartbeatEvent) -> Seq<
    HeartbeatEvent,
> {
    if events.len() < 2 {
        events.push(event)
    } else {
        events
    }
}

/// A buffer after several events.
pub open spec fn events_added(events: Seq<HeartbeatEvent>, more: Seq<HeartbeatEvent>) -> Seq<
    HeartbeatEvent,
>
    decreases more.len(),
{
    if more.len() == 0 {
        events
    } else {
        event_added(events_added(events, more.drop_last()), more.last())
    }
}

// ---- Monitoring ----

/// The state of a monitor.
#[verifier::ext_equal]
pub struct MonitorModel {
    pub node: NodeId,
    pub timeout_ms: u16,
    pub state: HeartbeatMonitorState,
}

impl MonitorModel {
    /// A monitor that has not heard anything yet.
    pub open spec fn fresh(node: NodeId, timeout_ms: u16) -> MonitorModel {
        MonitorModel { node, timeout_ms, state: HeartbeatMonitorState::Waiting }
    }

    /// What a heartbeat with a valid state tells about the node.
    pub open spec fn news(self, new_state: NmtState) -> Seq<HeartbeatEvent> {
        let node = self.node;
        let reset = HeartbeatEvent::RemoteReset { node };
        match self.state {
            HeartbeatMonitorState::Disabled | HeartbeatMonitorState::Waiting => seq![
                HeartbeatEvent::Started { node, state: new_state },
            ],
            HeartbeatMonitorState::Alive { nmt_state, .. } => {
                let changed = HeartbeatEvent::StateChanged {
                    node,
                    old: nmt_state,
                    new: new_state,
                };
                if new_state == nmt_state {
                    seq![]
                } else if new_state == NmtState::Initializing {
                    seq![changed, reset]
                } else {
                    seq![changed]
                }
            },
            HeartbeatMonitorState::Timeout { last_nmt_state, .. } => {
                let recovered = HeartbeatEvent::Recovered { node, state: new_state };
                if new_state == NmtState::Initializing && last_nmt_state != new_state {
                    seq![recovered, reset]
                } else {
                    seq![recovered]
                }
            },
        }
    }

    /// The monitor after a heartbeat. Heartbeats of other nodes and unknown
    /// state bytes change nothing.
    pub open spec fn heard(self, node: NodeId, state_byte: u8, now: u64) -> MonitorModel {
        match NmtState::from_heartbeat_byte(state_byte) {
            Some(s) if node == self.node => MonitorModel {
                state: HeartbeatMonitorState::Alive { nmt_state: s, last_seen_us: now },
                ..self
            },
            _ => self,
        }
    }

    /// The events of a heartbeat.
    pub open spec fn reported(self, node: NodeId, state_byte: u8) -> Seq<HeartbeatEvent> {
        match NmtState::from_heartbeat_byte(state_byte) {
            Some(s) if node == self.node => self.news(s),
            _ => seq![],
        }
    }

    /// The node was alive and has been silent for longer than the consumer time.
    pub open spec fn overdue(self, now: u64) -> bool {
        match self.state {
            HeartbeatMonitorState::Alive { last_seen_us, .. } => self.timeout_ms != 0
                && elapsed_us(now, last_seen_us) > self.timeout_ms * 1000,
            _ => false,
        }
    }

    /// The monitor after its timeout was checked.
    pub open spec fn checked(self, now: u64) -> MonitorModel {
        match self.state {
            HeartbeatMonitorState::Alive { nmt_state, last_seen_us } if self.overdue(now) =>
            MonitorModel {
                state: HeartbeatMonitorState::Timeout {
                    last_nmt_state: nmt_state,
                    last_seen_us,
                    timed_out_us: now,
                },
                ..self
            },
            _ => self,
        }
    }
}

/// Monitors the heartbeat of one remote node (one 0x1016 entry).
///
/// Frames with an unknown NMT state byte are ignored entirely (conformant
/// producers only send 0x00/0x04/0x05/0x7F; bit 7 toggling is legacy node
/// guarding, which this stack does not implement).
#[derive(Clone, Copy, Debug)]
pub struct HeartbeatMonitor {
    node_id: NodeId,
    timeout_ms: u16,
    state: HeartbeatMonitorState,
}

impl View for HeartbeatMonitor {
    type V = MonitorModel;

    closed spec fn view(&self) -> MonitorModel {
        MonitorModel { node: self.node_id, timeout_ms: self.timeout_ms, state: self.state }
    }
}

impl HeartbeatMonitor {
    pub fn new(node_id: NodeId, timeout_ms: u16) -> (r: Self)
        ensures
            r@ == MonitorModel::fresh(node_id, timeout_ms),
    {
        HeartbeatMonitor { node_id, timeout_ms, state: HeartbeatMonitorState::Waiting }
    }

    /// The monitored producer's node id.
    pub fn node_id(&self) -> (r: NodeId)
        ensures
            r == self@.node,
    {
        self.node_id
    }

    /// Consumer time in ms (bits 0..16 of the 0x1016 entry).
    pub fn timeout_ms(&self) -> (r: u16)
        ensures
            r == self@.timeout_ms,
    {
        self.timeout_ms
    }

    /// Current monitor state (never `Disabled`: a disabled entry has no monitor).
    pub fn state(&self) -> (r: HeartbeatMonitorState)
        ensures
            r == self@.state,
    {
        self.state
    }

    /// Feed a received heartbeat frame. Returns true if it was for our node
    /// (whether or not it produced events).
    pub fn process(
        &mut self,
        node: NodeId,
        state_byte: u8,
        now_us: u64,
        events: &mut HeartbeatEventBuf,
    ) -> (r: bool)
        ensures
            r == (node == old(self)@.node),
            final(self)@ == old(self)@.heard(node, state_byte, now_us),
            buffered_events(*final(events)) == events_added(
                buffered_events(*old(events)),
                old(self)@.reported(node, state_byte),
            ),
    {
        proof {
            reveal_with_fuel(events_added, 3);
        }
        if node != self.node_id {
            return false;
        }
        let new_state = match NmtState::from_heartbeat_byte(state_byte) {
            Some(s) => s,
            None => {
                return true;
            },
        };
        let node = self.node_id;
        let ghost before = buffered_events(*events);
        match self.state {
            HeartbeatMonitorState::Disabled | HeartbeatMonitorState::Waiting => {
                let e = HeartbeatEvent::Started { node, state: new_state };
                let _ = push_event(events, e);
                assert(seq![e].drop_last() =~= seq![]);
            },
            HeartbeatMonitorState::Alive { nmt_state, .. } => {
                if new_state != nmt_state {
                    let e = HeartbeatEvent::StateChanged { node, old: nmt_state, new: new_state };
                    let _ = push_event(events, e);
                    assert(seq![e].drop_last() =~= seq![]);
                    if new_state == NmtState::Initializing {
                        let e2 = HeartbeatEvent::RemoteReset { node };
                        let _ = push_event(events, e2);
                        assert(seq![e, e2].drop_last() =~= seq![e]);
                    }
                }
            },
            HeartbeatMonitorState::Timeout { last_nmt_state, .. } => {
                let e = HeartbeatEvent::Recovered { node, state: new_state };
                let _ = push_event(events, e);
                assert(seq![e].drop_last() =~= seq![]);
                if new_state == NmtState::Initializing && last_nmt_state != NmtState::Initializing {
                    let e2 = HeartbeatEvent::RemoteReset { node };
                    let _ = push_event(events, e2);
                    assert(seq![e, e2].drop_last() =~= seq![e]);
                }
            },
        }
        self.state = HeartbeatMonitorState::Alive { nmt_state: new_state, last_seen_us: now_us };
        true
    }

    /// Check for timeout. Returns the `Timeout` event on the alive to timed-out
    /// edge; monitoring only re-arms on the next reception.
    pub fn check_timeout(&mut self, now_us: u64) -> (r: Option<HeartbeatEvent>)
        ensures
            final(self)@ == old(self)@.checked(now_us),
            r == (if old(self)@.overdue(now_us) {
                Some(HeartbeatEvent::Timeout { node: old(self)@.node })
            } else {
                None
            }),
    {
        if let HeartbeatMonitorState::Alive { nmt_state, last_seen_us } = self.state {
            if self.timeout_ms != 0 && now_us.wrapping_sub(last_seen_us) > self.timeout_ms as u64
                * 1000 {
                self.state = HeartbeatMonitorState::Timeout {
                    last_nmt_state: nmt_state,
                    last_seen_us,
                    timed_out_us: now_us,
                };
                return Some(HeartbeatEvent::Timeout { node: self.node_id });
            }
        }
        None
    }
}

/// A timeout is reported once: after it was, no further check reports it
/// until the node is heard again. A monitor that has heard nothing yet never
/// times out.
pub proof fn lemma_timeout_fires_once(m: MonitorModel, now: u64, later: u64)
    ensures
        m.overdue(now) ==> !m.checked(now).overdue(later),
        m.state is Waiting ==> !m.overdue(now),
{
}

/// A valid heartbeat always makes the monitored node alive again.
pub proof fn lemma_heartbeat_revives(m: MonitorModel, state_byte: u8, now: u64)
    requires
        NmtState::from_heartbeat_byte(state_byte) is Some,
    ensures
        m.heard(m.node, state_byte, now).state is Alive,
        m.heard(m.node, state_byte, now).timeout_ms == m.timeout_ms,
{
}

} // verus!
