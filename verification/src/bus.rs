//! CAN bus with many subscribers.
//!
//! One owner drives the physical transport and publishes every received frame
//! to the bus; any number of independent consumers subscribe with their own
//! bounded queue, optional publish-side filter, and overflow policy.
//!
//! - Frames are copied: each accepting subscriber gets its own copy. Filters
//!   run against a reference before the copy.
//! - Sending is not part of the bus. `TxQueue` is a separate bounded queue
//!   that never drops a frame.
//! - Per-subscriber FIFO in publish order is an API guarantee; SDO
//!   correctness depends on it.

use crate::time::elapsed_us;
use crate::transport::{frame_views, CanFrame, FrameView};
use std::collections::VecDeque;
use vstd::prelude::*;

verus! {

/// Publish-side frame filter. The frame is copied into the subscription queue
/// only when the filter accepts it.
///
/// Of a function that an implementation does not define, nothing is known.
pub trait FrameFilter {
    /// Whether the filter accepts a frame, for use in contracts.
    closed spec fn admits(&self, frame: FrameView) -> bool {
        arbitrary()
    }

    /// Whether the filter accepts a frame.
    fn accepts(&self, frame: &CanFrame) -> (r: bool)
        ensures
            r == self.admits(frame@),
    ;
}

/// A filter that accepts the frames with one identifier.
#[derive(Clone, Copy, Debug)]
pub struct IdFilter {
    pub id: u16,
}

impl FrameFilter for IdFilter {
    open spec fn admits(&self, frame: FrameView) -> bool {
        frame.id == self.id
    }

    fn accepts(&self, frame: &CanFrame) -> (r: bool) {
        frame.raw_id() == self.id
    }
}

/// What to do when a subscription queue is full.
#[derive(Clone, Copy, Debug, PartialEq, Eq, Structural)]
pub enum OverflowPolicy {
    /// Drop the oldest queued frame to make room (latest state wins,
    /// right for monitoring TPDOs/heartbeats).
    DropOldest,
    /// Drop the incoming frame.
    DropNewest,
}

impl Default for OverflowPolicy {
    fn default() -> (r: Self)
        ensures
            r == OverflowPolicy::DropOldest,
    {
        OverflowPolicy::DropOldest
    }
}

/// The state of one subscription.
#[verifier::ext_equal]
pub struct SubscriptionView<F> {
    pub queue: Seq<FrameView>,
    pub capacity: nat,
    pub policy: OverflowPolicy,
    /// Frames dropped since the count was last taken.
    pub overflow: u64,
    pub filter: Option<F>,
}

impl<F: FrameFilter> SubscriptionView<F> {
    /// The subscription wants a frame.
    pub open spec fn wants(self, frame: FrameView) -> bool {
        match self.filter {
            Some(f) => f.admits(frame),
            None => true,
        }
    }

    /// The subscription after a frame was published.
    pub open spec fn published(self, frame: FrameView) -> SubscriptionView<F> {
        if !self.wants(frame) {
            self
        } else if self.queue.len() < self.capacity {
            SubscriptionView { queue: self.queue.push(frame), ..self }
        } else {
            SubscriptionView {
                queue: match self.policy {
                    OverflowPolicy::DropOldest => if self.queue.len() == 0 {
                        self.queue.push(frame)
                    } else {
                        self.queue.drop_first().push(frame)
                    },
                    OverflowPolicy::DropNewest => self.queue,
                },
                overflow: ((self.overflow + 1) % 0x1_0000_0000_0000_0000) as u64,
                ..self
            }
        }
    }

    /// The subscription after several frames were published.
    pub open spec fn all_published(self, frames: Seq<FrameView>) -> SubscriptionView<F>
        decreases frames.len(),
    {
        if frames.len() == 0 {
            self
        } else {
            self.all_published(frames.drop_last()).published(frames.last())
        }
    }
}

/// The queue of one subscription.
pub struct SubscriptionQueue<F> {
    queue: VecDeque<CanFrame>,
    capacity: usize,
    policy: OverflowPolicy,
    overflow: u64,
    filter: Option<F>,
}

impl<F: FrameFilter> View for SubscriptionQueue<F> {
    type V = SubscriptionView<F>;

    closed spec fn view(&self) -> SubscriptionView<F> {
        SubscriptionView {
            queue: frame_views(self.queue@),
            capacity: self.capacity as nat,
            policy: self.policy,
            overflow: self.overflow,
            filter: self.filter,
        }
    }
}

impl<F: FrameFilter> SubscriptionQueue<F> {
    fn publish(&mut self, frame: &CanFrame)
        ensures
            final(self)@ == old(self)@.published(frame@),
    {
        if let Some(f) = &self.filter {
            if !f.accepts(frame) {
                return ;
            }
        }
        let ghost before = self.queue@;
        if self.queue.len() >= self.capacity {
            self.overflow = self.overflow.wrapping_add(1);
            match self.policy {
                OverflowPolicy::DropOldest => {
                    let _ = self.queue.pop_front();
                },
                OverflowPolicy::DropNewest => {
                    return ;
                },
            }
            assert(before.len() > 0 ==> frame_views(self.queue@) =~= frame_views(
                before,
            ).drop_first());
        }
        let ghost mid = self.queue@;
        self.queue.push_back(*frame);
        assert(frame_views(self.queue@) =~= frame_views(mid).push(frame@));
    }
}

/// The subscriptions of a bus by number. Closed ones are gone.
pub open spec fn bus_view<F: FrameFilter>(subs: Seq<Option<SubscriptionQueue<F>>>) -> Seq<
    Option<SubscriptionView<F>>,
> {
    subs.map_values(
        |s: Option<SubscriptionQueue<F>>|
            match s {
                Some(q) => Some(q@),
                None => None,
            },
    )
}

/// A CAN bus with subscribers.
pub struct SharedCanBus<F> {
    subs: Vec<Option<SubscriptionQueue<F>>>,
}

impl<F: FrameFilter> View for SharedCanBus<F> {
    type V = Seq<Option<SubscriptionView<F>>>;

    closed spec fn view(&self) -> Seq<Option<SubscriptionView<F>>> {
        bus_view(self.subs@)
    }
}

/// The number of subscriptions that are not closed.
pub open spec fn live<T>(subs: Seq<Option<T>>) -> int
    decreases subs.len(),
{
    if subs.len() == 0 {
        0
    } else {
        live(subs.drop_last()) + (if subs.last() is Some {
            1int
        } else {
            0int
        })
    }
}

/// The first number from one on that no live subscription has.
pub open spec fn free_slot<T>(subs: Seq<Option<T>>, from: int) -> int
    decreases subs.len() - from,
{
    if 0 <= from < subs.len() && subs[from] is Some {
        free_slot(subs, from + 1)
    } else {
        from
    }
}

/// Subscriptions with one more, under the first free number.
pub open spec fn subscribed<T>(subs: Seq<Option<T>>, s: T) -> Seq<Option<T>> {
    let id = free_slot(subs, 0);
    if id < subs.len() {
        subs.update(id, Some(s))
    } else {
        subs.push(Some(s))
    }
}

/// Subscriptions without the closed ones behind the last live one.
pub open spec fn up_to_last_live<T>(subs: Seq<Option<T>>) -> Seq<Option<T>>
    decreases subs.len(),
{
    if subs.len() > 0 && subs.last() is None {
        up_to_last_live(subs.drop_last())
    } else {
        subs
    }
}

/// A subscription's receiving end.
#[derive(Debug)]
pub struct Subscription {
    id: usize,
}

impl View for Subscription {
    type V = nat;

    closed spec fn view(&self) -> nat {
        self.id as nat
    }
}

impl<F: FrameFilter> SharedCanBus<F> {
    pub fn new() -> (r: Self)
        ensures
            r@ == Seq::<Option<SubscriptionView<F>>>::empty(),
    {
        let r = SharedCanBus { subs: Vec::new() };
        assert(r@ =~= Seq::<Option<SubscriptionView<F>>>::empty());
        r
    }

    /// Subscribe with the default overflow policy and no filter.
    pub fn subscribe(&mut self, capacity: usize) -> (r: Subscription)
        requires
            capacity > 0,
        ensures
            r@ == free_slot(old(self)@, 0),
            final(self)@ == subscribed(
                old(self)@,
                SubscriptionView {
                    queue: Seq::empty(),
                    capacity: capacity as nat,
                    policy: OverflowPolicy::DropOldest,
                    overflow: 0,
                    filter: None,
                },
            ),
    {
        self.subscribe_with(capacity, OverflowPolicy::default(), None)
    }

    /// Subscribe with a publish-side filter (default overflow policy).
    pub fn subscribe_filtered(&mut self, capacity: usize, filter: F) -> (r: Subscription)
        requires
            capacity > 0,
        ensures
            r@ == free_slot(old(self)@, 0),
            final(self)@ == subscribed(
                old(self)@,
                SubscriptionView {
                    queue: Seq::empty(),
                    capacity: capacity as nat,
                    policy: OverflowPolicy::DropOldest,
                    overflow: 0,
                    filter: Some(filter),
                },
            ),
    {
        self.subscribe_with(capacity, OverflowPolicy::default(), Some(filter))
    }

    /// Subscribe with an overflow policy and an optional filter.
    pub fn subscribe_with(
        &mut self,
        capacity: usize,
        policy: OverflowPolicy,
        filter: Option<F>,
    ) -> (r: Subscription)
        requires
            capacity > 0,
        ensures
            r@ == free_slot(old(self)@, 0),
            final(self)@ == subscribed(
                old(self)@,
                SubscriptionView {
                    queue: Seq::empty(),
                    capacity: capacity as nat,
                    policy,
                    overflow: 0,
                    filter,
                },
            ),
    {
        let ghost before = self@;
        let q = SubscriptionQueue { queue: VecDeque::new(), capacity, policy, overflow: 0, filter };
        assert(q@.queue =~= Seq::<FrameView>::empty());
        let mut id: usize = 0;
        while id < self.subs.len() && self.subs[id].is_some()
            invariant
                id <= self.subs@.len(),
                before == self@,
                free_slot(before, 0) == free_slot(before, id as int),
            decreases self.subs@.len() - id,
        {
            assert(before[id as int] == bus_view(self.subs@)[id as int]);
            id += 1;
        }
        if id < self.subs.len() {
            assert(before[id as int] == bus_view(self.subs@)[id as int]);
            self.subs[id] = Some(q);
            assert(self@ =~= before.update(id as int, Some(q@)));
        } else {
            self.subs.push(Some(q));
            assert(self@ =~= before.push(Some(q@)));
        }
        Subscription { id }
    }

    /// Publish a frame to every live subscriber whose filter accepts it.
    pub fn publish(&mut self, frame: &CanFrame)
        ensures
            final(self)@ == old(self)@.map_values(
                |s: Option<SubscriptionView<F>>|
                    match s {
                        Some(q) => Some(q.published(frame@)),
                        None => None,
                    },
            ),
    {
        let ghost before = self@;
        let ghost goal = before.map_values(
            |s: Option<SubscriptionView<F>>|
                match s {
                    Some(q) => Some(q.published(frame@)),
                    None => None,
                },
        );
        let mut i: usize = 0;
        while i < self.subs.len()
            invariant
                i <= self.subs@.len(),
                self.subs@.len() == before.len(),
                goal.len() == before.len(),
                goal == before.map_values(
                    |s: Option<SubscriptionView<F>>|
                        match s {
                            Some(q) => Some(q.published(frame@)),
                            None => None,
                        },
                ),
                forall|j: int| 0 <= j < i ==> self@[j] == goal[j],
                forall|j: int| i <= j < before.len() ==> self@[j] == before[j],
            decreases self.subs@.len() - i,
        {
            let ghost so_far = self@;
            assert(so_far[i as int] == bus_view(self.subs@)[i as int]);
            let mut slot: Option<SubscriptionQueue<F>> = None;
            std::mem::swap(&mut slot, &mut self.subs[i]);
            if let Some(q) = &mut slot {
                q.publish(frame);
            }
            self.subs[i] = slot;
            assert(self@ =~= so_far.update(i as int, goal[i as int]));
            i += 1;
        }
        assert(self@ =~= goal);
    }

    /// Number of live subscriptions.
    pub fn subscriber_count(&self) -> (r: usize)
        ensures
            r == live(self@),
    {
        let ghost all = self@;
        let mut count: usize = 0;
        let mut i: usize = 0;
        assert(all.take(0) =~= Seq::<Option<SubscriptionView<F>>>::empty());
        while i < self.subs.len()
            invariant
                i <= self.subs@.len(),
                count <= i,
                all == self@,
                count == live(all.take(i as int)),
            decreases self.subs@.len() - i,
        {
            assert(all.take(i + 1).drop_last() =~= all.take(i as int));
            if self.subs[i].is_some() {
                count += 1;
            }
            i += 1;
        }
        assert(all.take(i as int) =~= all);
        count
    }
}

/// The queue of a subscription, if the bus has it and it is not closed.
pub open spec fn queue_of<T>(subs: Seq<Option<T>>, id: nat) -> Option<T> {
    if id < subs.len() {
        subs[id as int]
    } else {
        None
    }
}

impl Subscription {
    /// Take the next frame, if there is one.
    pub fn try_recv<F: FrameFilter>(&self, bus: &mut SharedCanBus<F>) -> (r: Option<CanFrame>)
        ensures
            match queue_of(old(bus)@, self@) {
                Some(q) if q.queue.len() > 0 => {
                    &&& r matches Some(f) && f@ == q.queue[0]
                    &&& final(bus)@ == old(bus)@.update(
                        self@ as int,
                        Some(SubscriptionView { queue: q.queue.drop_first(), ..q }),
                    )
                },
                _ => r is None && final(bus)@ == old(bus)@,
            },
    {
        if self.id >= bus.subs.len() {
            return None;
        }
        let ghost before = bus@;
        assert(before[self.id as int] == bus_view(bus.subs@)[self.id as int]);
        let mut slot: Option<SubscriptionQueue<F>> = None;
        std::mem::swap(&mut slot, &mut bus.subs[self.id]);
        let mut r: Option<CanFrame> = None;
        if let Some(q) = &mut slot {
            let ghost frames = q.queue@;
            r = q.queue.pop_front();
            assert(frames.len() > 0 ==> frame_views(q.queue@) =~= frame_views(frames).drop_first());
        }
        bus.subs[self.id] = slot;
        assert(bus@ =~= before.update(self.id as int, bus@[self.id as int]));
        assert(r is None ==> bus@ =~= before);
        r
    }

    /// Frames dropped due to a full queue since the last call (resets the
    /// counter).
    pub fn take_overflow_count<F: FrameFilter>(&self, bus: &mut SharedCanBus<F>) -> (r: u64)
        ensures
            match queue_of(old(bus)@, self@) {
                Some(q) => {
                    &&& r == q.overflow
                    &&& final(bus)@ == old(bus)@.update(
                        self@ as int,
                        Some(SubscriptionView { overflow: 0, ..q }),
                    )
                },
                None => r == 0 && final(bus)@ == old(bus)@,
            },
    {
        if self.id >= bus.subs.len() {
            return 0;
        }
        let ghost before = bus@;
        assert(before[self.id as int] == bus_view(bus.subs@)[self.id as int]);
        let mut slot: Option<SubscriptionQueue<F>> = None;
        std::mem::swap(&mut slot, &mut bus.subs[self.id]);
        let mut r: u64 = 0;
        if let Some(q) = &mut slot {
            r = q.overflow;
            q.overflow = 0;
        }
        bus.subs[self.id] = slot;
        assert(bus@ =~= before.update(self.id as int, bus@[self.id as int]));
        r
    }

    /// Number of queued frames.
    pub fn len<F: FrameFilter>(&self, bus: &SharedCanBus<F>) -> (r: usize)
        ensures
            r == (match queue_of(bus@, self@) {
                Some(q) => q.queue.len(),
                None => 0,
            }),
    {
        if self.id >= bus.subs.len() {
            return 0;
        }
        assert(bus@[self.id as int] == bus_view(bus.subs@)[self.id as int]);
        match &bus.subs[self.id] {
            Some(q) => q.queue.len(),
            None => 0,
        }
    }

    pub fn is_empty<F: FrameFilter>(&self, bus: &SharedCanBus<F>) -> (r: bool)
        ensures
            r == (match queue_of(bus@, self@) {
                Some(q) => q.queue.len() == 0,
                None => true,
            }),
    {
        self.len(bus) == 0
    }

    /// Unsubscribe. The bus forgets the closed subscriptions behind its last
    /// live one.
    pub fn close<F: FrameFilter>(self, bus: &mut SharedCanBus<F>)
        ensures
            final(bus)@ == (if self@ < old(bus)@.len() {
                up_to_last_live(old(bus)@.update(self@ as int, None))
            } else {
                old(bus)@
            }),
    {
        if self.id < bus.subs.len() {
            let ghost before = bus@;
            bus.subs[self.id] = None;
            let ghost goal = up_to_last_live(before.update(self.id as int, None));
            assert(bus@ =~= before.update(self.id as int, None));
            while bus.subs.len() > 0 && bus.subs[bus.subs.len() - 1].is_none()
                invariant
                    goal == up_to_last_live(bus@),
                decreases bus.subs@.len(),
            {
                let ghost subs = bus@;
                assert(subs.last() == bus_view(bus.subs@).last());
                let _ = bus.subs.pop();
                assert(bus@ =~= subs.drop_last());
            }
            assert(bus.subs@.len() > 0 ==> bus@.last() == bus_view(bus.subs@).last());
        }
    }
}

// ---- Sending ----

/// The state of a transmit queue.
#[verifier::ext_equal]
pub struct TxView {
    pub queue: Seq<FrameView>,
    pub capacity: nat,
}

/// Bounded transmit queue between producers and the owner of the transport.
/// Frames are never silently dropped.
pub struct TxQueue {
    queue: VecDeque<CanFrame>,
    capacity: usize,
}

impl View for TxQueue {
    type V = TxView;

    closed spec fn view(&self) -> TxView {
        TxView { queue: frame_views(self.queue@), capacity: self.capacity as nat }
    }
}

impl TxQueue {
    pub fn new(capacity: usize) -> (r: Self)
        requires
            capacity > 0,
        ensures
            r@ == (TxView { queue: Seq::empty(), capacity: capacity as nat }),
    {
        let r = TxQueue { queue: VecDeque::new(), capacity };
        assert(r@.queue =~= Seq::<FrameView>::empty());
        r
    }

    /// Enqueue a frame. Returns `false` if the queue is full.
    pub fn try_send(&mut self, frame: &CanFrame) -> (sent: bool)
        ensures
            sent == (old(self)@.queue.len() < old(self)@.capacity),
            final(self)@ == (if sent {
                TxView { queue: old(self)@.queue.push(frame@), ..old(self)@ }
            } else {
                old(self)@
            }),
    {
        if self.queue.len() >= self.capacity {
            return false;
        }
        let ghost before = self.queue@;
        self.queue.push_back(*frame);
        assert(frame_views(self.queue@) =~= frame_views(before).push(frame@));
        true
    }

    /// Take the next frame to transmit, if any.
    pub fn try_pop(&mut self) -> (r: Option<CanFrame>)
        ensures
            r is Some <==> old(self)@.queue.len() > 0,
            r matches Some(f) ==> f@ == old(self)@.queue[0] && final(self)@ == (TxView {
                queue: old(self)@.queue.drop_first(),
                ..old(self)@
            }),
            r is None ==> final(self)@ == old(self)@,
    {
        let ghost before = self.queue@;
        let r = self.queue.pop_front();
        assert(r is Some ==> frame_views(self.queue@) =~= frame_views(before).drop_first());
        r
    }

    pub fn len(&self) -> (r: usize)
        ensures
            r == self@.queue.len(),
    {
        self.queue.len()
    }

    pub fn is_empty(&self) -> (r: bool)
        ensures
            r == (self@.queue.len() == 0),
    {
        self.queue.len() == 0
    }
}

/// Failure of the loop that drives a transport with errors of type `E`. There
/// is no recovery path by design.
#[derive(Debug)]
pub enum PumpError<E> {
    /// Transport I/O error (adapter unplugged, bus-off, ...).
    Transport(E),
    /// A frame could not be transmitted in time.
    TxStuck,
}

// ---- Pump ----

/// How long the pump retries to transmit a frame before giving up, in
/// microseconds.
pub const TX_STUCK_TIMEOUT_US: u64 = 500_000;

/// What the pump is to do next.
#[derive(Clone, Copy, Debug)]
pub enum PumpAction {
    /// Receive from the transport.
    Receive,
    /// Publish the frame, and receive again.
    Publish(CanFrame),
    /// Take the next frame from the transmit queue.
    Pop,
    /// Transmit the frame.
    Transmit(CanFrame),
    /// Wait a moment, and transmit the frame again.
    Retry(CanFrame),
    /// Go on with the next round at once.
    NextRound,
    /// Sleep, and go on with the next round.
    Sleep,
    /// Give up: a frame could not be transmitted in time.
    GiveUp,
}

/// What an action means.
#[verifier::ext_equal]
pub enum PumpActionView {
    Receive,
    Publish(FrameView),
    Pop,
    Transmit(FrameView),
    Retry(FrameView),
    NextRound,
    Sleep,
    GiveUp,
}

impl View for PumpAction {
    type V = PumpActionView;

    open spec fn view(&self) -> PumpActionView {
        match self {
            PumpAction::Receive => PumpActionView::Receive,
            PumpAction::Publish(f) => PumpActionView::Publish(f@),
            PumpAction::Pop => PumpActionView::Pop,
            PumpAction::Transmit(f) => PumpActionView::Transmit(f@),
            PumpAction::Retry(f) => PumpActionView::Retry(f@),
            PumpAction::NextRound => PumpActionView::NextRound,
            PumpAction::Sleep => PumpActionView::Sleep,
            PumpAction::GiveUp => PumpActionView::GiveUp,
        }
    }
}

/// The state of a pump.
#[verifier::ext_equal]
pub struct PumpView {
    /// Something was received or transmitted in this round.
    pub busy: bool,
    /// The frame that is being transmitted, and since when.
    pub sending: Option<(FrameView, u64)>,
}

/// Decides what a pump does that drives a transport: in each round it publishes
/// everything received and then transmits everything queued; after a round in
/// which nothing happened it sleeps.
#[derive(Clone, Copy, Debug)]
pub struct Pump {
    busy: bool,
    sending: Option<(CanFrame, u64)>,
}

impl View for Pump {
    type V = PumpView;

    closed spec fn view(&self) -> PumpView {
        PumpView {
            busy: self.busy,
            sending: match self.sending {
                Some((f, since)) => Some((f@, since)),
                None => None,
            },
        }
    }
}

impl PumpView {
    /// A frame, or nothing, was received.
    pub open spec fn received(self, frame: Option<FrameView>) -> (PumpView, PumpActionView) {
        match frame {
            Some(f) => (PumpView { busy: true, ..self }, PumpActionView::Publish(f)),
            None => (self, PumpActionView::Pop),
        }
    }

    /// A frame, or nothing, was queued for transmission.
    pub open spec fn popped(self, frame: Option<FrameView>, now: u64) -> (
        PumpView,
        PumpActionView,
    ) {
        match frame {
            Some(f) => (PumpView { sending: Some((f, now)), ..self }, PumpActionView::Transmit(f)),
            None => (
                self,
                if self.busy {
                    PumpActionView::NextRound
                } else {
                    PumpActionView::Sleep
                },
            ),
        }
    }

    /// The frame was transmitted.
    pub open spec fn sent(self) -> (PumpView, PumpActionView) {
        (PumpView { busy: true, sending: None }, PumpActionView::Pop)
    }

    /// The transport could not take the frame now.
    pub open spec fn blocked(self, now: u64) -> PumpActionView {
        match self.sending {
            Some((f, since)) if elapsed_us(now, since) < TX_STUCK_TIMEOUT_US =>
            PumpActionView::Retry(f),
            _ => PumpActionView::GiveUp,
        }
    }
}

impl Pump {
    /// Start a round.
    pub fn start() -> (r: (Self, PumpAction))
        ensures
            r.0@ == (PumpView { busy: false, sending: None }),
            r.1@ == PumpActionView::Receive,
    {
        (Pump { busy: false, sending: None }, PumpAction::Receive)
    }

    /// A frame, or nothing, was received.
    pub fn on_received(&mut self, frame: Option<CanFrame>) -> (r: PumpAction)
        ensures
            (final(self)@, r@) == old(self)@.received(
                match frame {
                    Some(f) => Some(f@),
                    None => None,
                },
            ),
    {
        match frame {
            Some(f) => {
                self.busy = true;
                PumpAction::Publish(f)
            },
            None => PumpAction::Pop,
        }
    }

    /// A frame, or nothing, was queued for transmission.
    pub fn on_popped(&mut self, frame: Option<CanFrame>, now_us: u64) -> (r: PumpAction)
        ensures
            (final(self)@, r@) == old(self)@.popped(
                match frame {
                    Some(f) => Some(f@),
                    None => None,
                },
                now_us,
            ),
    {
        match frame {
            Some(f) => {
                self.sending = Some((f, now_us));
                PumpAction::Transmit(f)
            },
            None => if self.busy {
                PumpAction::NextRound
            } else {
                PumpAction::Sleep
            },
        }
    }

    /// The frame was transmitted.
    pub fn on_sent(&mut self) -> (r: PumpAction)
        ensures
            (final(self)@, r@) == old(self)@.sent(),
    {
        self.busy = true;
        self.sending = None;
        PumpAction::Pop
    }

    /// The transport could not take the frame now.
    pub fn on_blocked(&self, now_us: u64) -> (r: PumpAction)
        ensures
            r@ == self@.blocked(now_us),
    {
        match self.sending {
            Some((f, since)) => if now_us.wrapping_sub(since) < TX_STUCK_TIMEOUT_US {
                PumpAction::Retry(f)
            } else {
                PumpAction::GiveUp
            },
            None => PumpAction::GiveUp,
        }
    }
}

// ---- Laws ----

proof fn lemma_free_slot_is_free<T>(subs: Seq<Option<T>>, from: int)
    requires
        0 <= from <= subs.len(),
    ensures
        from <= free_slot(subs, from) <= subs.len(),
        free_slot(subs, from) < subs.len() ==> subs[free_slot(subs, from)] is None,
    decreases subs.len() - from,
{
    if from < subs.len() && subs[from] is Some {
        lemma_free_slot_is_free(subs, from + 1);
    }
}

proof fn lemma_trimming_keeps_live<T>(subs: Seq<Option<T>>, id: nat)
    ensures
        queue_of(up_to_last_live(subs), id) == queue_of(subs, id),
    decreases subs.len(),
{
    if subs.len() > 0 && subs.last() is None {
        lemma_trimming_keeps_live(subs.drop_last(), id);
    }
}

/// Subscribing and closing leave every other subscription as it is. A new
/// subscription gets a number that no live one has, and a closed one is gone.
pub proof fn lemma_subscriptions_are_independent<T>(
    subs: Seq<Option<T>>,
    s: T,
    closed: nat,
    other: nat,
)
    requires
        closed < subs.len(),
    ensures
        ({
            let id = free_slot(subs, 0);
            &&& id >= 0
            &&& queue_of(subs, id as nat) is None
            &&& queue_of(subscribed(subs, s), id as nat) == Some(s)
            &&& other != id ==> queue_of(subscribed(subs, s), other) == queue_of(subs, other)
        }),
        ({
            let rest = up_to_last_live(subs.update(closed as int, None));
            &&& queue_of(rest, closed) is None
            &&& other != closed ==> queue_of(rest, other) == queue_of(subs, other)
        }),
{
    lemma_free_slot_is_free(subs, 0);
    lemma_trimming_keeps_live(subs.update(closed as int, None), closed);
    lemma_trimming_keeps_live(subs.update(closed as int, None), other);
}

/// The frames that a subscription wants.
pub open spec fn wanted<F: FrameFilter>(s: SubscriptionView<F>, frames: Seq<FrameView>) -> Seq<
    FrameView,
>
    decreases frames.len(),
{
    if frames.len() == 0 {
        Seq::empty()
    } else if s.wants(frames.last()) {
        wanted(s, frames.drop_last()).push(frames.last())
    } else {
        wanted(s, frames.drop_last())
    }
}

/// What can happen to a subscription.
pub enum SubscriptionEvent {
    /// A frame is published on the bus.
    Published(FrameView),
    /// The subscriber takes the next frame, if there is one.
    Taken,
}

/// The frames that were published, in order.
pub open spec fn frames_of(history: Seq<SubscriptionEvent>) -> Seq<FrameView>
    decreases history.len(),
{
    if history.len() == 0 {
        Seq::empty()
    } else {
        match history.last() {
            SubscriptionEvent::Published(f) => frames_of(history.drop_last()).push(f),
            SubscriptionEvent::Taken => frames_of(history.drop_last()),
        }
    }
}

/// A subscription after a history, and what the subscriber has received.
pub open spec fn lived<F: FrameFilter>(
    s: SubscriptionView<F>,
    history: Seq<SubscriptionEvent>,
) -> (SubscriptionView<F>, Seq<FrameView>)
    decreases history.len(),
{
    if history.len() == 0 {
        (s, Seq::empty())
    } else {
        let (now, received) = lived(s, history.drop_last());
        match history.last() {
            SubscriptionEvent::Published(f) => (now.published(f), received),
            SubscriptionEvent::Taken => if now.queue.len() > 0 {
                (
                    SubscriptionView { queue: now.queue.drop_first(), ..now },
                    received.push(now.queue[0]),
                )
            } else {
                (now, received)
            },
        }
    }
}

/// One sequence is another one with items left out.
pub open spec fn is_subsequence<T>(a: Seq<T>, b: Seq<T>) -> bool
    decreases b.len(),
{
    ||| a.len() == 0
    ||| b.len() > 0 && is_subsequence(a, b.drop_last())
    ||| a.len() > 0 && b.len() > 0 && a.last() == b.last() && is_subsequence(
        a.drop_last(),
        b.drop_last(),
    )
}

proof fn lemma_subsequence_push<T>(a: Seq<T>, b: Seq<T>, x: T)
    requires
        is_subsequence(a, b),
    ensures
        is_subsequence(a, b.push(x)),
        is_subsequence(a.push(x), b.push(x)),
{
    assert(b.push(x).drop_last() =~= b);
    assert(a.push(x).drop_last() =~= a);
}

proof fn lemma_subsequence_append<T>(a: Seq<T>, b: Seq<T>, tail: Seq<T>)
    requires
        is_subsequence(a, b),
    ensures
        is_subsequence(a + tail, b + tail),
    decreases tail.len(),
{
    if tail.len() == 0 {
        assert(a + tail =~= a);
        assert(b + tail =~= b);
    } else {
        lemma_subsequence_append(a, b, tail.drop_last());
        lemma_subsequence_push(a + tail.drop_last(), b + tail.drop_last(), tail.last());
        assert(a + tail =~= (a + tail.drop_last()).push(tail.last()));
        assert(b + tail =~= (b + tail.drop_last()).push(tail.last()));
    }
}

/// Frames come to a subscriber in the order in which they were published,
/// whatever is published and taken: what was received, and then what is queued,
/// are the frames that were queued before and those that the subscription wants,
/// but for the dropped ones, each of which is counted. With `DropOldest` the
/// queue holds the last of them.
pub proof fn lemma_fifo_in_publish_order<F: FrameFilter>(
    s: SubscriptionView<F>,
    history: Seq<SubscriptionEvent>,
)
    requires
        s.queue.len() <= s.capacity,
        s.capacity > 0,
    ensures
        ({
            let (now, received) = lived(s, history);
            let all = s.queue + wanted(s, frames_of(history));
            let dropped = all.len() - received.len() - now.queue.len();
            &&& is_subsequence(received + now.queue, all)
            &&& now.queue.len() <= s.capacity
            &&& s.policy == OverflowPolicy::DropOldest ==> now.queue == all.skip(
                all.len() - now.queue.len(),
            )
            &&& dropped >= 0
            &&& now.overflow == (s.overflow + dropped) % 0x1_0000_0000_0000_0000
            &&& now == (SubscriptionView { queue: now.queue, overflow: now.overflow, ..s })
        }),
{
    lemma_order(s, history);
    let (now, received) = lived(s, history);
    let all = s.queue + wanted(s, frames_of(history));
    if s.policy == OverflowPolicy::DropOldest {
        let n = all.len() - now.queue.len();
        lemma_subsequence_append(received, all.take(n), now.queue);
        assert(all.take(n) + now.queue =~= all);
    }
}

proof fn lemma_order<F: FrameFilter>(s: SubscriptionView<F>, history: Seq<SubscriptionEvent>)
    requires
        s.queue.len() <= s.capacity,
        s.capacity > 0,
    ensures
        ({
            let (now, received) = lived(s, history);
            let all = s.queue + wanted(s, frames_of(history));
            let dropped = all.len() - received.len() - now.queue.len();
            &&& now.queue.len() <= s.capacity
            &&& now.queue.len() <= all.len()
            &&& s.policy == OverflowPolicy::DropOldest ==> {
                &&& now.queue == all.skip(all.len() - now.queue.len())
                &&& is_subsequence(received, all.take(all.len() - now.queue.len()))
            }
            &&& s.policy == OverflowPolicy::DropNewest ==> is_subsequence(received + now.queue, all)
            &&& dropped >= 0
            &&& now.overflow == (s.overflow + dropped) % 0x1_0000_0000_0000_0000
            &&& now == (SubscriptionView { queue: now.queue, overflow: now.overflow, ..s })
        }),
    decreases history.len(),
{
    let (now, received) = lived(s, history);
    let all = s.queue + wanted(s, frames_of(history));
    if history.len() == 0 {
        assert(all =~= s.queue);
        assert(all.skip(0) =~= all);
        assert(received + now.queue =~= all);
        lemma_subsequence_append(Seq::<FrameView>::empty(), Seq::<FrameView>::empty(), all);
        assert(Seq::<FrameView>::empty() + all =~= all);
    } else {
        lemma_order(s, history.drop_last());
        let (was, had) = lived(s, history.drop_last());
        let before = s.queue + wanted(s, frames_of(history.drop_last()));
        match history.last() {
            SubscriptionEvent::Published(f) => {
                assert(frames_of(history).drop_last() =~= frames_of(history.drop_last()));
                if s.wants(f) {
                    assert(all =~= before.push(f));
                    let n = before.len() - was.queue.len();
                    if was.queue.len() < was.capacity {
                        assert(now.queue =~= all.skip(n) || s.policy == OverflowPolicy::DropNewest);
                        assert(all.take(n) =~= before.take(n));
                        if s.policy == OverflowPolicy::DropNewest {
                            lemma_subsequence_push(had + was.queue, before, f);
                            assert(received + now.queue =~= (had + was.queue).push(f));
                        }
                    } else if s.policy == OverflowPolicy::DropOldest {
                        assert(now.queue =~= all.skip(n + 1));
                        lemma_subsequence_push(had, before.take(n), before[n]);
                        assert(all.take(n + 1) =~= before.take(n).push(before[n]));
                    } else {
                        lemma_subsequence_push(had + was.queue, before, f);
                    }
                } else {
                    assert(all =~= before);
                }
            },
            SubscriptionEvent::Taken => {
                assert(all =~= before);
                if was.queue.len() > 0 {
                    let n = before.len() - was.queue.len();
                    assert(received + now.queue =~= had + was.queue);
                    if s.policy == OverflowPolicy::DropOldest {
                        assert(now.queue =~= all.skip(n + 1));
                        lemma_subsequence_push(had, before.take(n), before[n]);
                        assert(all.take(n + 1) =~= before.take(n).push(before[n]));
                    }
                }
            },
        }
    }
}

/// As long as the queue has room, a subscriber gets every frame that it wants,
/// and counts none as dropped.
pub proof fn lemma_nothing_is_dropped_while_there_is_room<F: FrameFilter>(
    s: SubscriptionView<F>,
    frames: Seq<FrameView>,
)
    requires
        s.queue.len() + wanted(s, frames).len() <= s.capacity,
    ensures
        s.all_published(frames) == (SubscriptionView {
            queue: s.queue + wanted(s, frames),
            ..s
        }),
    decreases frames.len(),
{
    if frames.len() == 0 {
        assert(s.queue + Seq::<FrameView>::empty() =~= s.queue);
    } else {
        lemma_nothing_is_dropped_while_there_is_room(s, frames.drop_last());
        if s.wants(frames.last()) {
            assert(s.queue + wanted(s, frames) =~= (s.queue + wanted(s, frames.drop_last())).push(
                frames.last(),
            ));
        }
    }
}

/// While nothing is taken, a subscription that drops the oldest frames holds the
/// last ones that it wants, as many as its queue can hold.
pub proof fn lemma_latest_frames_are_kept<F: FrameFilter>(
    s: SubscriptionView<F>,
    frames: Seq<FrameView>,
)
    requires
        s.queue.len() <= s.capacity,
        s.capacity > 0,
        s.policy == OverflowPolicy::DropOldest,
    ensures
        ({
            let all = s.queue + wanted(s, frames);
            s.all_published(frames).queue == (if all.len() <= s.capacity {
                all
            } else {
                all.skip(all.len() - s.capacity)
            })
        }),
        s.all_published(frames) == (SubscriptionView {
            queue: s.all_published(frames).queue,
            overflow: s.all_published(frames).overflow,
            ..s
        }),
    decreases frames.len(),
{
    let all = s.queue + wanted(s, frames);
    if frames.len() == 0 {
        assert(all =~= s.queue);
    } else {
        lemma_latest_frames_are_kept(s, frames.drop_last());
        if s.wants(frames.last()) {
            assert(all =~= (s.queue + wanted(s, frames.drop_last())).push(frames.last()));
            assert(all.len() > s.capacity ==> s.all_published(frames).queue =~= all.skip(
                all.len() - s.capacity,
            ));
        }
    }
}

/// A full queue never grows beyond its capacity: with one policy the latest
/// frame is kept, with the other the earliest.
pub proof fn lemma_overflow_keeps_capacity<F: FrameFilter>(
    s: SubscriptionView<F>,
    frame: FrameView,
)
    requires
        0 < s.capacity == s.queue.len(),
        s.wants(frame),
    ensures
        s.published(frame).queue.len() == s.capacity,
        s.policy == OverflowPolicy::DropOldest ==> s.published(frame).queue.last() == frame,
        s.policy == OverflowPolicy::DropNewest ==> s.published(frame).queue == s.queue,
{
}

/// A frame taken from the transmit queue is retried until it is transmitted or
/// its time is up, and is the only one that is transmitted meanwhile.
pub proof fn lemma_pump_retries_until_timeout(pump: PumpView, frame: FrameView, since: u64, now: u64)
    requires
        since <= now,
    ensures
        ({
            let (sending, action) = pump.popped(Some(frame), since);
            &&& action == PumpActionView::Transmit(frame)
            &&& sending.blocked(now) == (if now - since < TX_STUCK_TIMEOUT_US {
                PumpActionView::Retry(frame)
            } else {
                PumpActionView::GiveUp
            })
        }),
{
}

/// The pump sleeps only after a round in which nothing was received and nothing
/// was queued for transmission.
pub proof fn lemma_pump_sleeps_only_when_idle(pump: PumpView, frame: FrameView, now: u64)
    ensures
        pump.received(Some(frame)).0.popped(None, now).1 == PumpActionView::NextRound,
        pump.sent().0.popped(None, now).1 == PumpActionView::NextRound,
        (PumpView { busy: false, sending: None }).received(None).0.popped(None, now).1
            == PumpActionView::Sleep,
{
}

} // verus!
