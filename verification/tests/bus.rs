//! The shared bus and the transmit queue.

use canopen_core::bus::{
    FrameFilter, IdFilter, OverflowPolicy, Pump, PumpAction, SharedCanBus, TxQueue,
    TX_STUCK_TIMEOUT_US,
};
use canopen_core::cobid::{CobId, NodeId};
use canopen_core::transport::CanFrame;

fn frame(id: u16) -> CanFrame {
    CanFrame::new(id, &[0xAA]).unwrap()
}

#[test]
fn publish_fans_out_to_all_subscribers() {
    let mut bus = SharedCanBus::<IdFilter>::new();
    let a = bus.subscribe(4);
    let b = bus.subscribe(4);

    bus.publish(&frame(0x181));

    assert_eq!(a.try_recv(&mut bus).unwrap().raw_id(), 0x181);
    assert_eq!(b.try_recv(&mut bus).unwrap().raw_id(), 0x181);
    assert!(a.try_recv(&mut bus).is_none());
    assert!(b.try_recv(&mut bus).is_none());
}

#[test]
fn filter_runs_before_copy() {
    let mut bus = SharedCanBus::new();
    let sdo_only = bus.subscribe_filtered(4, IdFilter { id: 0x5A1 });
    let all = bus.subscribe(4);

    bus.publish(&frame(0x181));
    bus.publish(&frame(0x5A1));

    assert_eq!(sdo_only.try_recv(&mut bus).unwrap().raw_id(), 0x5A1);
    assert!(sdo_only.try_recv(&mut bus).is_none());
    assert_eq!(all.len(&bus), 2);
    // Filtered-out frames never count as overflow
    assert_eq!(sdo_only.take_overflow_count(&mut bus), 0);
}

#[test]
fn overflow_drop_oldest_keeps_latest() {
    let mut bus = SharedCanBus::<IdFilter>::new();
    let sub = bus.subscribe_with(2, OverflowPolicy::DropOldest, None);

    bus.publish(&frame(0x101));
    bus.publish(&frame(0x102));
    bus.publish(&frame(0x103));

    assert_eq!(sub.take_overflow_count(&mut bus), 1);
    assert_eq!(sub.try_recv(&mut bus).unwrap().raw_id(), 0x102);
    assert_eq!(sub.try_recv(&mut bus).unwrap().raw_id(), 0x103);
}

#[test]
fn overflow_drop_newest_keeps_earliest() {
    let mut bus = SharedCanBus::<IdFilter>::new();
    let sub = bus.subscribe_with(2, OverflowPolicy::DropNewest, None);

    bus.publish(&frame(0x101));
    bus.publish(&frame(0x102));
    bus.publish(&frame(0x103));

    assert_eq!(sub.take_overflow_count(&mut bus), 1);
    assert_eq!(sub.try_recv(&mut bus).unwrap().raw_id(), 0x101);
    assert_eq!(sub.try_recv(&mut bus).unwrap().raw_id(), 0x102);
    assert!(sub.try_recv(&mut bus).is_none());
}

#[test]
fn dropping_subscription_unsubscribes() {
    let mut bus = SharedCanBus::<IdFilter>::new();
    let a = bus.subscribe(4);
    let b = bus.subscribe(4);
    assert_eq!(bus.subscriber_count(), 2);

    b.close(&mut bus);
    bus.publish(&frame(0x181));
    assert_eq!(bus.subscriber_count(), 1);
    assert_eq!(a.len(&bus), 1);
}

#[test]
fn numbers_of_closed_subscriptions_are_given_out_again() {
    let mut bus = SharedCanBus::<IdFilter>::new();
    let a = bus.subscribe(4);
    let b = bus.subscribe(4);
    let c = bus.subscribe(4);
    bus.publish(&frame(0x181));

    // The slot of `b` is free, and `d` starts with an empty queue.
    b.close(&mut bus);
    let d = bus.subscribe(4);
    assert_eq!((a.len(&bus), c.len(&bus), d.len(&bus)), (1, 1, 0));
    bus.publish(&frame(0x182));
    assert_eq!((a.len(&bus), c.len(&bus), d.len(&bus)), (2, 2, 1));
    assert_eq!(bus.subscriber_count(), 3);

    d.close(&mut bus);
    c.close(&mut bus);
    assert_eq!(bus.subscriber_count(), 1);
    let e = bus.subscribe(4);
    assert_eq!((a.len(&bus), e.len(&bus)), (2, 0));
}

#[test]
fn frames_come_in_publish_order_whatever_is_dropped() {
    for (policy, expected) in [
        (OverflowPolicy::DropOldest, [0x102, 0x104, 0x105]),
        (OverflowPolicy::DropNewest, [0x101, 0x102, 0x104]),
    ] {
        let mut bus = SharedCanBus::<IdFilter>::new();
        let sub = bus.subscribe_with(2, policy, None);
        let mut received = Vec::new();
        for id in [0x101, 0x102, 0x103] {
            bus.publish(&frame(id));
        }
        received.push(sub.try_recv(&mut bus).unwrap().raw_id());
        for id in [0x104, 0x105] {
            bus.publish(&frame(id));
        }
        while let Some(f) = sub.try_recv(&mut bus) {
            received.push(f.raw_id());
        }
        assert_eq!(received, expected);
        assert_eq!(sub.take_overflow_count(&mut bus), 2);
    }
}

#[test]
fn tx_queue_send_try_send_pop() {
    let mut tx = TxQueue::new(2);
    assert!(tx.try_send(&frame(1)));
    assert!(tx.try_send(&frame(2)));
    assert!(!tx.try_send(&frame(3)));

    assert_eq!(tx.try_pop().unwrap().raw_id(), 1);
    assert!(tx.try_send(&frame(3)));
    assert_eq!(tx.try_pop().unwrap().raw_id(), 2);
    assert_eq!(tx.try_pop().unwrap().raw_id(), 3);
    assert!(tx.try_pop().is_none());
}

#[test]
fn overflow_count_is_taken_once() {
    let mut bus = SharedCanBus::<IdFilter>::new();
    let sub = bus.subscribe(1);
    bus.publish(&frame(0x101));
    bus.publish(&frame(0x102));
    assert_eq!(sub.take_overflow_count(&mut bus), 1);
    assert_eq!(sub.take_overflow_count(&mut bus), 0);
    assert!(!sub.is_empty(&bus));
    assert_eq!(sub.try_recv(&mut bus).unwrap().raw_id(), 0x102);
    assert!(sub.is_empty(&bus));
}

#[test]
fn default_policy_drops_the_oldest() {
    assert!(matches!(OverflowPolicy::default(), OverflowPolicy::DropOldest));
}

#[test]
fn identifier_filter_accepts_its_identifier() {
    let filter = IdFilter { id: CobId::sdo_tx(NodeId::new(0x21).unwrap()).raw() };
    assert!(filter.accepts(&frame(0x5A1)));
    assert!(!filter.accepts(&frame(0x5A2)));
}

#[test]
fn frames_arrive_in_publish_order() {
    let mut bus = SharedCanBus::<IdFilter>::new();
    let sub = bus.subscribe(8);
    for id in 0x100..0x105u16 {
        bus.publish(&frame(id));
    }
    for id in 0x100..0x105u16 {
        assert_eq!(sub.try_recv(&mut bus).unwrap().raw_id(), id);
    }
}

#[test]
fn transmit_queue_length() {
    let mut tx = TxQueue::new(2);
    assert!(tx.is_empty());
    assert!(tx.try_send(&frame(1)));
    assert_eq!(tx.len(), 1);
    assert!(!tx.is_empty());
}

#[test]
fn pump_publishes_and_transmits_in_rounds() {
    // Nothing happens: sleep
    let (mut pump, action) = Pump::start();
    assert!(matches!(action, PumpAction::Receive));
    assert!(matches!(pump.on_received(None), PumpAction::Pop));
    assert!(matches!(pump.on_popped(None, 0), PumpAction::Sleep));

    // A frame is received and another one is transmitted: no sleep
    let (mut pump, _) = Pump::start();
    assert!(matches!(pump.on_received(Some(frame(0x181))), PumpAction::Publish(f) if f.raw_id() == 0x181));
    assert!(matches!(pump.on_received(None), PumpAction::Pop));
    assert!(matches!(pump.on_popped(Some(frame(0x601)), 7), PumpAction::Transmit(f) if f.raw_id() == 0x601));
    assert!(matches!(pump.on_sent(), PumpAction::Pop));
    assert!(matches!(pump.on_popped(None, 8), PumpAction::NextRound));
}

#[test]
fn pump_gives_up_on_a_stuck_frame() {
    let (mut pump, _) = Pump::start();
    let since = 1_000;
    assert!(matches!(pump.on_popped(Some(frame(0x601)), since), PumpAction::Transmit(_)));
    assert!(matches!(pump.on_blocked(since), PumpAction::Retry(f) if f.raw_id() == 0x601));
    assert!(matches!(pump.on_blocked(since + TX_STUCK_TIMEOUT_US - 1), PumpAction::Retry(_)));
    assert!(matches!(pump.on_blocked(since + TX_STUCK_TIMEOUT_US), PumpAction::GiveUp));
}
