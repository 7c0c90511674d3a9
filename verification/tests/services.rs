//! Emergency messages, decoded events, error control and layer settings.

use canopen_core::cobid::NodeId;
use canopen_core::emcy::{build_emcy_frame, error_register, EmcyErrorCode, EmcyMessage, EmcyProducer};
use canopen_core::events::CanOpenEvent;
use canopen_core::heartbeat::{
    HeartbeatEvent, HeartbeatEventBuf, HeartbeatMonitor, HeartbeatMonitorState, HeartbeatProducer,
};
use canopen_core::lss::{LssEvent, LssIdentity, LssMode, LssSlave, LSS_REQUEST_COB};
use canopen_core::nmt::NmtState;
use canopen_core::transport::CanFrame;

fn node(id: u8) -> NodeId {
    NodeId::new(id).unwrap()
}

#[test]
fn emcy_frame_format() {
    let node = NodeId::new(5).unwrap();
    let frame = build_emcy_frame(node, 0x1000, 0x01, &[0xAA, 0xBB]);
    assert_eq!(frame.raw_id(), 0x085); // 0x80 + 5
    assert_eq!(frame.data()[0..2], [0x00, 0x10]); // error code LE
    assert_eq!(frame.data()[2], 0x01); // error register
    assert_eq!(frame.data()[3], 0xAA);
    assert_eq!(frame.data()[4], 0xBB);
}

#[test]
fn emcy_producer_set_clear() {
    let node = NodeId::new(1).unwrap();
    let mut emcy = EmcyProducer::new(node);
    assert_eq!(emcy.error_register(), 0);

    // Set error
    emcy.set_error(0x3000, error_register::VOLTAGE, &[]);
    assert_eq!(emcy.error_register(), error_register::VOLTAGE | error_register::GENERIC);
    let frame = emcy.take_pending().unwrap();
    assert_eq!(frame.raw_id(), 0x081);
    assert_eq!(frame.data()[0..2], [0x00, 0x30]); // 0x3000 LE

    // Clear specific bit: the generic bit remains
    emcy.clear_error(error_register::VOLTAGE);
    assert_eq!(emcy.error_register(), error_register::GENERIC);
    assert!(emcy.take_pending().is_none()); // not zero yet

    // Clear all
    emcy.clear_all();
    assert_eq!(emcy.error_register(), 0);
    let frame = emcy.take_pending().unwrap();
    assert_eq!(frame.data()[0..2], [0x00, 0x00]); // NoError
}

#[test]
fn emergency_message_is_parsed_back() {
    let frame = build_emcy_frame(node(9), EmcyErrorCode::HeartbeatError.code(), 0x11, &[1, 2, 3, 4, 5]);
    let msg = EmcyMessage::parse(&frame).unwrap();
    assert_eq!(msg.node, node(9));
    assert_eq!(msg.error_code, EmcyErrorCode::HeartbeatError.code());
    assert_eq!(msg.error_register, 0x11);
    assert_eq!(msg.vendor_data, [1, 2, 3, 4, 5]);
    assert!(EmcyMessage::parse(&CanFrame::new(0x080, &[0; 8]).unwrap()).is_none());
}

#[test]
fn decodes_heartbeat() {
    let f = CanFrame::new(0x721, &[0x05]).unwrap();
    assert_eq!(
        CanOpenEvent::decode(&f),
        Some(CanOpenEvent::Heartbeat { node: node(0x21), state: NmtState::Operational })
    );
    // Unknown state byte → not a valid heartbeat
    let bad = CanFrame::new(0x721, &[0x42]).unwrap();
    assert_eq!(CanOpenEvent::decode(&bad), None);
}

#[test]
fn decodes_emcy() {
    let f = build_emcy_frame(node(0x21), 0x2310, 0x02, &[0xAB]);
    match CanOpenEvent::decode(&f) {
        Some(CanOpenEvent::Emcy(msg)) => {
            assert_eq!(msg.node, node(0x21));
            assert_eq!(msg.error_code, 0x2310);
        }
        other => panic!("expected Emcy, got {other:?}"),
    }
}

#[test]
fn decodes_tpdo_with_len() {
    let f = CanFrame::new(0x1A2, &[1, 2, 3]).unwrap(); // TPDO1, node 0x22
    match CanOpenEvent::decode(&f) {
        Some(CanOpenEvent::Tpdo { pdo_num, node: n, data, len }) => {
            assert_eq!(pdo_num, 0);
            assert_eq!(n, node(0x22));
            assert_eq!(len, 3);
            assert_eq!(&data[..3], &[1, 2, 3]);
        }
        other => panic!("expected Tpdo, got {other:?}"),
    }
}

#[test]
fn decodes_sdo_response_requires_dlc8() {
    let full = CanFrame::new(0x5A1, &[0x43, 0, 0x10, 0, 0x42, 0, 0, 0]).unwrap();
    assert!(matches!(CanOpenEvent::decode(&full), Some(CanOpenEvent::SdoResponse { .. })));
    let short = CanFrame::new(0x5A1, &[0x43, 0]).unwrap();
    assert_eq!(CanOpenEvent::decode(&short), None);
}

#[test]
fn nmt_broadcast_matches_all_nodes() {
    let f = CanFrame::new(0x000, &[0x01, 0x00]).unwrap();
    let ev = CanOpenEvent::decode(&f).unwrap();
    assert!(ev.matches_node(node(1)));
    assert!(ev.matches_node(node(0x7F)));
    assert_eq!(ev.node(), None);

    let targeted = CanFrame::new(0x000, &[0x01, 0x21]).unwrap();
    let ev = CanOpenEvent::decode(&targeted).unwrap();
    assert!(ev.matches_node(node(0x21)));
    assert!(!ev.matches_node(node(0x22)));
}

#[test]
fn sync_matches_no_node() {
    let f = CanFrame::new(0x080, &[]).unwrap();
    let ev = CanOpenEvent::decode(&f).unwrap();
    assert_eq!(ev, CanOpenEvent::Sync);
    assert!(!ev.matches_node(node(1)));
}

#[test]
fn heartbeat_producer_interval() {
    let node = NodeId::new(1).unwrap();
    let mut hb = HeartbeatProducer::new(node, 100); // 100ms

    // At t=0, diff is 0 which is < 100ms, no heartbeat yet
    assert!(hb.poll(0, NmtState::PreOperational).is_none());

    // At t=100ms, first heartbeat
    let frame = hb.poll(100_000, NmtState::PreOperational).unwrap();
    assert_eq!(frame.raw_id(), 0x701);
    assert_eq!(frame.data(), &[0x7F]);

    // 50ms later - too early
    assert!(hb.poll(150_000, NmtState::PreOperational).is_none());

    // 200ms - due again
    let frame = hb.poll(200_000, NmtState::Operational).unwrap();
    assert_eq!(frame.data(), &[0x05]);
}

#[test]
fn heartbeat_producer_disabled() {
    let node = NodeId::new(1).unwrap();
    let mut hb = HeartbeatProducer::new(node, 0);
    assert!(hb.poll(0, NmtState::Operational).is_none());
    assert!(hb.poll(1_000_000, NmtState::Operational).is_none());
}

#[test]
fn boot_message_restarts_the_interval() {
    let mut hb = HeartbeatProducer::new(node(1), 100);
    let boot = hb.send_boot(50_000);
    assert_eq!(boot.data(), &[0x00]);
    assert!(hb.poll(149_999, NmtState::Operational).is_none());
    assert!(hb.poll(150_000, NmtState::Operational).is_some());
    hb.set_interval_ms(0);
    assert_eq!(hb.interval_ms(), 0);
    assert!(hb.poll(9_000_000, NmtState::Operational).is_none());
}

#[test]
fn monitor_starts_on_first_heartbeat() {
    let node = NodeId::new(5).unwrap();
    let mut m = HeartbeatMonitor::new(node, 200);
    assert_eq!(m.state(), HeartbeatMonitorState::Waiting);

    // No timeout while waiting — monitoring hasn't started
    assert!(m.check_timeout(10_000_000).is_none());
    assert_eq!(m.state(), HeartbeatMonitorState::Waiting);

    // Frames for other nodes are not ours
    let mut evts = HeartbeatEventBuf::new();
    assert!(!m.process(NodeId::new(6).unwrap(), 0x05, 1_000_000, &mut evts));
    assert!(evts.is_empty());

    // First heartbeat → Started + Alive
    assert!(m.process(node, 0x05, 1_000_000, &mut evts));
    assert_eq!(
        evts.as_slice(),
        &[HeartbeatEvent::Started { node, state: NmtState::Operational }]
    );
    assert!(m.state().is_alive());
}

#[test]
fn monitor_timeout_and_recovery() {
    let node = NodeId::new(5).unwrap();
    let mut m = HeartbeatMonitor::new(node, 200); // 200ms consumer time
    let mut evts = HeartbeatEventBuf::new();

    m.process(node, 0x05, 1_000_000, &mut evts);
    evts.clear();

    // 100ms later — still alive
    assert!(m.check_timeout(1_100_000).is_none());

    // 300ms since last — timed out (edge)
    assert_eq!(m.check_timeout(1_300_000), Some(HeartbeatEvent::Timeout { node }));
    assert!(matches!(
        m.state(),
        HeartbeatMonitorState::Timeout {
            last_nmt_state: NmtState::Operational,
            last_seen_us: 1_000_000,
            timed_out_us: 1_300_000,
        }
    ));

    // Edge does not re-trigger
    assert!(m.check_timeout(1_400_000).is_none());

    // Heartbeat resumes → Recovered, alive again
    assert!(m.process(node, 0x7F, 1_500_000, &mut evts));
    assert_eq!(
        evts.as_slice(),
        &[HeartbeatEvent::Recovered { node, state: NmtState::PreOperational }]
    );
    assert!(m.state().is_alive());
}

#[test]
fn monitor_state_change_and_remote_reset() {
    let node = NodeId::new(5).unwrap();
    let mut m = HeartbeatMonitor::new(node, 200);
    let mut evts = HeartbeatEventBuf::new();

    m.process(node, 0x7F, 1_000_000, &mut evts); // PreOperational
    evts.clear();

    // Same state → no event, refreshes liveness
    m.process(node, 0x7F, 1_100_000, &mut evts);
    assert!(evts.is_empty());

    // PreOperational → Operational
    m.process(node, 0x05, 1_200_000, &mut evts);
    assert_eq!(
        evts.as_slice(),
        &[HeartbeatEvent::StateChanged {
            node,
            old: NmtState::PreOperational,
            new: NmtState::Operational,
        }]
    );
    evts.clear();

    // Boot-up after Operational → StateChanged + RemoteReset
    m.process(node, 0x00, 1_300_000, &mut evts);
    assert_eq!(
        evts.as_slice(),
        &[
            HeartbeatEvent::StateChanged {
                node,
                old: NmtState::Operational,
                new: NmtState::Initializing,
            },
            HeartbeatEvent::RemoteReset { node },
        ]
    );
}

#[test]
fn monitor_reset_during_timeout_reports_remote_reset() {
    let node = NodeId::new(5).unwrap();
    let mut m = HeartbeatMonitor::new(node, 100);
    let mut evts = HeartbeatEventBuf::new();

    m.process(node, 0x05, 1_000_000, &mut evts);
    assert_eq!(m.check_timeout(2_000_000), Some(HeartbeatEvent::Timeout { node }));
    evts.clear();

    // Boot-up while timed out: the reset likely caused the silence
    m.process(node, 0x00, 2_500_000, &mut evts);
    assert_eq!(
        evts.as_slice(),
        &[
            HeartbeatEvent::Recovered { node, state: NmtState::Initializing },
            HeartbeatEvent::RemoteReset { node },
        ]
    );
}

#[test]
fn monitor_ignores_unknown_state_bytes() {
    let node = NodeId::new(5).unwrap();
    let mut m = HeartbeatMonitor::new(node, 200);
    let mut evts = HeartbeatEventBuf::new();

    // Unknown byte while waiting: claimed, but monitoring does not start
    assert!(m.process(node, 0xFF, 1_000_000, &mut evts));
    assert!(evts.is_empty());
    assert_eq!(m.state(), HeartbeatMonitorState::Waiting);
}

fn test_identity() -> LssIdentity {
    LssIdentity {
        vendor_id: 0xCAFE,
        product_code: 0x0001,
        revision: 0x00010000,
        serial: 0x00000001,
    }
}

fn identity_request(cs: u8, value: u32) -> CanFrame {
    let mut d = [0u8; 8];
    d[0] = cs;
    d[1..5].copy_from_slice(&value.to_le_bytes());
    CanFrame::new(LSS_REQUEST_COB, &d).unwrap()
}

#[test]
fn switch_mode_global() {
    let mut lss = LssSlave::new(test_identity(), 1);
    assert_eq!(lss.mode(), LssMode::Waiting);

    // Switch to configuration
    let req = CanFrame::new(LSS_REQUEST_COB, &[0x04, 0x01, 0, 0, 0, 0, 0, 0]).unwrap();
    assert!(lss.process(&req).is_none()); // no response
    assert_eq!(lss.mode(), LssMode::Configuration);

    // Switch back to waiting
    let req = CanFrame::new(LSS_REQUEST_COB, &[0x04, 0x00, 0, 0, 0, 0, 0, 0]).unwrap();
    lss.process(&req);
    assert_eq!(lss.mode(), LssMode::Waiting);
}

#[test]
fn selective_switch_by_identity() {
    let mut lss = LssSlave::new(test_identity(), 1);

    // Send matching identity fields
    let vendor = identity_request(0x40, 0xCAFE);
    let product = identity_request(0x41, 0x0001);
    let revision = identity_request(0x42, 0x00010000);
    let serial = identity_request(0x43, 0x00000001);

    assert!(lss.process(&vendor).is_none());
    assert!(lss.process(&product).is_none());
    assert!(lss.process(&revision).is_none());
    let resp = lss.process(&serial).unwrap();
    assert_eq!(resp.data()[0], 0x44); // switch state response
    assert_eq!(lss.mode(), LssMode::Configuration);
}

#[test]
fn selective_switch_wrong_serial() {
    let mut lss = LssSlave::new(test_identity(), 1);

    let vendor = identity_request(0x40, 0xCAFE);
    let product = identity_request(0x41, 0x0001);
    let revision = identity_request(0x42, 0x00010000);
    // Wrong serial
    let serial = identity_request(0x43, 0x99999999);

    lss.process(&vendor);
    lss.process(&product);
    lss.process(&revision);
    assert!(lss.process(&serial).is_none());
    assert_eq!(lss.mode(), LssMode::Waiting);
}

#[test]
fn configure_node_id() {
    let mut lss = LssSlave::new(test_identity(), 1);
    // Enter configuration
    let switch = CanFrame::new(LSS_REQUEST_COB, &[0x04, 0x01, 0, 0, 0, 0, 0, 0]).unwrap();
    lss.process(&switch);

    // Configure node ID = 5
    let cfg = CanFrame::new(LSS_REQUEST_COB, &[0x11, 5, 0, 0, 0, 0, 0, 0]).unwrap();
    let resp = lss.process(&cfg).unwrap();
    assert_eq!(resp.data()[0], 0x11); // configure node ID response
    assert_eq!(resp.data()[1], 0); // success
    assert_eq!(lss.node_id(), 5);

    let evt = lss.take_event().unwrap();
    assert!(matches!(evt, LssEvent::NodeIdConfigured(5)));
}

#[test]
fn configure_node_id_invalid() {
    let mut lss = LssSlave::new(test_identity(), 1);
    let switch = CanFrame::new(LSS_REQUEST_COB, &[0x04, 0x01, 0, 0, 0, 0, 0, 0]).unwrap();
    lss.process(&switch);

    // ID 0 is invalid (not 1-127 or 0xFF)
    let cfg = CanFrame::new(LSS_REQUEST_COB, &[0x11, 0, 0, 0, 0, 0, 0, 0]).unwrap();
    let resp = lss.process(&cfg).unwrap();
    assert_eq!(resp.data()[1], 1); // error: out of range
    assert_eq!(lss.node_id(), 1); // unchanged
}

#[test]
fn inquire_identity() {
    let mut lss = LssSlave::new(test_identity(), 42);
    let switch = CanFrame::new(LSS_REQUEST_COB, &[0x04, 0x01, 0, 0, 0, 0, 0, 0]).unwrap();
    lss.process(&switch);

    let req = CanFrame::new(LSS_REQUEST_COB, &[0x5A, 0, 0, 0, 0, 0, 0, 0]).unwrap();
    let resp = lss.process(&req).unwrap();
    assert_eq!(resp.data()[0], 0x5A);
    assert_eq!(u32::from_le_bytes(resp.data()[1..5].try_into().unwrap()), 0xCAFE);

    let req = CanFrame::new(LSS_REQUEST_COB, &[0x5E, 0, 0, 0, 0, 0, 0, 0]).unwrap();
    let resp = lss.process(&req).unwrap();
    assert_eq!(resp.data()[0], 0x5E);
    assert_eq!(resp.data()[1], 42);
}

#[test]
fn waiting_slave_keeps_silent() {
    let mut lss = LssSlave::new(LssIdentity::default(), 3);
    let cfg = CanFrame::new(LSS_REQUEST_COB, &[0x11, 5, 0, 0, 0, 0, 0, 0]).unwrap();
    assert!(lss.process(&cfg).is_none());
    assert_eq!(lss.node_id(), 3);
    assert!(lss.take_event().is_none());
}
