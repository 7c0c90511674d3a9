//! Identifiers, frames and network management.

use canopen_core::cobid::{CobId, NodeId, ParsedCobId};
use canopen_core::datatypes::DataType;
use canopen_core::nmt::{NmtCommand, NmtHandler, NmtState, NmtTransition};
use canopen_core::sync::{SyncConsumer, SyncProducer};
use canopen_core::transport::{CanError, CanFrame, MailboxTransport};

#[test]
fn node_id_range() {
    assert!(NodeId::new(0).is_none());
    assert!(NodeId::new(1).is_some());
    assert!(NodeId::new(127).is_some());
    assert!(NodeId::new(128).is_none());
}

#[test]
fn cobid_parse_roundtrip() {
    let node = NodeId::new(5).unwrap();
    assert_eq!(CobId::heartbeat(node).parse(), ParsedCobId::Heartbeat(node));
    assert_eq!(CobId::sdo_rx(node).parse(), ParsedCobId::SdoRequest(node));
    assert_eq!(CobId::sdo_tx(node).parse(), ParsedCobId::SdoResponse(node));
    assert_eq!(CobId::tpdo(2, node).parse(), ParsedCobId::Tpdo { pdo_num: 2, node });
    assert_eq!(CobId::rpdo(1, node).parse(), ParsedCobId::Rpdo { pdo_num: 1, node });
    assert_eq!(CobId::nmt().parse(), ParsedCobId::Nmt);
    assert_eq!(CobId::sync().parse(), ParsedCobId::Sync);
}

#[test]
fn cobid_raw_values() {
    let node = NodeId::new(1).unwrap();
    assert_eq!(CobId::heartbeat(node).raw(), 0x701);
    assert_eq!(CobId::sdo_rx(node).raw(), 0x601);
    assert_eq!(CobId::sdo_tx(node).raw(), 0x581);
    assert_eq!(CobId::tpdo(0, node).raw(), 0x181);
    assert_eq!(CobId::rpdo(0, node).raw(), 0x201);
}

#[test]
fn cobid_limits() {
    assert_eq!(CobId::new(0x7FF).unwrap().raw(), 0x7FF);
    assert!(CobId::new(0x800).is_none());
    assert_eq!(CobId::new(0x123).unwrap().to_standard_id().as_raw(), 0x123);
    assert_eq!(CobId::new(0x7E5).unwrap().parse(), ParsedCobId::Unknown(0x7E5));
    assert_eq!(
        CobId::emergency(NodeId::new(7).unwrap()).parse(),
        ParsedCobId::Emergency(NodeId::new(7).unwrap())
    );
}

#[test]
fn nmt_boot_sequence() {
    let mut nmt = NmtHandler::new();
    assert_eq!(nmt.state(), NmtState::Initializing);
    nmt.boot_complete();
    assert_eq!(nmt.state(), NmtState::PreOperational);
}

#[test]
fn nmt_commands() {
    let node = NodeId::new(5).unwrap();
    let mut nmt = NmtHandler::new();
    nmt.boot_complete();

    // Start (broadcast)
    assert_eq!(
        nmt.process_command(NmtCommand::StartRemoteNode, 0, node),
        NmtTransition::StateChanged
    );
    assert_eq!(nmt.state(), NmtState::Operational);

    // Stop (addressed)
    assert_eq!(
        nmt.process_command(NmtCommand::StopRemoteNode, 5, node),
        NmtTransition::StateChanged
    );
    assert_eq!(nmt.state(), NmtState::Stopped);

    // Wrong target - no change
    assert_eq!(
        nmt.process_command(NmtCommand::StartRemoteNode, 3, node),
        NmtTransition::NoChange
    );
    assert_eq!(nmt.state(), NmtState::Stopped);

    // ResetNode
    assert_eq!(
        nmt.process_command(NmtCommand::ResetNode, 0, node),
        NmtTransition::ResetApplication
    );
    assert_eq!(nmt.state(), NmtState::Initializing);

    // ResetCommunication
    nmt.boot_complete();
    assert_eq!(
        nmt.process_command(NmtCommand::ResetCommunication, 0, node),
        NmtTransition::ResetCommunication
    );
    assert_eq!(nmt.state(), NmtState::Initializing);
}

#[test]
fn heartbeat_bytes() {
    assert_eq!(NmtState::Initializing.heartbeat_byte(), 0x00);
    assert_eq!(NmtState::Stopped.heartbeat_byte(), 0x04);
    assert_eq!(NmtState::Operational.heartbeat_byte(), 0x05);
    assert_eq!(NmtState::PreOperational.heartbeat_byte(), 0x7F);
}

#[test]
fn heartbeat_byte_roundtrip() {
    for state in [
        NmtState::Initializing,
        NmtState::Stopped,
        NmtState::Operational,
        NmtState::PreOperational,
    ] {
        assert_eq!(NmtState::from_heartbeat_byte(state.heartbeat_byte()), Some(state));
    }
    assert_eq!(NmtState::from_heartbeat_byte(0xFF), None);
}

#[test]
fn nmt_command_to_frame() {
    let frame = NmtCommand::StartRemoteNode.to_frame(0);
    assert_eq!(frame.data(), &[0x01, 0x00]);
    assert_eq!(frame.raw_id(), embedded_can::StandardId::new(0).unwrap().as_raw());

    let frame = NmtCommand::ResetNode.to_frame(5);
    assert_eq!(frame.data(), &[0x81, 0x05]);
}

#[test]
fn nmt_command_roundtrip() {
    for &cmd in &[
        NmtCommand::StartRemoteNode,
        NmtCommand::StopRemoteNode,
        NmtCommand::EnterPreOperational,
        NmtCommand::ResetNode,
        NmtCommand::ResetCommunication,
    ] {
        assert_eq!(NmtCommand::from_byte(cmd.to_byte()), Some(cmd));
    }
    assert_eq!(NmtCommand::from_byte(0x03), None);
}

#[test]
fn canframe_basic() {
    let f = CanFrame::new(0x601, &[0x40, 0x00, 0x10, 0x00, 0, 0, 0, 0]).unwrap();
    assert_eq!(f.raw_id(), 0x601);
    assert_eq!(f.raw_dlc(), 8);
    assert_eq!(f.data(), &[0x40, 0x00, 0x10, 0x00, 0, 0, 0, 0]);
}

#[test]
fn canframe_rejects_invalid() {
    assert!(CanFrame::new(0x800, &[]).is_none());
    assert!(CanFrame::new(0x100, &[0; 9]).is_none());
}

#[test]
fn mailbox_transport() {
    let mut mbox = MailboxTransport::<4, 4>::new();
    let frame = CanFrame::new(0x701, &[0x05]).unwrap();

    mbox.transmit(&frame).unwrap();
    // Retrieve from driver side
    let tx = mbox.next_to_transmit().unwrap();
    assert_eq!(tx.raw_id(), 0x701);

    // Store from driver side
    mbox.store_received(frame).unwrap();
    let rx = mbox.receive().unwrap();
    assert_eq!(rx.raw_id(), 0x701);

    // Nothing more to receive
    assert!(mbox.receive().is_none());
}

#[test]
fn full_mailbox_refuses_frames() {
    let mut mbox = MailboxTransport::<1, 1>::new();
    let frame = CanFrame::new(0x701, &[0x05]).unwrap();
    mbox.transmit(&frame).unwrap();
    assert!(matches!(mbox.transmit(&frame), Err(CanError::TxBufferFull)));
    mbox.store_received(frame).unwrap();
    assert!(mbox.store_received(frame).is_err());
}

#[test]
fn data_type_codes() {
    assert_eq!(DataType::U24.code(), 0x0016);
    assert_eq!(DataType::from_code(0x0016), Some(DataType::U24));
    assert_eq!(DataType::from_code(0x0002), Some(DataType::I8));
    assert_eq!(DataType::from_code(0x1234), None);
    assert_eq!(DataType::I24.size(), Some(3));
    assert_eq!(DataType::Domain.size(), None);
}

#[test]
fn sync_is_produced_and_counted() {
    let mut producer = SyncProducer::new(1_000, true);
    assert!(producer.poll(999).is_none());
    let first = producer.poll(1_000).unwrap();
    assert_eq!(first.raw_id(), 0x080);
    assert_eq!(first.data(), &[1]);
    assert!(producer.poll(1_500).is_none());
    assert_eq!(producer.poll(2_000).unwrap().data(), &[2]);

    let mut consumer = SyncConsumer::new();
    assert_eq!(consumer.process(&first), Some(1));
    assert!(consumer.process(&CanFrame::new(0x181, &[]).unwrap()).is_none());
}

#[test]
fn sync_without_counter_is_empty() {
    let mut producer = SyncProducer::new(1_000, false);
    assert_eq!(producer.poll(5_000).unwrap().raw_dlc(), 0);
}
