//! The SDO server.

use canopen_core::cobid::NodeId;
use canopen_core::datatypes::DataType;
use canopen_core::nmt::NmtState;
use canopen_core::od::{
    AccessType, ObjectDictionary, OdContents, OdEntryMeta, OdError, OdEvent, OdEventSource,
};
use canopen_core::queue::BoundedQueue;
use canopen_core::sdo::protocol::{command_specifier, AbortCode, Ccs, Scs};
use canopen_core::sdo::server::{crc16_ccitt_update, SdoServer};

/// Simple test OD with a few entries.
struct TestOd {
    device_type: u32,
    error_register: u8,
    writable_u16: u16,
    long_data: [u8; 20],
    big_data: [u8; 400],
    big_data_len: usize,
}

impl TestOd {
    fn new() -> Self {
        Self {
            device_type: 0x0000_0191,
            error_register: 0,
            writable_u16: 0x1234,
            long_data: [0xAA; 20],
            big_data: [0; 400],
            big_data_len: 0,
        }
    }
}

fn meta(
    index: u16,
    data_type: DataType,
    access: AccessType,
    name: &str,
    max_size: Option<u16>,
) -> OdEntryMeta {
    OdEntryMeta {
        index,
        subindex: 0,
        data_type,
        access,
        pdo_mappable: false,
        name: String::from(name),
        max_size,
    }
}

impl OdContents for TestOd {}

impl ObjectDictionary for TestOd {
    type Contents = TestOd;

    fn lookup(&self, index: u16, subindex: u8) -> Option<OdEntryMeta> {
        match (index, subindex) {
            (0x1000, 0) => Some(meta(0x1000, DataType::U32, AccessType::Ro, "device_type", None)),
            (0x1001, 0) => Some(meta(0x1001, DataType::U8, AccessType::Ro, "error_register", None)),
            (0x2000, 0) => Some(meta(0x2000, DataType::U16, AccessType::Rw, "writable_u16", None)),
            (0x2001, 0) => Some(meta(0x2001, DataType::OctetString, AccessType::Rw, "long_data", None)),
            (0x2002, 0) => {
                Some(meta(0x2002, DataType::OctetString, AccessType::Rw, "big_data", Some(400)))
            }
            _ => None,
        }
    }

    fn read(&self, index: u16, subindex: u8, buf: &mut [u8]) -> Result<usize, OdError> {
        match (index, subindex) {
            (0x1000, 0) => {
                buf[..4].copy_from_slice(&self.device_type.to_le_bytes());
                Ok(4)
            }
            (0x1001, 0) => {
                buf[0] = self.error_register;
                Ok(1)
            }
            (0x2000, 0) => {
                buf[..2].copy_from_slice(&self.writable_u16.to_le_bytes());
                Ok(2)
            }
            (0x2001, 0) => {
                buf[..20].copy_from_slice(&self.long_data);
                Ok(20)
            }
            (0x2002, 0) => {
                buf[..self.big_data_len].copy_from_slice(&self.big_data[..self.big_data_len]);
                Ok(self.big_data_len)
            }
            _ => Err(OdError::NotFound),
        }
    }

    fn write(&mut self, index: u16, subindex: u8, data: &[u8]) -> Result<(), OdError> {
        match (index, subindex) {
            (0x1000, 0) | (0x1001, 0) => Err(OdError::ReadOnly),
            (0x2000, 0) => {
                if data.len() != 2 {
                    return Err(OdError::DataTypeMismatch);
                }
                self.writable_u16 = u16::from_le_bytes([data[0], data[1]]);
                Ok(())
            }
            (0x2001, 0) => {
                if data.len() > 20 {
                    return Err(OdError::ValueTooLong);
                }
                self.long_data[..data.len()].copy_from_slice(data);
                Ok(())
            }
            (0x2002, 0) => {
                if data.len() > 400 {
                    return Err(OdError::ValueTooLong);
                }
                self.big_data[..data.len()].copy_from_slice(data);
                self.big_data_len = data.len();
                Ok(())
            }
            _ => Err(OdError::NotFound),
        }
    }

    fn validate_write(&self, _: u16, _: u8, _: &[u8]) -> Result<(), OdError> {
        Ok(())
    }

    fn sub_count(&self, _index: u16) -> Option<u8> {
        Some(0)
    }

    fn store_sdo_server_cob_ids(&mut self, _: NodeId) {}
}

#[test]
fn expedited_upload() {
    let mut server = SdoServer::new();
    let mut od = TestOd::new();
    let mut resp = [0u8; 8];

    // Initiate upload for 0x1000:0 (device_type, u32)
    let req = [0x40, 0x00, 0x10, 0x00, 0, 0, 0, 0]; // CCS=2
    let mut events: BoundedQueue<OdEvent, 16> = BoundedQueue::new();
    server
        .process(&req, &mut od, &mut resp, &mut events, NmtState::Operational, 0)
        .unwrap();

    // Should be expedited response with 4 bytes
    assert_eq!(
        command_specifier(resp[0]),
        Scs::InitiateUploadResponse as u8
    );
    assert!(resp[0] & 0x02 != 0); // expedited
    assert_eq!(resp[4..8], 0x0000_0191u32.to_le_bytes());
}

#[test]
fn expedited_download() {
    let mut server = SdoServer::new();
    let mut od = TestOd::new();
    let mut resp = [0u8; 8];

    // Write 0xABCD to 0x2000:0
    // CCS=1, n=2 (2 unused bytes), e=1, s=1
    let req = [0x2B, 0x00, 0x20, 0x00, 0xCD, 0xAB, 0x00, 0x00];
    let mut events: BoundedQueue<OdEvent, 16> = BoundedQueue::new();
    server
        .process(&req, &mut od, &mut resp, &mut events, NmtState::Operational, 0)
        .unwrap();

    assert_eq!(
        command_specifier(resp[0]),
        Scs::InitiateDownloadResponse as u8
    );
    assert_eq!(od.writable_u16, 0xABCD);

    // Should have generated an event
    let evt = events.pop_front().unwrap();
    assert_eq!(evt.index, 0x2000);
    assert_eq!(evt.subindex, 0);
    assert_eq!(evt.source, OdEventSource::Sdo);
}

#[test]
fn upload_read_only_write_rejected() {
    let mut server = SdoServer::new();
    let mut od = TestOd::new();
    let mut resp = [0u8; 8];

    // Try to write to 0x1000:0 (read-only)
    let req = [0x23, 0x00, 0x10, 0x00, 0x00, 0x00, 0x00, 0x00];
    let mut events: BoundedQueue<OdEvent, 16> = BoundedQueue::new();
    server
        .process(&req, &mut od, &mut resp, &mut events, NmtState::Operational, 0)
        .unwrap();

    assert_eq!(command_specifier(resp[0]), Scs::AbortTransfer as u8);
    let code = u32::from_le_bytes([resp[4], resp[5], resp[6], resp[7]]);
    assert_eq!(code, AbortCode::ReadOnlyObject.to_u32());
}

#[test]
fn object_not_found() {
    let mut server = SdoServer::new();
    let mut od = TestOd::new();
    let mut resp = [0u8; 8];

    let req = [0x40, 0xFF, 0xFF, 0x00, 0, 0, 0, 0];
    let mut events: BoundedQueue<OdEvent, 16> = BoundedQueue::new();
    server
        .process(&req, &mut od, &mut resp, &mut events, NmtState::Operational, 0)
        .unwrap();

    assert_eq!(command_specifier(resp[0]), Scs::AbortTransfer as u8);
    let code = u32::from_le_bytes([resp[4], resp[5], resp[6], resp[7]]);
    assert_eq!(code, AbortCode::ObjectNotFound.to_u32());
}

#[test]
fn segmented_upload() {
    let mut server = SdoServer::new();
    let mut od = TestOd::new();
    let mut resp = [0u8; 8];

    // Initiate upload for 0x2001:0 (20-byte octet string)
    let req = [0x40, 0x01, 0x20, 0x00, 0, 0, 0, 0];
    let mut events: BoundedQueue<OdEvent, 16> = BoundedQueue::new();
    server
        .process(&req, &mut od, &mut resp, &mut events, NmtState::Operational, 0)
        .unwrap();

    // Should be segmented initiate response
    assert_eq!(
        command_specifier(resp[0]),
        Scs::InitiateUploadResponse as u8
    );
    assert_eq!(resp[0] & 0x02, 0); // not expedited
    let size = u32::from_le_bytes([resp[4], resp[5], resp[6], resp[7]]);
    assert_eq!(size, 20);

    // Read segments
    let mut all_data = [0u8; 20];
    let mut offset = 0;
    let mut toggle = false;

    loop {
        let seg_req = [
            (Ccs::UploadSegment as u8) << 5 | if toggle { 0x10 } else { 0 },
            0,
            0,
            0,
            0,
            0,
            0,
            0,
        ];
        server
            .process(&seg_req, &mut od, &mut resp, &mut events, NmtState::Operational, 0)
            .unwrap();

        let scs = command_specifier(resp[0]);
        assert_eq!(scs, Scs::UploadSegmentResponse as u8);

        let n = ((resp[0] >> 1) & 0x07) as usize;
        let last = (resp[0] & 0x01) != 0;
        let seg_len = 7 - n;

        all_data[offset..offset + seg_len].copy_from_slice(&resp[1..1 + seg_len]);
        offset += seg_len;
        toggle = !toggle;

        if last {
            break;
        }
    }

    assert_eq!(offset, 20);
    assert_eq!(all_data, [0xAA; 20]);
}

#[test]
fn pdo_config_write_rejected_in_operational() {
    let mut server = SdoServer::new();
    let mut od = TestOd::new();
    let mut resp = [0u8; 8];

    // Try to write to 0x1800:01 (TPDO comm param) while Operational
    let req = [0x23, 0x00, 0x18, 0x01, 0x81, 0x01, 0x00, 0x00];
    let mut events: BoundedQueue<OdEvent, 16> = BoundedQueue::new();
    server
        .process(&req, &mut od, &mut resp, &mut events, NmtState::Operational, 0)
        .unwrap();

    assert_eq!(command_specifier(resp[0]), Scs::AbortTransfer as u8);
    let code = u32::from_le_bytes([resp[4], resp[5], resp[6], resp[7]]);
    assert_eq!(code, AbortCode::DataTransferDeviceState.to_u32());
}

#[test]
fn pdo_config_write_allowed_in_preoperational() {
    let mut server = SdoServer::new();
    let mut od = TestOd::new();
    let mut resp = [0u8; 8];

    // Same write to 0x1800:01 but in PreOperational — should not abort
    // (will get ObjectNotFound since TestOd doesn't have 0x1800, but that's OK —
    // the point is it's not rejected by the PDO config guard)
    let req = [0x23, 0x00, 0x18, 0x01, 0x81, 0x01, 0x00, 0x00];
    let mut events: BoundedQueue<OdEvent, 16> = BoundedQueue::new();
    server
        .process(&req, &mut od, &mut resp, &mut events, NmtState::PreOperational, 0)
        .unwrap();

    let code = u32::from_le_bytes([resp[4], resp[5], resp[6], resp[7]]);
    // Should be ObjectNotFound (OD doesn't have 0x1800), NOT DataTransferDeviceState
    assert_eq!(code, AbortCode::ObjectNotFound.to_u32());
}

#[test]
fn sdo_timeout_aborts_stale_transfer() {
    let mut server = SdoServer::new();
    let mut od = TestOd::new();
    let mut resp = [0u8; 8];

    // Initiate segmented upload for 20-byte entry
    let req = [0x40, 0x01, 0x20, 0x00, 0, 0, 0, 0];
    let mut events: BoundedQueue<OdEvent, 16> = BoundedQueue::new();
    server
        .process(&req, &mut od, &mut resp, &mut events, NmtState::Operational, 1_000_000)
        .unwrap();

    // Transfer is now in progress. Check timeout before 5s — should be None
    assert!(server.check_timeout(3_000_000).is_none());

    // Check timeout after 5s — should abort
    let abort = server.check_timeout(7_000_000).unwrap();
    assert_eq!(command_specifier(abort[0]), Scs::AbortTransfer as u8);
    let code = u32::from_le_bytes([abort[4], abort[5], abort[6], abort[7]]);
    assert_eq!(code, AbortCode::SdoProtocolTimeout.to_u32());

    // Transfer should be cleared
    assert!(server.check_timeout(10_000_000).is_none());
}

#[test]
fn block_download_rejects_out_of_sequence_segment() {
    let mut server = SdoServer::new();
    let mut od = TestOd::new();
    let mut resp = [0u8; 8];
    let mut events: BoundedQueue<OdEvent, 16> = BoundedQueue::new();

    // Initiate block download to 0x2001:0 with a 7-byte size.
    let init_req = [0xC2, 0x01, 0x20, 0x00, 7, 0, 0, 0];
    server
        .process(&init_req, &mut od, &mut resp, &mut events, NmtState::PreOperational, 0)
        .unwrap();
    assert_eq!(resp[0], 0xA4);

    // First block segment must have seqno 1. Starting at 2 should abort.
    let bad_segment = [0x82, 1, 2, 3, 4, 5, 6, 7];
    server
        .process(&bad_segment, &mut od, &mut resp, &mut events, NmtState::PreOperational, 1)
        .unwrap();

    assert_eq!(command_specifier(resp[0]), Scs::AbortTransfer as u8);
    let code = u32::from_le_bytes([resp[4], resp[5], resp[6], resp[7]]);
    assert_eq!(code, AbortCode::InvalidSequenceNumber.to_u32());
    // Abort must be addressed to the active transfer, not 0x0000:00.
    assert_eq!(u16::from_le_bytes([resp[1], resp[2]]), 0x2001);
    assert_eq!(resp[3], 0);
}

#[test]
fn block_download_rejects_declared_size_mismatch() {
    let mut server = SdoServer::new();
    let mut od = TestOd::new();
    let mut resp = [0u8; 8];
    let mut events: BoundedQueue<OdEvent, 16> = BoundedQueue::new();

    // Declare an 8-byte block download to 0x2001:0.
    let init_req = [0xC2, 0x01, 0x20, 0x00, 8, 0, 0, 0];
    server
        .process(&init_req, &mut od, &mut resp, &mut events, NmtState::PreOperational, 0)
        .unwrap();
    assert_eq!(resp[0], 0xA4);

    // Send only 7 bytes and mark this as the final segment.
    let last_segment = [0x81, 1, 2, 3, 4, 5, 6, 7];
    server
        .process(&last_segment, &mut od, &mut resp, &mut events, NmtState::PreOperational, 1)
        .unwrap();
    assert_eq!(resp[0], (5 << 5) | 0x02, "sub-block ACK");

    // End block download should abort because actual length != declared length.
    let end_req = [0xC1, 0, 0, 0, 0, 0, 0, 0];
    server
        .process(&end_req, &mut od, &mut resp, &mut events, NmtState::PreOperational, 2)
        .unwrap();

    assert_eq!(command_specifier(resp[0]), Scs::AbortTransfer as u8);
    let code = u32::from_le_bytes([resp[4], resp[5], resp[6], resp[7]]);
    assert_eq!(code, AbortCode::DataTransferError.to_u32());
}

#[test]
fn block_download_rejects_invalid_unused_byte_count() {
    let mut server = SdoServer::new();
    let mut od = TestOd::new();
    let mut resp = [0u8; 8];
    let mut events: BoundedQueue<OdEvent, 16> = BoundedQueue::new();

    // Initiate block download without size indication and without CRC,
    // so neither existing check can catch the truncation.
    let init_req = [0xC0, 0x01, 0x20, 0x00, 0, 0, 0, 0];
    server
        .process(&init_req, &mut od, &mut resp, &mut events, NmtState::PreOperational, 0)
        .unwrap();
    assert_eq!(resp[0], 0xA4);

    // One final 7-byte segment.
    let segment = [0x81, 1, 2, 3, 4, 5, 6, 7];
    server
        .process(&segment, &mut od, &mut resp, &mut events, NmtState::PreOperational, 1)
        .unwrap();
    assert_eq!(resp[0], (5 << 5) | 0x02);

    // n_unused=7 is invalid for block download; only 0..=6 can be valid.
    let end_req = [0xC1 | (7 << 2), 0, 0, 0, 0, 0, 0, 0];
    server
        .process(&end_req, &mut od, &mut resp, &mut events, NmtState::PreOperational, 2)
        .unwrap();

    assert_eq!(command_specifier(resp[0]), Scs::AbortTransfer as u8);
    let code = u32::from_le_bytes([resp[4], resp[5], resp[6], resp[7]]);
    // CiA 301 prescribes no abort code for an invalid n; this is our
    // implementation's choice, asserted to pin it down.
    assert_eq!(code, AbortCode::DataTransferError.to_u32());

    // The malformed end frame must not silently truncate and write data.
    assert_eq!(od.long_data, [0xAA; 20]);
}

#[test]
fn block_download_roundtrip_completes() {
    let mut server = SdoServer::new();
    let mut od = TestOd::new();
    let mut resp = [0u8; 8];
    let mut events: BoundedQueue<OdEvent, 16> = BoundedQueue::new();

    // Initiate block download to 0x2001:0, 7 bytes, size indicated.
    let init_req = [0xC2, 0x01, 0x20, 0x00, 7, 0, 0, 0];
    server
        .process(&init_req, &mut od, &mut resp, &mut events, NmtState::PreOperational, 0)
        .unwrap();
    assert_eq!(resp[0], 0xA4);

    // Single final segment, seqno 1, 7 data bytes.
    let segment = [0x81, 1, 2, 3, 4, 5, 6, 7];
    server
        .process(&segment, &mut od, &mut resp, &mut events, NmtState::PreOperational, 1)
        .unwrap();
    assert_eq!(resp[0], (5 << 5) | 0x02, "sub-block ACK expected");
    assert_eq!(resp[1], 1, "ackseq");

    // End block download (0xC1, n=0) must be routed to the end handler,
    // not misread as a data segment.
    let end_req = [0xC1, 0, 0, 0, 0, 0, 0, 0];
    server
        .process(&end_req, &mut od, &mut resp, &mut events, NmtState::PreOperational, 2)
        .unwrap();
    assert_eq!(
        resp[0],
        (5 << 5) | 0x01,
        "end block ACK expected, got {:#04x} (abort code {:#010x})",
        resp[0],
        u32::from_le_bytes([resp[4], resp[5], resp[6], resp[7]])
    );
    assert_eq!(&od.long_data[..7], &[1, 2, 3, 4, 5, 6, 7]);
    // Transfer is finished.
    assert!(server.check_timeout(10_000_000).is_none());
}

#[test]
fn block_download_with_more_than_31_segments_completes() {
    let mut server = SdoServer::new();
    let mut od = TestOd::new();
    let mut resp = [0u8; 8];
    let mut events: BoundedQueue<OdEvent, 16> = BoundedQueue::new();

    // 40 segments * 7 bytes = 280 bytes; seqno crosses 31 (where byte 0
    // no longer has command specifier 0) and 64/96 (aliasing other CCS
    // values), which previously misdispatched mid-block segments.
    let total: usize = 280;
    let mut payload = [0u8; 280];
    for (i, b) in payload.iter_mut().enumerate() {
        *b = (i % 251) as u8;
    }

    let init_req = [0xC2, 0x02, 0x20, 0x00, 24, 1, 0, 0]; // 280 LE
    server
        .process(&init_req, &mut od, &mut resp, &mut events, NmtState::PreOperational, 0)
        .unwrap();
    assert_eq!(resp[0], 0xA4);

    for seg in 0..40u8 {
        let seqno = seg + 1;
        let is_last = seqno == 40;
        let mut frame = [0u8; 8];
        frame[0] = seqno | if is_last { 0x80 } else { 0 };
        frame[1..8].copy_from_slice(&payload[seg as usize * 7..seg as usize * 7 + 7]);
        let result = server.process(&frame, &mut od, &mut resp, &mut events, NmtState::PreOperational, seqno as u64);
        if is_last {
            assert_eq!(result, Ok(()), "final segment must be ACKed");
            assert_eq!(
                resp[0],
                (5 << 5) | 0x02,
                "sub-block ACK, got {:#04x}",
                resp[0]
            );
            assert_eq!(resp[1], 40, "ackseq");
        } else {
            assert_eq!(
                result,
                Err(()),
                "segment {seqno} must be consumed silently, got response {:#04x}",
                resp[0]
            );
        }
    }

    let end_req = [0xC1, 0, 0, 0, 0, 0, 0, 0];
    server
        .process(&end_req, &mut od, &mut resp, &mut events, NmtState::PreOperational, 100)
        .unwrap();
    assert_eq!(resp[0], (5 << 5) | 0x01, "end block ACK");
    assert_eq!(od.big_data_len, total);
    assert_eq!(&od.big_data[..total], &payload[..]);
}

#[test]
fn block_download_abort_frame_cancels_transfer() {
    let mut server = SdoServer::new();
    let mut od = TestOd::new();
    let mut resp = [0u8; 8];
    let mut events: BoundedQueue<OdEvent, 16> = BoundedQueue::new();

    let init_req = [0xC2, 0x01, 0x20, 0x00, 14, 0, 0, 0];
    server
        .process(&init_req, &mut od, &mut resp, &mut events, NmtState::PreOperational, 0)
        .unwrap();

    // Client abort (byte 0 == 0x80) mid-transfer: no response, state cleared.
    let abort = [0x80, 0x01, 0x20, 0x00, 0, 0, 4, 5];
    let result = server.process(&abort, &mut od, &mut resp, &mut events, NmtState::PreOperational, 1);
    assert_eq!(result, Err(()));
    assert!(
        server.check_timeout(10_000_000).is_none(),
        "transfer cleared"
    );
}

#[test]
fn expedited_download_without_size_indication_uses_object_size() {
    let mut server = SdoServer::new();
    let mut od = TestOd::new();
    let mut resp = [0u8; 8];
    let mut events: BoundedQueue<OdEvent, 16> = BoundedQueue::new();

    // CCS=1, e=1, s=0 (0x22): expedited download, size not indicated.
    // All 4 data bytes are present, but 0x2000:0 is a u16 — the server
    // must clamp to the object size instead of failing the write.
    let req = [0x22, 0x00, 0x20, 0x00, 0xEF, 0xBE, 0xAD, 0xDE];
    server
        .process(&req, &mut od, &mut resp, &mut events, NmtState::PreOperational, 0)
        .unwrap();
    assert_eq!(resp[0], 0x60, "download response, got {:#04x}", resp[0]);
    assert_eq!(od.writable_u16, 0xBEEF);
}

#[test]
fn checksum_of_a_block() {
    // CRC-16/XMODEM of the usual test input
    assert_eq!(crc16_ccitt_update(0, b"123456789"), 0x31C3);
    // Piece by piece gives the same
    assert_eq!(crc16_ccitt_update(crc16_ccitt_update(0, b"1234"), b"56789"), 0x31C3);
}

#[test]
fn committed_write_is_reported_once() {
    let mut server = SdoServer::new();
    let mut od = TestOd::new();
    let mut resp = [0u8; 8];
    let mut events: BoundedQueue<OdEvent, 16> = BoundedQueue::new();
    let req = [0x2B, 0x00, 0x20, 0x00, 0xCD, 0xAB, 0x00, 0x00];
    server.process(&req, &mut od, &mut resp, &mut events, NmtState::PreOperational, 0).unwrap();
    assert_eq!(server.take_committed_write(), Some((0x2000, 0)));
    assert_eq!(server.take_committed_write(), None);
}

#[test]
fn block_upload_streams_the_value() {
    let mut server = SdoServer::new();
    let mut od = TestOd::new();
    let mut resp = [0u8; 8];
    let mut events: BoundedQueue<OdEvent, 16> = BoundedQueue::new();
    // Initiate (no CRC, block size 127), then start
    let init = [0xA0, 0x01, 0x20, 0x00, 127, 0, 0, 0];
    server.process(&init, &mut od, &mut resp, &mut events, NmtState::Operational, 0).unwrap();
    assert_eq!(command_specifier(resp[0]), 6);
    assert_eq!(u32::from_le_bytes([resp[4], resp[5], resp[6], resp[7]]), 20);
    let start = [0xA3, 0, 0, 0, 0, 0, 0, 0];
    let mut data = Vec::new();
    if server.process(&start, &mut od, &mut resp, &mut events, NmtState::Operational, 1).is_ok() {
        data.extend_from_slice(&resp[1..]);
    }
    while let Some(segment) = server.poll_block_upload(2) {
        data.extend_from_slice(&segment[1..]);
        if segment[0] & 0x80 != 0 {
            break;
        }
    }
    assert!(data.len() >= 20);
    assert_eq!(&data[..20], &[0xAA; 20]);
}

#[test]
fn aborted_transfer_is_forgotten() {
    let mut server = SdoServer::new();
    let mut od = TestOd::new();
    let mut resp = [0u8; 8];
    let mut events: BoundedQueue<OdEvent, 16> = BoundedQueue::new();
    let req = [0x40, 0x01, 0x20, 0x00, 0, 0, 0, 0];
    server.process(&req, &mut od, &mut resp, &mut events, NmtState::Operational, 0).unwrap();
    server.abort_transfer();
    assert!(server.check_timeout(100_000_000).is_none());
}
