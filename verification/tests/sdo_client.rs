//! The SDO client and the frames that it exchanges with the server.

use canopen_core::cobid::NodeId;
use canopen_core::datatypes::DataType;
use canopen_core::nmt::NmtState;
use canopen_core::od::{AccessType, ObjectDictionary, OdContents, OdEntryMeta, OdError, OdEvent};
use canopen_core::queue::BoundedQueue;
use canopen_core::sdo::client::{SdoClient, SdoClientResult};
use canopen_core::sdo::protocol::{
    command_specifier, encode_abort, encode_upload_response_expedited,
    encode_upload_response_segmented, parse_index_sub, AbortCode, Ccs, Scs,
};
use canopen_core::sdo::server::SdoServer;
use canopen_core::transport::CanFrame;

#[test]
fn abort_frame_encoding() {
    let data = encode_abort(0x1000, 0, AbortCode::ObjectNotFound);
    assert_eq!(data[0], 0x80); // CCS/SCS = 4
    assert_eq!(data[1], 0x00); // index low
    assert_eq!(data[2], 0x10); // index high
    assert_eq!(data[3], 0x00); // subindex
    let code = u32::from_le_bytes([data[4], data[5], data[6], data[7]]);
    assert_eq!(code, 0x0602_0000);
    assert_eq!(parse_index_sub(&data), (0x1000, 0));
}

#[test]
fn expedited_upload_response() {
    let data = encode_upload_response_expedited(0x1000, 0, &[0x91, 0x01, 0x00, 0x00]).unwrap();
    let cs = command_specifier(data[0]);
    assert_eq!(cs, Scs::InitiateUploadResponse as u8);
    // e=1, s=1, n=0 (4 bytes used)
    assert_eq!(data[0] & 0x03, 0x03); // e=1, s=1
    assert_eq!((data[0] >> 2) & 0x03, 0); // n=0
    assert_eq!(data[4], 0x91);
    assert!(encode_upload_response_expedited(0x1000, 0, &[0; 5]).is_none());
}

#[test]
fn segmented_upload_response() {
    let data = encode_upload_response_segmented(0x2000, 1, 100);
    let cs = command_specifier(data[0]);
    assert_eq!(cs, Scs::InitiateUploadResponse as u8);
    assert_eq!(data[0] & 0x02, 0); // e=0
    assert_eq!(data[0] & 0x01, 1); // s=1
    let size = u32::from_le_bytes([data[4], data[5], data[6], data[7]]);
    assert_eq!(size, 100);
}

#[test]
fn command_specifiers_decode() {
    assert_eq!(Ccs::from_byte0(0x40), Some(Ccs::InitiateUpload));
    assert_eq!(Ccs::from_byte0(0xC2), Some(Ccs::BlockDownload));
    assert_eq!(Ccs::from_byte0(0xE0), None);
    assert_eq!(AbortCode::GeneralError.to_le_bytes(), 0x0800_0000u32.to_le_bytes());
}

struct TestOd {
    val_u32: u32,
    val_u16: u16,
    blob: [u8; 20],
}

fn meta(index: u16, data_type: DataType, access: AccessType, name: &str) -> OdEntryMeta {
    OdEntryMeta {
        index,
        subindex: 0,
        data_type,
        access,
        pdo_mappable: false,
        name: String::from(name),
        max_size: None,
    }
}

impl OdContents for TestOd {}

impl ObjectDictionary for TestOd {
    type Contents = TestOd;

    fn lookup(&self, index: u16, subindex: u8) -> Option<OdEntryMeta> {
        match (index, subindex) {
            (0x1000, 0) => Some(meta(0x1000, DataType::U32, AccessType::Ro, "val_u32")),
            (0x2000, 0) => Some(meta(0x2000, DataType::U16, AccessType::Rw, "val_u16")),
            (0x2001, 0) => Some(meta(0x2001, DataType::OctetString, AccessType::Rw, "blob")),
            _ => None,
        }
    }

    fn read(&self, index: u16, subindex: u8, buf: &mut [u8]) -> Result<usize, OdError> {
        match (index, subindex) {
            (0x1000, 0) => {
                buf[..4].copy_from_slice(&self.val_u32.to_le_bytes());
                Ok(4)
            }
            (0x2000, 0) => {
                buf[..2].copy_from_slice(&self.val_u16.to_le_bytes());
                Ok(2)
            }
            (0x2001, 0) => {
                buf[..20].copy_from_slice(&self.blob);
                Ok(20)
            }
            _ => Err(OdError::NotFound),
        }
    }

    fn write(&mut self, index: u16, subindex: u8, data: &[u8]) -> Result<(), OdError> {
        match (index, subindex) {
            (0x2000, 0) => {
                self.val_u16 = u16::from_le_bytes([data[0], data[1]]);
                Ok(())
            }
            (0x2001, 0) => {
                if data.len() > 20 {
                    return Err(OdError::ValueTooLong);
                }
                self.blob = [0; 20];
                self.blob[..data.len()].copy_from_slice(data);
                Ok(())
            }
            _ => Err(OdError::NotFound),
        }
    }

    fn validate_write(&self, _: u16, _: u8, _: &[u8]) -> Result<(), OdError> {
        Ok(())
    }

    fn sub_count(&self, _: u16) -> Option<u8> {
        Some(0)
    }

    fn store_sdo_server_cob_ids(&mut self, _: NodeId) {}
}

/// Run a complete SDO transfer between client and server in-memory.
fn run_transfer(
    client: &mut SdoClient<256>,
    server: &mut SdoServer,
    od: &mut TestOd,
    first_frame: CanFrame,
) -> SdoClientResult {
    // First frame goes from client to server
    let mut req_data = [0u8; 8];
    req_data.copy_from_slice(first_frame.data());

    let mut resp_data = [0u8; 8];
    let mut events: BoundedQueue<OdEvent, 16> = BoundedQueue::new();
    server
        .process(&req_data, od, &mut resp_data, &mut events, NmtState::PreOperational, 0)
        .unwrap();

    let mut result = client.process_response(&resp_data);

    // Loop for segmented transfers
    loop {
        match result {
            SdoClientResult::SendNext(frame) => {
                req_data.copy_from_slice(frame.data());
                server
                    .process(&req_data, od, &mut resp_data, &mut events, NmtState::PreOperational, 0)
                    .unwrap();
                result = client.process_response(&resp_data);
            }
            _ => return result,
        }
    }
}

#[test]
fn client_expedited_upload() {
    let target = NodeId::new(1).unwrap();
    let mut client = SdoClient::<256>::new(target);
    let mut server = SdoServer::new();
    let mut od = TestOd { val_u32: 0xDEADBEEF, val_u16: 0, blob: [0; 20] };

    let req = client.start_upload(0x1000, 0);
    match run_transfer(&mut client, &mut server, &mut od, req) {
        SdoClientResult::UploadComplete { data_len } => {
            assert_eq!(data_len, 4);
            assert_eq!(client.data(), &0xDEADBEEFu32.to_le_bytes());
        }
        _ => panic!("expected UploadComplete"),
    }
}

#[test]
fn client_expedited_download() {
    let target = NodeId::new(1).unwrap();
    let mut client = SdoClient::<256>::new(target);
    let mut server = SdoServer::new();
    let mut od = TestOd { val_u32: 0, val_u16: 0, blob: [0; 20] };

    let req = client.start_download(0x2000, 0, &0xCAFEu16.to_le_bytes()).unwrap();
    match run_transfer(&mut client, &mut server, &mut od, req) {
        SdoClientResult::DownloadComplete => {
            assert_eq!(od.val_u16, 0xCAFE);
        }
        _ => panic!("expected DownloadComplete"),
    }
}

#[test]
fn client_segmented_upload() {
    let target = NodeId::new(1).unwrap();
    let mut client = SdoClient::<256>::new(target);
    let mut server = SdoServer::new();
    let mut od = TestOd { val_u32: 0, val_u16: 0, blob: [0xBB; 20] };

    let req = client.start_upload(0x2001, 0);
    match run_transfer(&mut client, &mut server, &mut od, req) {
        SdoClientResult::UploadComplete { data_len } => {
            assert_eq!(data_len, 20);
            assert_eq!(client.data(), &[0xBB; 20]);
        }
        _ => panic!("expected UploadComplete"),
    }
}

#[test]
fn upload_takes_one_response_per_segment() {
    // Objects of 4, 2 and 20 bytes: one response, or one more than the
    // segments of 7 bytes.
    for (index, expected) in [(0x1000u16, 1), (0x2000, 1), (0x2001, 4)] {
        let mut client = SdoClient::<256>::new(NodeId::new(1).unwrap());
        let mut server = SdoServer::new();
        let mut od = TestOd { val_u32: 7, val_u16: 9, blob: [0xBB; 20] };
        let mut events: BoundedQueue<OdEvent, 16> = BoundedQueue::new();
        let mut request = client.start_upload(index, 0);
        let mut responses = 0;
        loop {
            let mut req = [0u8; 8];
            req.copy_from_slice(request.data());
            let mut resp = [0u8; 8];
            server
                .process(&req, &mut od, &mut resp, &mut events, NmtState::PreOperational, 0)
                .unwrap();
            responses += 1;
            match client.process_response(&resp) {
                SdoClientResult::SendNext(frame) => request = frame,
                SdoClientResult::UploadComplete { .. } => break,
                _ => panic!("expected an upload"),
            }
        }
        assert_eq!(responses, expected);
    }
}

#[test]
fn client_segmented_download() {
    let target = NodeId::new(1).unwrap();
    let mut client = SdoClient::<256>::new(target);
    let mut server = SdoServer::new();
    let mut od = TestOd { val_u32: 0, val_u16: 0, blob: [0; 20] };

    let data: [u8; 20] = [
        1, 2, 3, 4, 5, 6, 7, 8, 9, 10, 11, 12, 13, 14, 15, 16, 17, 18, 19, 20,
    ];
    let req = client.start_download(0x2001, 0, &data).unwrap();
    match run_transfer(&mut client, &mut server, &mut od, req) {
        SdoClientResult::DownloadComplete => {
            assert_eq!(od.blob, data);
        }
        _ => panic!("expected DownloadComplete"),
    }
}

#[test]
fn client_download_larger_than_buffer_fails_without_sending() {
    let target = NodeId::new(1).unwrap();
    let mut client = SdoClient::<256>::new(target);
    let data = [0x55u8; 257];

    assert!(client.start_download(0x2001, 0, &data).is_err());
    // Client must stay idle so it can be reused.
    let req = client.start_download(0x2000, 0, &0xCAFEu16.to_le_bytes()).unwrap();
    assert_eq!(req.data()[0] >> 5, Ccs::InitiateDownload as u8);
}

/// Build a server abort frame payload for the given object and code.
fn abort_payload(index: u16, subindex: u8, code: u32) -> [u8; 8] {
    let mut data = [0u8; 8];
    data[0] = (Scs::AbortTransfer as u8) << 5;
    data[1] = (index & 0xFF) as u8;
    data[2] = (index >> 8) as u8;
    data[3] = subindex;
    data[4..8].copy_from_slice(&code.to_le_bytes());
    data
}

#[test]
fn client_ignores_abort_for_unrelated_object() {
    let target = NodeId::new(1).unwrap();
    let mut client = SdoClient::<256>::new(target);
    let _req = client.start_upload(0x1000, 0);

    // Another client's request for a different object was rejected.
    let unrelated = abort_payload(0x2000, 3, 0x0602_0000);
    assert!(matches!(client.process_response(&unrelated), SdoClientResult::IgnoredAbort));

    // The active transfer still completes with the real response.
    let mut resp = [0u8; 8];
    resp[0] = (Scs::InitiateUploadResponse as u8) << 5 | 0x03; // expedited, size, n=0
    resp[4..8].copy_from_slice(&0xDEADBEEFu32.to_le_bytes());
    match client.process_response(&resp) {
        SdoClientResult::UploadComplete { data_len } => assert_eq!(data_len, 4),
        _ => panic!("expected UploadComplete"),
    }
}

#[test]
fn client_cancels_on_abort_for_active_object() {
    let target = NodeId::new(1).unwrap();
    let mut client = SdoClient::<256>::new(target);
    let _req = client.start_upload(0x1000, 0);

    let matching = abort_payload(0x1000, 0, 0x0602_0000);
    match client.process_response(&matching) {
        SdoClientResult::Aborted(code) => assert_eq!(code, AbortCode::ObjectNotFound),
        _ => panic!("expected Aborted"),
    }
}

#[test]
fn client_cancels_on_channel_level_abort() {
    let target = NodeId::new(1).unwrap();
    let mut client = SdoClient::<256>::new(target);
    let _req = client.start_upload(0x1000, 0);

    // Abort 0x0000:00 is channel-level and cancels the active transfer.
    let channel = abort_payload(0x0000, 0, 0x0504_0001);
    match client.process_response(&channel) {
        SdoClientResult::Aborted(code) => {
            assert_eq!(code, AbortCode::InvalidCommandSpecifier)
        }
        _ => panic!("expected Aborted"),
    }
}

#[test]
fn client_abort_on_not_found() {
    let target = NodeId::new(1).unwrap();
    let mut client = SdoClient::<256>::new(target);
    let mut server = SdoServer::new();
    let mut od = TestOd { val_u32: 0, val_u16: 0, blob: [0; 20] };

    let req = client.start_upload(0xFFFF, 0);
    match run_transfer(&mut client, &mut server, &mut od, req) {
        SdoClientResult::Aborted(code) => {
            assert_eq!(code, AbortCode::ObjectNotFound);
        }
        _ => panic!("expected Aborted"),
    }
}

#[test]
fn idle_client_reports_an_error() {
    let mut client = SdoClient::<256>::new(NodeId::new(1).unwrap());
    assert!(matches!(client.process_response(&[0x60, 0, 0, 0, 0, 0, 0, 0]), SdoClientResult::Error));
}
