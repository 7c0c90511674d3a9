//! SDO transfers, step by step.

use canopen_core::bus::{IdFilter, SharedCanBus, TxQueue};
use canopen_core::can_router::{CanDemux, HeartbeatPort, SdoPort};
use canopen_core::cobid::{CobId, NodeId};
use canopen_core::datatypes::DataType;
use canopen_core::nmt::NmtState;
use canopen_core::od::{AccessType, ObjectDictionary, OdContents, OdEntryMeta, OdError, OdEvent};
use canopen_core::queue::BoundedQueue;
use canopen_core::sdo::driver::{deliver, Deadline, SdoDriver, SdoTransfer, TransferStep};
use canopen_core::sdo::{AbortCode, SdoServer};
use canopen_core::transport::CanFrame;

/// An SDO server on the wire: each frame is answered at once.
struct Wire<'a, OD: ObjectDictionary> {
    server: SdoServer,
    od: &'a mut OD,
}

impl<'a, OD: ObjectDictionary> Wire<'a, OD> {
    fn new(od: &'a mut OD) -> Self {
        Wire { server: SdoServer::new(), od }
    }

    fn answer(&mut self, frame: &CanFrame) -> Option<CanFrame> {
        let mut req = [0u8; 8];
        req.copy_from_slice(frame.data());
        let mut resp = [0u8; 8];
        let mut events: BoundedQueue<OdEvent, 16> = BoundedQueue::new();
        self.server
            .process(&req, self.od, &mut resp, &mut events, NmtState::Operational, 0)
            .ok()?;
        CanFrame::new(0x580 + 1, &resp)
    }

    /// Runs a transfer to its end.
    fn run(&mut self, mut transfer: SdoTransfer, first: CanFrame) -> TransferStep {
        let mut request = first;
        loop {
            let response = self.answer(&request).unwrap();
            match transfer.on_frame(&response) {
                TransferStep::Send(next) => request = next,
                end => return end,
            }
        }
    }
}

fn uploaded(step: TransferStep) -> Vec<u8> {
    match step {
        TransferStep::Uploaded(data) => data,
        _ => panic!("expected a value"),
    }
}

struct TestOd {
    device_type: u32,
    value: u16,
    blob: [u8; 20],
}

fn meta(index: u16, data_type: DataType, access: AccessType, name: &str) -> OdEntryMeta {
    OdEntryMeta {
        index,
        subindex: 0,
        data_type,
        access,
        pdo_mappable: false,
        name: String::from(name),
        max_size: None,
    }
}

impl OdContents for TestOd {}

impl ObjectDictionary for TestOd {
    type Contents = TestOd;

    fn lookup(&self, index: u16, subindex: u8) -> Option<OdEntryMeta> {
        match (index, subindex) {
            (0x1000, 0) => Some(meta(0x1000, DataType::U32, AccessType::Ro, "device_type")),
            (0x2000, 0) => Some(meta(0x2000, DataType::U16, AccessType::Rw, "value")),
            (0x2001, 0) => Some(meta(0x2001, DataType::OctetString, AccessType::Rw, "blob")),
            _ => None,
        }
    }

    fn read(&self, index: u16, subindex: u8, buf: &mut [u8]) -> Result<usize, OdError> {
        match (index, subindex) {
            (0x1000, 0) => {
                buf[..4].copy_from_slice(&self.device_type.to_le_bytes());
                Ok(4)
            }
            (0x2000, 0) => {
                buf[..2].copy_from_slice(&self.value.to_le_bytes());
                Ok(2)
            }
            (0x2001, 0) => {
                buf[..20].copy_from_slice(&self.blob);
                Ok(20)
            }
            _ => Err(OdError::NotFound),
        }
    }

    fn write(&mut self, index: u16, subindex: u8, data: &[u8]) -> Result<(), OdError> {
        match (index, subindex) {
            (0x1000, 0) => Err(OdError::ReadOnly),
            (0x2000, 0) => {
                self.value = u16::from_le_bytes([data[0], data[1]]);
                Ok(())
            }
            (0x2001, 0) => {
                self.blob = [0; 20];
                self.blob[..data.len()].copy_from_slice(data);
                Ok(())
            }
            _ => Err(OdError::NotFound),
        }
    }

    fn validate_write(&self, _: u16, _: u8, _: &[u8]) -> Result<(), OdError> {
        Ok(())
    }

    fn sub_count(&self, _: u16) -> Option<u8> {
        Some(0)
    }

    fn store_sdo_server_cob_ids(&mut self, _: NodeId) {}
}

fn driver() -> SdoDriver {
    SdoDriver::new(NodeId::new(1).unwrap())
}

#[test]
fn driver_expedited_upload() {
    let mut od = TestOd { device_type: 0xDEAD_BEEF, value: 0, blob: [0; 20] };
    let (transfer, first) = driver().begin_upload(0x1000, 0);
    let data = uploaded(Wire::new(&mut od).run(transfer, first));
    assert_eq!(data, 0xDEAD_BEEFu32.to_le_bytes());
}

#[test]
fn driver_expedited_download() {
    let mut od = TestOd { device_type: 0, value: 0, blob: [0; 20] };
    let (transfer, first) = driver().begin_download(0x2000, 0, &0xCAFEu16.to_le_bytes()).unwrap();
    assert!(matches!(Wire::new(&mut od).run(transfer, first), TransferStep::Downloaded));
    assert_eq!(od.value, 0xCAFE);
}

#[test]
fn driver_segmented_upload() {
    let mut od = TestOd { device_type: 0, value: 0, blob: [0xBB; 20] };
    let (transfer, first) = driver().begin_upload(0x2001, 0);
    let data = uploaded(Wire::new(&mut od).run(transfer, first));
    let mut buf = [0u8; 32];
    let len = deliver(&data, &mut buf);
    assert_eq!(len, 20);
    assert_eq!(&buf[..20], &[0xBB; 20]);
}

#[test]
fn driver_segmented_download() {
    let mut od = TestOd { device_type: 0, value: 0, blob: [0; 20] };
    let data: [u8; 20] = core::array::from_fn(|i| (i + 1) as u8);
    let (transfer, first) = driver().begin_download(0x2001, 0, &data).unwrap();
    assert!(matches!(Wire::new(&mut od).run(transfer, first), TransferStep::Downloaded));
    assert_eq!(od.blob, data);
}

#[test]
fn driver_abort_on_not_found() {
    let mut od = TestOd { device_type: 0, value: 0, blob: [0; 20] };
    let (transfer, first) = driver().begin_upload(0xFFFF, 0);
    match Wire::new(&mut od).run(transfer, first) {
        TransferStep::Aborted(code) => assert_eq!(code, AbortCode::ObjectNotFound),
        _ => panic!("expected ObjectNotFound"),
    }
}

#[test]
fn oversized_download_is_not_begun() {
    assert!(driver().begin_download(0x2001, 0, &[0; 257]).is_none());
    assert_eq!(driver().target(), NodeId::new(1).unwrap());
}

#[test]
fn short_buffer_takes_the_front_of_a_value() {
    let mut buf = [0u8; 2];
    assert_eq!(deliver(&vec![1, 2, 3], &mut buf), 2);
    assert_eq!(buf, [1, 2]);
}

// A dictionary that uses validate_write to reject values > 1000
struct ValidatingOd {
    value: u16,
}

impl OdContents for ValidatingOd {}

impl ObjectDictionary for ValidatingOd {
    type Contents = ValidatingOd;

    fn lookup(&self, index: u16, subindex: u8) -> Option<OdEntryMeta> {
        match (index, subindex) {
            (0x2000, 0) => Some(meta(0x2000, DataType::U16, AccessType::Rw, "value")),
            _ => None,
        }
    }

    fn read(&self, index: u16, subindex: u8, buf: &mut [u8]) -> Result<usize, OdError> {
        match (index, subindex) {
            (0x2000, 0) => {
                buf[..2].copy_from_slice(&self.value.to_le_bytes());
                Ok(2)
            }
            _ => Err(OdError::NotFound),
        }
    }

    fn write(&mut self, index: u16, subindex: u8, data: &[u8]) -> Result<(), OdError> {
        match (index, subindex) {
            (0x2000, 0) => {
                self.value = u16::from_le_bytes([data[0], data[1]]);
                Ok(())
            }
            _ => Err(OdError::NotFound),
        }
    }

    fn sub_count(&self, _: u16) -> Option<u8> {
        Some(0)
    }

    fn validate_write(&self, index: u16, subindex: u8, data: &[u8]) -> Result<(), OdError> {
        if index == 0x2000 && subindex == 0 {
            let val = u16::from_le_bytes([data[0], data[1]]);
            if val > 1000 {
                return Err(OdError::ValueRange);
            }
        }
        Ok(())
    }

    fn store_sdo_server_cob_ids(&mut self, _: NodeId) {}
}

#[test]
fn validate_write_accepts_valid_value() {
    let mut od = ValidatingOd { value: 0 };
    let (transfer, first) = driver().begin_download(0x2000, 0, &500u16.to_le_bytes()).unwrap();
    assert!(matches!(Wire::new(&mut od).run(transfer, first), TransferStep::Downloaded));
    assert_eq!(od.value, 500);
}

#[test]
fn validate_write_rejects_out_of_range() {
    let mut od = ValidatingOd { value: 42 };
    let (transfer, first) = driver().begin_download(0x2000, 0, &2000u16.to_le_bytes()).unwrap();
    match Wire::new(&mut od).run(transfer, first) {
        TransferStep::Aborted(code) => assert_eq!(code, AbortCode::ValueRangeExceeded),
        _ => panic!("expected ValueRangeExceeded"),
    }
    // Value should NOT have been written
    assert_eq!(od.value, 42);
}

/// A clock that advances 100 ms per look.
struct TickingClock(u64);

impl TickingClock {
    fn now_us(&mut self) -> u64 {
        let v = self.0;
        self.0 += 100_000;
        v
    }
}

#[test]
fn timed_upload_succeeds_within_deadline() {
    let mut od = TestOd { device_type: 0xDEAD_BEEF, value: 0, blob: [0; 20] };
    let mut clock = TickingClock(0);
    let deadline = Deadline::after(clock.now_us(), 5_000_000);
    let (mut transfer, first) = driver().begin_upload(0x1000, 0);
    let response = Wire::new(&mut od).answer(&first).unwrap();
    assert!(!deadline.passed(clock.now_us()));
    let data = uploaded(transfer.on_frame(&response));
    let mut buf = [0u8; 4];
    assert_eq!(deliver(&data, &mut buf), 4);
}

/// A node that never answers: all that arrives are heartbeats, which leave the
/// transfer waiting until the deadline.
fn waits_in_vain(mut transfer: SdoTransfer) {
    let mut clock = TickingClock(0);
    let deadline = Deadline::after(clock.now_us(), 500_000);
    let mut looks = 0;
    while !deadline.passed(clock.now_us()) {
        let noise = CanFrame::new(0x701, &[0x05]).unwrap();
        assert!(matches!(transfer.on_frame(&noise), TransferStep::Ignored));
        looks += 1;
    }
    assert!(looks <= 5);
}

#[test]
fn timed_upload_times_out() {
    let (transfer, _) = driver().begin_upload(0x1000, 0);
    waits_in_vain(transfer);
}

#[test]
fn timed_download_times_out() {
    let (transfer, _) = driver().begin_download(0x2000, 0, &42u16.to_le_bytes()).unwrap();
    waits_in_vain(transfer);
}

// ---- Transfers among other traffic ----

/// What a noisy bus delivers after a request: a heartbeat, a PDO, then the
/// response.
fn noisy_answer(od: &mut TestOd, request: &CanFrame) -> Vec<CanFrame> {
    vec![
        CanFrame::new(0x701, &[0x05]).unwrap(),
        CanFrame::new(0x181, &[0xAA, 0xBB]).unwrap(),
        Wire::new(od).answer(request).unwrap(),
    ]
}

fn small_od() -> TestOd {
    TestOd { device_type: 0x42, value: 0, blob: [0; 20] }
}

#[test]
fn sdo_port_filters_and_buffers_overflow() {
    let target = NodeId::new(1).unwrap();
    let mut port = SdoPort::new(target);
    let (mut transfer, first) = driver().begin_upload(0x1000, 0);
    let mut value = None;
    for frame in noisy_answer(&mut small_od(), &first) {
        if port.offer(&frame) {
            value = Some(uploaded(transfer.on_frame(&frame)));
        }
    }
    assert_eq!(value.unwrap(), 0x42u32.to_le_bytes());

    // The heartbeat and PDO frames should be in the overflow buffer
    assert_eq!(port.overflow.len(), 2);
    assert_eq!(port.overflow[0].raw_id(), 0x701); // heartbeat
    assert_eq!(port.overflow[1].raw_id(), 0x181); // PDO
    assert_eq!(port.drain_overflow().len(), 2);
    assert_eq!(port.drain_overflow()[1].raw_id(), 0x181);
}

#[test]
fn sdo_driver_still_works_directly_without_port() {
    // The transfer's own filtering drops non-SDO frames
    let (mut transfer, first) = driver().begin_upload(0x1000, 0);
    let mut value = None;
    for frame in noisy_answer(&mut small_od(), &first) {
        match transfer.on_frame(&frame) {
            TransferStep::Ignored => {}
            end => value = Some(uploaded(end)),
        }
    }
    assert_eq!(value.unwrap(), 0x42u32.to_le_bytes());
}

#[test]
fn demux_sdo_routes_non_sdo_to_buffers() {
    let target = NodeId::new(1).unwrap();
    let mut demux = CanDemux::new();
    let (mut transfer, first) = driver().begin_upload(0x1000, 0);
    let mut value = None;
    for frame in noisy_answer(&mut small_od(), &first) {
        if demux.offer_sdo(&frame, target) {
            value = Some(uploaded(transfer.on_frame(&frame)));
        }
    }
    assert_eq!(value.unwrap(), 0x42u32.to_le_bytes());

    // Heartbeat and PDO should be in the demux buffers
    let hb = demux.try_recv_heartbeat().unwrap();
    assert_eq!(hb.raw_id(), 0x701);

    let pdo = demux.try_recv_pdo().unwrap();
    assert_eq!(pdo.raw_id(), 0x181);

    // No more buffered frames
    assert!(demux.try_recv_heartbeat().is_none());
    assert!(demux.try_recv_pdo().is_none());
}

#[test]
fn demux_async_heartbeat() {
    let mut demux = CanDemux::new();

    // A heartbeat that arrived earlier is buffered
    demux.route_frame(&CanFrame::new(0x701, &[0x05]).unwrap());

    let frame = demux.take_buffered_heartbeat(None).unwrap();
    assert_eq!(frame.raw_id(), 0x701);
    assert_eq!(frame.data()[0], 0x05);
}

#[test]
fn demux_loses_no_frame() {
    let mut demux = CanDemux::new();
    for i in 0..40u8 {
        demux.route_frame(&CanFrame::new(0x701, &[i]).unwrap());
        demux.route_frame(&CanFrame::new(0x181, &[i]).unwrap());
        demux.route_frame(&CanFrame::new(0x7E5, &[i]).unwrap());
    }
    for i in 0..40u8 {
        assert_eq!(demux.try_recv_heartbeat().unwrap().data(), &[i]);
        assert_eq!(demux.try_recv_pdo().unwrap().data(), &[i]);
        assert_eq!(demux.try_recv_other().unwrap().data(), &[i]);
    }
    assert!(demux.try_recv_heartbeat().is_none());
}

#[test]
fn demux_keeps_unknown_frames_apart() {
    let mut demux = CanDemux::new();
    demux.route_frame(&CanFrame::new(0x7E5, &[1]).unwrap());
    assert!(demux.take_buffered_sdo(NodeId::new(1).unwrap()).is_none());
    assert_eq!(demux.try_recv_other().unwrap().raw_id(), 0x7E5);
    assert!(demux.offer_pdo(&CanFrame::new(0x181, &[1]).unwrap()));
    assert!(!demux.offer_heartbeat(
        &CanFrame::new(0x702, &[5]).unwrap(),
        Some(NodeId::new(1).unwrap())
    ));
    assert!(demux.take_buffered_heartbeat(Some(NodeId::new(2).unwrap())).is_some());
}

#[test]
fn heartbeat_port_selects_its_node() {
    let mut port = HeartbeatPort::new(Some(NodeId::new(2).unwrap()));
    assert!(!port.offer(&CanFrame::new(0x701, &[5]).unwrap()));
    assert!(port.offer(&CanFrame::new(0x702, &[5]).unwrap()));
    assert_eq!(port.overflow[0].raw_id(), 0x701);
    let mut port = SdoPort::new(NodeId::new(2).unwrap());
    assert!(!port.offer(&CanFrame::new(0x581, &[0; 8]).unwrap()));
    assert_eq!(port.drain_overflow().len(), 1);
    port.clear_overflow();
    assert!(port.drain_overflow().is_empty());
    // However many there are
    for _ in 0..20 {
        assert!(!port.offer(&CanFrame::new(0x181, &[]).unwrap()));
    }
    assert_eq!(port.drain_overflow().len(), 20);
}

/// End-to-end: a transfer over a bus subscription, with an SDO server
/// answering "on the wire", plus unrelated bus noise.
#[test]
fn sdo_driver_over_subscription_port() {
    let target = NodeId::new(0x21).unwrap();
    let mut bus = SharedCanBus::new();
    let mut tx = TxQueue::new(8);
    let response_cob = CobId::sdo_tx(target).raw();
    let rx = bus.subscribe_filtered(8, IdFilter { id: response_cob });

    let mut od = TestOd { device_type: 0xCAFE, value: 0, blob: [0; 20] };
    let (mut transfer, first) = SdoDriver::new(target).begin_upload(0x1000, 0);
    assert!(tx.try_send(&first));

    let val = loop {
        if let Some(frame) = rx.try_recv(&mut bus) {
            match transfer.on_frame(&frame) {
                TransferStep::Send(next) => assert!(tx.try_send(&next)),
                end => break uploaded(end),
            }
        }
        while let Some(req) = tx.try_pop() {
            // Noise the filter must reject
            bus.publish(&CanFrame::new(0x1A1, &[0x05]).unwrap());
            let resp = Wire::new(&mut od).answer(&req).unwrap();
            bus.publish(&CanFrame::new(response_cob, resp.data()).unwrap());
        }
    };

    assert_eq!(val, 0xCAFEu32.to_le_bytes());
    // The noise frames never reached the SDO subscription
    assert!(rx.is_empty(&bus));
}
