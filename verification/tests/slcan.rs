//! The serial line protocol.

use canopen_core::slcan::{
    encode_slcan_frame, has_slcan_frame, parse_slcan_frame, SerialPort, SlcanBitrate,
    SlcanTransport,
};
use canopen_core::transport::CanFrame;

#[test]
fn slcan_parse_standard_frame() {
    let line = b"t1FF8DEADBEEFCAFEBABE";
    let frame = parse_slcan_frame(line).unwrap();
    assert_eq!(frame.raw_id(), 0x1FF);
    assert_eq!(frame.raw_dlc(), 8);
    assert_eq!(frame.data(), &[0xDE, 0xAD, 0xBE, 0xEF, 0xCA, 0xFE, 0xBA, 0xBE]);
}

#[test]
fn slcan_parse_heartbeat_frame() {
    let line = b"t701105";
    let frame = parse_slcan_frame(line).unwrap();
    assert_eq!(frame.raw_id(), 0x701);
    assert_eq!(frame.raw_dlc(), 1);
    assert_eq!(frame.data(), &[0x05]);
}

#[test]
fn slcan_parse_empty() {
    assert!(parse_slcan_frame(b"").is_none());
    assert!(parse_slcan_frame(b"\x07").is_none());
}

#[test]
fn logic_parse_standard_frame() {
    let line = b"t1FF8DEADBEEFCAFEBABE";
    let frame = parse_slcan_frame(line).unwrap();
    assert_eq!(frame.raw_id(), 0x1FF);
    assert_eq!(frame.raw_dlc(), 8);
    assert_eq!(frame.data(), &[0xDE, 0xAD, 0xBE, 0xEF, 0xCA, 0xFE, 0xBA, 0xBE]);
}

#[test]
fn logic_parse_heartbeat_frame() {
    let line = b"t701105";
    let frame = parse_slcan_frame(line).unwrap();
    assert_eq!(frame.raw_id(), 0x701);
    assert_eq!(frame.raw_dlc(), 1);
    assert_eq!(frame.data(), &[0x05]);
}

#[test]
fn logic_parse_empty() {
    assert!(parse_slcan_frame(b"").is_none());
    assert!(parse_slcan_frame(b"\x07").is_none());
}

#[test]
fn encode_standard_frame() {
    let frame = CanFrame::new(0x181, &[0x12, 0xAB]).unwrap();
    let mut out = [0u8; 32];
    let len = encode_slcan_frame(&frame, &mut out).unwrap();
    assert_eq!(&out[..len], b"t181212AB\r");
}

#[test]
fn encoding_needs_room() {
    let frame = CanFrame::new(0x181, &[0x12, 0xAB]).unwrap();
    let mut out = [0u8; 9];
    assert!(encode_slcan_frame(&frame, &mut out).is_none());
}

#[test]
fn streamed_frames_are_noticed() {
    assert!(!has_slcan_frame(b"t701"));
    assert!(!has_slcan_frame(b"t7019"));
    assert!(has_slcan_frame(b"05\rt7011"));
    assert!(parse_slcan_frame(b"t70").is_none());
    assert!(parse_slcan_frame(b"tXYZ0").is_none());
}

/// In-memory SerialPort for driver tests.
struct FakePort {
    rx: heapless::Deque<u8, 512>,
    tx: heapless::Vec<u8, 512>,
}

impl FakePort {
    fn new() -> Self {
        Self { rx: heapless::Deque::new(), tx: heapless::Vec::new() }
    }

    fn feed(&mut self, data: &[u8]) {
        for &b in data {
            self.rx.push_back(b).unwrap();
        }
    }
}

impl SerialPort for FakePort {
    type Error = ();

    fn read(&mut self, buf: &mut [u8]) -> Result<usize, ()> {
        let mut n = 0;
        while n < buf.len() {
            match self.rx.pop_front() {
                Some(b) => {
                    buf[n] = b;
                    n += 1;
                }
                None => break,
            }
        }
        Ok(n)
    }

    fn write_all(&mut self, data: &[u8]) -> Result<(), ()> {
        self.tx.extend_from_slice(data).map_err(|_| ())
    }
}

fn receives_frames_split_across_reads() {
    let mut slcan = SlcanTransport::new(FakePort::new());
    slcan.port_mut().feed(b"t70110");
    assert!(slcan.receive().is_none()); // incomplete line
    slcan.port_mut().feed(b"5\rt1FF");

    let frame = slcan.receive().unwrap();
    assert_eq!(frame.raw_id(), 0x701);
    assert_eq!(frame.data(), &[0x05]);
    assert!(slcan.receive().is_none()); // next line still incomplete
}

#[test]
fn slcan_transport_receives_frames_split_across_reads() {
    receives_frames_split_across_reads();
}

#[test]
fn serial_transport_receives_frames_split_across_reads() {
    receives_frames_split_across_reads();
}

#[test]
fn slcan_transport_transmit_encodes_frame() {
    let mut slcan = SlcanTransport::new(FakePort::new());
    let frame = CanFrame::new(0x181, &[0x12, 0xAB]).unwrap();
    slcan.transmit(&frame).unwrap();
    assert_eq!(&slcan.port_mut().tx[..], b"t181212AB\r");
}

#[test]
fn serial_transport_transmit_encodes_frame() {
    let mut slcan = SlcanTransport::new(FakePort::new());
    let frame = CanFrame::new(0x181, &[0x12, 0xAB]).unwrap();
    slcan.transmit(&frame).unwrap();
    assert_eq!(&slcan.into_inner().tx[..], b"t181212AB\r");
}

#[test]
fn slcan_init_commands() {
    let mut slcan = SlcanTransport::new(FakePort::new());
    slcan.send_close().unwrap();
    slcan.send_bitrate(SlcanBitrate::S6).unwrap();
    slcan.send_open().unwrap();
    assert_eq!(&slcan.port_mut().tx[..], b"C\rS6\rO\r");
}

#[test]
fn serial_init_commands() {
    let mut slcan = SlcanTransport::new(FakePort::new());
    slcan.send_close().unwrap();
    slcan.send_bitrate(SlcanBitrate::S6).unwrap();
    slcan.send_open().unwrap();
    assert_eq!(&slcan.port_mut().tx[..], b"C\rS6\rO\r");
}

#[test]
fn draining_reads_until_nothing_is_pending() {
    let mut port = FakePort::new();
    // A partial line in the driver, and more than one read's worth at the port
    port.feed(b"t1812");
    let mut slcan = SlcanTransport::new(port);
    assert!(slcan.receive().is_none());
    slcan.port_mut().feed(&[b'0'; 200]);
    slcan.port_mut().feed(b"\rt70110");
    slcan.drain_rx();
    slcan.port_mut().feed(b"5\rt701105\r");
    assert!(slcan.receive().is_none());
    assert_eq!(slcan.receive().unwrap().raw_id(), 0x701);
    assert!(slcan.into_inner().tx.is_empty());
}
