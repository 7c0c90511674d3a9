//! The node.

use canopen_core::cobid::NodeId;
use canopen_core::datatypes::DataType;
use canopen_core::heartbeat::{HeartbeatEvent, HeartbeatMonitorState};
use canopen_core::lss::LssIdentity;
use canopen_core::nmt::NmtState;
use canopen_core::node::{Node, NodeConfig, ResetType};
use canopen_core::od::{
    AccessType, ObjectDictionary, OdContents, OdEntryMeta, OdError, OdEventSource,
};
use canopen_core::pdo::{PdoMapping, PdoNumber, RpdoConfig, TpdoConfig, PDO_MAX_MAPPINGS};
use canopen_core::time::Clock;
use canopen_core::transport::{CanFrame, MailboxTransport};

struct MinimalOd {
    device_type: u32,
    error_reg: u8,
}

fn minimal_meta() -> Vec<OdEntryMeta> {
    vec![
        OdEntryMeta {
            index: 0x1000,
            subindex: 0,
            data_type: DataType::U32,
            access: AccessType::Ro,
            pdo_mappable: false,
            name: String::from("device_type"),
            max_size: None,
        },
        OdEntryMeta {
            index: 0x1001,
            subindex: 0,
            data_type: DataType::U8,
            access: AccessType::Ro,
            pdo_mappable: false,
            name: String::from("error_register"),
            max_size: None,
        },
    ]
}

impl OdContents for MinimalOd {}

impl ObjectDictionary for MinimalOd {
    type Contents = MinimalOd;

    fn lookup(&self, index: u16, subindex: u8) -> Option<OdEntryMeta> {
        minimal_meta()
            .into_iter()
            .find(|e| e.index == index && e.subindex == subindex)
    }
    fn read(&self, index: u16, subindex: u8, buf: &mut [u8]) -> Result<usize, OdError> {
        match (index, subindex) {
            (0x1000, 0) => {
                buf[..4].copy_from_slice(&self.device_type.to_le_bytes());
                Ok(4)
            }
            (0x1001, 0) => {
                buf[0] = self.error_reg;
                Ok(1)
            }
            _ => Err(OdError::NotFound),
        }
    }
    fn write(&mut self, _: u16, _: u8, _: &[u8]) -> Result<(), OdError> {
        Err(OdError::ReadOnly)
    }
    fn validate_write(&self, _: u16, _: u8, _: &[u8]) -> Result<(), OdError> {
        Ok(())
    }
    fn sub_count(&self, _: u16) -> Option<u8> {
        Some(0)
    }
    fn store_sdo_server_cob_ids(&mut self, _: NodeId) {}
}

struct TestClock(u64);
impl Clock for TestClock {
    fn now_us(&self) -> u64 {
        self.0
    }
}

#[test]
fn node_boots_and_sends_heartbeat() {
    let config = NodeConfig::<1, 1, 0> {
        node_id: NodeId::new(1).unwrap(),
        heartbeat_interval_ms: 100,
        auto_start: false,
        tpdo: [TpdoConfig::default()],
        rpdo: [RpdoConfig::default()],
        sdo_servers: [],
        identity: LssIdentity::default(),
    };
    let od = MinimalOd {
        device_type: 0x191,
        error_reg: 0,
    };
    let mut node: Node<MinimalOd, 1, 1, 0, 16, 8> = Node::new(config, od);
    let mut transport = MailboxTransport::<16, 16>::new();

    // First process: should send boot heartbeat
    node.process(&mut transport, &TestClock(0));

    let frame = transport.next_to_transmit().unwrap();
    assert_eq!(frame.raw_id(), 0x701); // heartbeat for node 1
    assert_eq!(frame.data()[0], 0x00); // Initializing state in boot message

    assert_eq!(node.state(), NmtState::PreOperational);
}

#[test]
fn node_responds_to_nmt_and_sdo() {
    let config = NodeConfig::<1, 1, 0> {
        node_id: NodeId::new(1).unwrap(),
        heartbeat_interval_ms: 0, // disabled for this test
        auto_start: false,
        tpdo: [TpdoConfig::default()],
        rpdo: [RpdoConfig::default()],
        sdo_servers: [],
        identity: LssIdentity::default(),
    };
    let od = MinimalOd {
        device_type: 0x191,
        error_reg: 0,
    };
    let mut node: Node<MinimalOd, 1, 1, 0, 16, 8> = Node::new(config, od);
    let mut transport = MailboxTransport::<16, 16>::new();

    // Boot
    node.process(&mut transport, &TestClock(0));
    let _ = transport.next_to_transmit(); // drain boot heartbeat

    // Send NMT start
    let nmt_frame = CanFrame::new(0x000, &[0x01, 0x01]).unwrap(); // Start node 1
    transport.store_received(nmt_frame).unwrap();
    node.process(&mut transport, &TestClock(1000));
    assert_eq!(node.state(), NmtState::Operational);

    // Send SDO upload request for 0x1000:0
    let sdo_req = CanFrame::new(0x601, &[0x40, 0x00, 0x10, 0x00, 0, 0, 0, 0]).unwrap();
    transport.store_received(sdo_req).unwrap();
    node.process(&mut transport, &TestClock(2000));

    let resp = transport.next_to_transmit().unwrap();
    assert_eq!(resp.raw_id(), 0x581); // SDO response from node 1
                                      // Check expedited upload response contains device_type
    assert_eq!(&resp.data()[4..8], &0x191u32.to_le_bytes());
}

// --- OD with writable + PDO-mappable entries for event tests ---

#[derive(Clone)]
struct EventTestOd {
    device_type: u32,
    output1: u8,
    output2: u8,
    input1: u8,
}

fn event_test_meta() -> Vec<OdEntryMeta> {
    vec![
        OdEntryMeta {
            index: 0x1000,
            subindex: 0,
            data_type: DataType::U32,
            access: AccessType::Ro,
            pdo_mappable: false,
            name: String::from("device_type"),
            max_size: None,
        },
        OdEntryMeta {
            index: 0x6200,
            subindex: 1,
            data_type: DataType::U8,
            access: AccessType::Rw,
            pdo_mappable: true,
            name: String::from("output1"),
            max_size: None,
        },
        OdEntryMeta {
            index: 0x6200,
            subindex: 2,
            data_type: DataType::U8,
            access: AccessType::Rw,
            pdo_mappable: true,
            name: String::from("output2"),
            max_size: None,
        },
        OdEntryMeta {
            index: 0x6000,
            subindex: 1,
            data_type: DataType::U8,
            access: AccessType::Ro,
            pdo_mappable: true,
            name: String::from("input1"),
            max_size: None,
        },
    ]
}

impl OdContents for EventTestOd {}

impl ObjectDictionary for EventTestOd {
    type Contents = EventTestOd;

    fn lookup(&self, index: u16, subindex: u8) -> Option<OdEntryMeta> {
        event_test_meta()
            .into_iter()
            .find(|e| e.index == index && e.subindex == subindex)
    }
    fn read(&self, index: u16, subindex: u8, buf: &mut [u8]) -> Result<usize, OdError> {
        match (index, subindex) {
            (0x1000, 0) => {
                buf[..4].copy_from_slice(&self.device_type.to_le_bytes());
                Ok(4)
            }
            (0x6200, 1) => {
                buf[0] = self.output1;
                Ok(1)
            }
            (0x6200, 2) => {
                buf[0] = self.output2;
                Ok(1)
            }
            (0x6000, 1) => {
                buf[0] = self.input1;
                Ok(1)
            }
            _ => Err(OdError::NotFound),
        }
    }
    fn write(&mut self, index: u16, subindex: u8, data: &[u8]) -> Result<(), OdError> {
        match (index, subindex) {
            (0x6200, 1) => {
                self.output1 = data[0];
                Ok(())
            }
            (0x6200, 2) => {
                self.output2 = data[0];
                Ok(())
            }
            _ => Err(OdError::ReadOnly),
        }
    }
    fn validate_write(&self, _: u16, _: u8, _: &[u8]) -> Result<(), OdError> {
        Ok(())
    }
    fn sub_count(&self, _: u16) -> Option<u8> {
        Some(0)
    }
    fn store_sdo_server_cob_ids(&mut self, _: NodeId) {}
}

fn make_event_node() -> (Node<EventTestOd, 1, 1, 0, 16, 8>, MailboxTransport<32, 32>) {
    let mut rpdo_mappings = heapless::Vec::<PdoMapping, PDO_MAX_MAPPINGS>::new();
    rpdo_mappings
        .push(PdoMapping {
            index: 0x6200,
            subindex: 1,
            bit_length: 8,
        })
        .unwrap();
    rpdo_mappings
        .push(PdoMapping {
            index: 0x6200,
            subindex: 2,
            bit_length: 8,
        })
        .unwrap();

    let mut tpdo_mappings = heapless::Vec::<PdoMapping, PDO_MAX_MAPPINGS>::new();
    tpdo_mappings
        .push(PdoMapping {
            index: 0x6000,
            subindex: 1,
            bit_length: 8,
        })
        .unwrap();

    let config = NodeConfig::<1, 1, 0> {
        node_id: NodeId::new(1).unwrap(),
        heartbeat_interval_ms: 0,
        auto_start: true,
        tpdo: [TpdoConfig {
            od_number: 0,
            cob_id: 0x181,
            transmission_type: 255,
            inhibit_time_100us: 0,
            event_timer_ms: 0, // no timer, only dirty-triggered
            mappings: tpdo_mappings,
            enabled: true,
        }],
        rpdo: [RpdoConfig {
            od_number: 0,
            cob_id: 0x201,
            transmission_type: 255,
            deadline_ms: 0,
            mappings: rpdo_mappings,
            enabled: true,
        }],
        sdo_servers: [],
        identity: LssIdentity::default(),
    };
    let od = EventTestOd {
        device_type: 0x191,
        output1: 0,
        output2: 0,
        input1: 0,
    };
    let mut node: Node<EventTestOd, 1, 1, 0, 16, 8> = Node::new(config, od);
    let mut transport = MailboxTransport::<32, 32>::new();

    // Boot + auto-start
    node.process(&mut transport, &TestClock(0));
    // Drain boot heartbeat
    while transport.next_to_transmit().is_some() {}
    assert_eq!(node.state(), NmtState::Operational);

    (node, transport)
}

/// Changes the dictionary and announces what differs.
fn update(
    node: &mut Node<EventTestOd, 1, 1, 0, 16, 8>,
    change: impl FnOnce(&mut EventTestOd),
) {
    let before = node.od().clone();
    change(node.od_mut());
    node.notify_differences(&before);
}

#[test]
fn sdo_download_generates_event() {
    let (mut node, mut transport) = make_event_node();

    // SDO expedited download: write 0x42 to 0x6200:1
    let sdo_req =
        CanFrame::new(0x601, &[0x2F, 0x00, 0x62, 0x01, 0x42, 0x00, 0x00, 0x00]).unwrap();
    transport.store_received(sdo_req).unwrap();
    node.process(&mut transport, &TestClock(1000));

    let evt = node.next_event().unwrap();
    assert_eq!(evt.index, 0x6200);
    assert_eq!(evt.subindex, 1);
    assert_eq!(evt.source, OdEventSource::Sdo);
    assert!(node.next_event().is_none());
}

#[test]
fn rpdo_generates_events_per_mapped_entry() {
    let (mut node, mut transport) = make_event_node();

    // Send RPDO frame with two mapped bytes
    let rpdo_frame = CanFrame::new(0x201, &[0xAA, 0xBB]).unwrap();
    transport.store_received(rpdo_frame).unwrap();
    node.process(&mut transport, &TestClock(1000));

    let evt1 = node.next_event().unwrap();
    assert_eq!(evt1.index, 0x6200);
    assert_eq!(evt1.subindex, 1);
    assert_eq!(evt1.source, OdEventSource::Rpdo);

    let evt2 = node.next_event().unwrap();
    assert_eq!(evt2.index, 0x6200);
    assert_eq!(evt2.subindex, 2);
    assert_eq!(evt2.source, OdEventSource::Rpdo);

    assert!(node.next_event().is_none());
    assert_eq!(node.od().output1, 0xAA);
    assert_eq!(node.od().output2, 0xBB);
}

fn make_deadline_node() -> (Node<EventTestOd, 1, 1, 0, 16, 8>, MailboxTransport<32, 32>) {
    let mut rpdo_mappings = heapless::Vec::<PdoMapping, PDO_MAX_MAPPINGS>::new();
    rpdo_mappings
        .push(PdoMapping {
            index: 0x6200,
            subindex: 1,
            bit_length: 8,
        })
        .unwrap();

    let config = NodeConfig::<1, 1, 0> {
        node_id: NodeId::new(1).unwrap(),
        heartbeat_interval_ms: 0,
        auto_start: true,
        tpdo: [TpdoConfig::default()],
        rpdo: [RpdoConfig {
            od_number: 0,
            cob_id: 0x201,
            transmission_type: 255,
            deadline_ms: 100,
            mappings: rpdo_mappings,
            enabled: true,
        }],
        sdo_servers: [],
        identity: LssIdentity::default(),
    };
    let od = EventTestOd {
        device_type: 0x191,
        output1: 0,
        output2: 0,
        input1: 0,
    };
    let mut node: Node<EventTestOd, 1, 1, 0, 16, 8> = Node::new(config, od);
    let mut transport = MailboxTransport::<32, 32>::new();
    node.process(&mut transport, &TestClock(0));
    while transport.next_to_transmit().is_some() {}
    assert_eq!(node.state(), NmtState::Operational);
    (node, transport)
}

#[test]
fn placeholder_pdos_not_addressable_and_unresolved_cob_id_is_none() {
    let mut rpdo_mappings = heapless::Vec::<PdoMapping, PDO_MAX_MAPPINGS>::new();
    rpdo_mappings
        .push(PdoMapping {
            index: 0x6200,
            subindex: 1,
            bit_length: 8,
        })
        .unwrap();

    let config = NodeConfig::<1, 2, 0> {
        node_id: NodeId::new(1).unwrap(),
        heartbeat_interval_ms: 0,
        auto_start: false,
        // TPDO slot is a pure placeholder; RPDO slot 1 too.
        tpdo: [TpdoConfig::default()],
        rpdo: [
            RpdoConfig {
                od_number: 0,
                cob_id: 0x201,
                transmission_type: 255,
                deadline_ms: 0,
                mappings: rpdo_mappings,
                enabled: true,
            },
            RpdoConfig::default(),
        ],
        sdo_servers: [],
        identity: LssIdentity::default(),
    };
    let od = EventTestOd {
        device_type: 0x191,
        output1: 0,
        output2: 0,
        input1: 0,
    };
    let node: Node<EventTestOd, 1, 2, 0, 16, 8> = Node::new(config, od);

    // Declared RPDO1 is addressable; the padding slot is not "RPDO2".
    assert_eq!(node.rpdo_cob_id(PdoNumber::of::<1>()).unwrap().raw(), 0x201);
    assert!(node.rpdo_cob_id(PdoNumber::of::<2>()).is_none());
    assert!(!node.rpdo_deadline_expired(PdoNumber::of::<2>()));
    // Placeholder TPDO slot is not "TPDO1" either.
    assert!(node.tpdo_cob_id(PdoNumber::of::<1>()).is_none());
}

#[test]
fn rpdo_deadline_initially_expired_without_events() {
    let (mut node, mut transport) = make_deadline_node();

    // Immediately after going Operational, before any reception: the
    // level flag reads true (no in-deadline data exists), but no event
    // is queued — the edge channel arms on first reception.
    assert!(node.rpdo_deadline_expired(PdoNumber::of::<1>()));
    assert!(node.next_event().is_none());

    // Still true and still event-free after arbitrary silence.
    node.process(&mut transport, &TestClock(60_000_000));
    assert!(node.rpdo_deadline_expired(PdoNumber::of::<1>()));
    assert!(node.next_event().is_none());

    // First reception clears the flag.
    transport
        .store_received(CanFrame::new(0x201, &[0x01]).unwrap())
        .unwrap();
    node.process(&mut transport, &TestClock(60_010_000));
    assert!(!node.rpdo_deadline_expired(PdoNumber::of::<1>()));
}

#[test]
fn rpdo_deadline_fires_event_and_flag_after_silence() {
    let (mut node, mut transport) = make_deadline_node();

    // Silence before the first reception: level flag up, no events.
    node.process(&mut transport, &TestClock(10_000_000));
    assert!(node.rpdo_deadline_expired(PdoNumber::of::<1>()));
    assert!(node.next_event().is_none());

    // First reception arms monitoring and clears the flag.
    transport
        .store_received(CanFrame::new(0x201, &[0x55]).unwrap())
        .unwrap();
    node.process(&mut transport, &TestClock(10_000_000));
    assert!(!node.rpdo_deadline_expired(PdoNumber::of::<1>()));
    let evt = node.next_event().unwrap();
    assert_eq!(evt.source, OdEventSource::Rpdo);

    // 150 ms of silence > 100 ms deadline: flag + one event, value kept.
    node.process(&mut transport, &TestClock(10_150_000));
    assert!(node.rpdo_deadline_expired(PdoNumber::of::<1>()));
    assert_eq!(node.od().output1, 0x55);
    let evt = node.next_event().unwrap();
    assert_eq!(evt.index, 0x1400);
    assert_eq!(evt.subindex, 0);
    assert_eq!(evt.source, OdEventSource::RpdoDeadline);

    // Edge-triggered: continued silence produces no further events.
    node.process(&mut transport, &TestClock(10_300_000));
    assert!(node.next_event().is_none());
    assert!(node.rpdo_deadline_expired(PdoNumber::of::<1>()));

    // Reception clears the flag and re-arms; a second silence fires again.
    transport
        .store_received(CanFrame::new(0x201, &[0x66]).unwrap())
        .unwrap();
    node.process(&mut transport, &TestClock(10_400_000));
    assert!(!node.rpdo_deadline_expired(PdoNumber::of::<1>()));
    assert_eq!(node.next_event().unwrap().source, OdEventSource::Rpdo);

    node.process(&mut transport, &TestClock(10_600_000));
    assert!(node.rpdo_deadline_expired(PdoNumber::of::<1>()));
    assert_eq!(
        node.next_event().unwrap().source,
        OdEventSource::RpdoDeadline
    );
}

#[test]
fn rpdo_deadline_cleared_when_leaving_operational() {
    let (mut node, mut transport) = make_deadline_node();

    // Arm monitoring.
    transport
        .store_received(CanFrame::new(0x201, &[0x77]).unwrap())
        .unwrap();
    node.process(&mut transport, &TestClock(0));
    while node.next_event().is_some() {}

    // NMT Enter Pre-Operational: PDO traffic legitimately stops. The
    // edge state is discarded; the level flag returns to "no fresh data".
    transport
        .store_received(CanFrame::new(0x000, &[0x80, 0x01]).unwrap())
        .unwrap();
    node.process(&mut transport, &TestClock(50_000));
    assert_eq!(node.state(), NmtState::PreOperational);

    // Long silence outside Operational: flag up, but no expiry events.
    node.process(&mut transport, &TestClock(10_000_000));
    assert!(node.rpdo_deadline_expired(PdoNumber::of::<1>()));
    assert!(node.next_event().is_none());

    // Back to Operational: edge channel stays disarmed (no events) until
    // the next frame; the level flag stays up meanwhile.
    transport
        .store_received(CanFrame::new(0x000, &[0x01, 0x01]).unwrap())
        .unwrap();
    node.process(&mut transport, &TestClock(10_050_000));
    assert_eq!(node.state(), NmtState::Operational);
    node.process(&mut transport, &TestClock(20_000_000));
    assert!(node.rpdo_deadline_expired(PdoNumber::of::<1>()));
    assert!(node.next_event().is_none());

    // A frame restores freshness.
    transport
        .store_received(CanFrame::new(0x201, &[0x78]).unwrap())
        .unwrap();
    node.process(&mut transport, &TestClock(20_010_000));
    assert!(!node.rpdo_deadline_expired(PdoNumber::of::<1>()));
}

#[test]
fn rpdo_deadline_event_index_does_not_truncate_slots_above_255() {
    let mut rpdo: [RpdoConfig; 257] = core::array::from_fn(|_| RpdoConfig::default());

    let mut mappings = heapless::Vec::<PdoMapping, PDO_MAX_MAPPINGS>::new();
    mappings
        .push(PdoMapping {
            index: 0x6200,
            subindex: 1,
            bit_length: 8,
        })
        .unwrap();

    // Slot 256 is RPDO257, whose comm parameter index is 0x1500.
    rpdo[256] = RpdoConfig {
        od_number: 257,
        cob_id: 0x201,
        transmission_type: 255,
        deadline_ms: 100,
        mappings,
        enabled: true,
    };

    let config = NodeConfig::<0, 257, 0> {
        node_id: NodeId::new(1).unwrap(),
        heartbeat_interval_ms: 0,
        auto_start: true,
        tpdo: [],
        rpdo,
        sdo_servers: [],
        identity: LssIdentity::default(),
    };

    let od = EventTestOd {
        device_type: 0x191,
        output1: 0,
        output2: 0,
        input1: 0,
    };
    let mut node: Node<EventTestOd, 0, 257, 0, 16, 8> = Node::new(config, od);
    let mut transport = MailboxTransport::<32, 32>::new();

    node.process(&mut transport, &TestClock(0));
    while transport.next_to_transmit().is_some() {}

    transport
        .store_received(CanFrame::new(0x201, &[0x55]).unwrap())
        .unwrap();
    node.process(&mut transport, &TestClock(1_000));
    while node.next_event().is_some() {}

    node.process(&mut transport, &TestClock(102_000));

    let evt = node.next_event().unwrap();
    assert_eq!(evt.source, OdEventSource::RpdoDeadline);
    assert_eq!(evt.index, 0x1500);
    assert!(node.rpdo_deadline_expired(PdoNumber::of::<257>()));
}

#[test]
fn event_queue_overflow_drops_oldest() {
    // Use a tiny queue of size 2
    let mut rpdo_mappings = heapless::Vec::<PdoMapping, PDO_MAX_MAPPINGS>::new();
    rpdo_mappings
        .push(PdoMapping {
            index: 0x6200,
            subindex: 1,
            bit_length: 8,
        })
        .unwrap();
    rpdo_mappings
        .push(PdoMapping {
            index: 0x6200,
            subindex: 2,
            bit_length: 8,
        })
        .unwrap();

    let config = NodeConfig::<1, 1, 0> {
        node_id: NodeId::new(1).unwrap(),
        heartbeat_interval_ms: 0,
        auto_start: true,
        tpdo: [TpdoConfig::default()],
        rpdo: [RpdoConfig {
            od_number: 0,
            cob_id: 0x201,
            transmission_type: 255,
            deadline_ms: 0,
            mappings: rpdo_mappings,
            enabled: true,
        }],
        sdo_servers: [],
        identity: LssIdentity::default(),
    };
    let od = EventTestOd {
        device_type: 0x191,
        output1: 0,
        output2: 0,
        input1: 0,
    };
    // EVT_QUEUE = 2, so two RPDO events will fill it, then SDO will overflow
    let mut node: Node<EventTestOd, 1, 1, 0, 2, 8> = Node::new(config, od);
    let mut transport = MailboxTransport::<32, 32>::new();

    node.process(&mut transport, &TestClock(0));
    while transport.next_to_transmit().is_some() {}

    // RPDO with 2 mappings fills the queue
    let rpdo_frame = CanFrame::new(0x201, &[0x11, 0x22]).unwrap();
    transport.store_received(rpdo_frame).unwrap();
    // SDO write will try to push a 3rd event, dropping the oldest
    let sdo_req =
        CanFrame::new(0x601, &[0x2F, 0x00, 0x62, 0x01, 0x33, 0x00, 0x00, 0x00]).unwrap();
    transport.store_received(sdo_req).unwrap();
    node.process(&mut transport, &TestClock(1000));

    // Oldest (0x6200:1 RPDO) should have been dropped
    let evt1 = node.next_event().unwrap();
    assert_eq!(evt1.index, 0x6200);
    assert_eq!(evt1.subindex, 2);
    assert_eq!(evt1.source, OdEventSource::Rpdo);

    let evt2 = node.next_event().unwrap();
    assert_eq!(evt2.index, 0x6200);
    assert_eq!(evt2.subindex, 1);
    assert_eq!(evt2.source, OdEventSource::Sdo);

    assert!(node.next_event().is_none());
}

#[test]
fn only_lost_events_are_counted() {
    let config = NodeConfig::<1, 1, 0> {
        node_id: NodeId::new(1).unwrap(),
        heartbeat_interval_ms: 0,
        auto_start: true,
        tpdo: [TpdoConfig::default()],
        rpdo: [RpdoConfig::default()],
        sdo_servers: [],
        identity: LssIdentity::default(),
    };
    let od = EventTestOd {
        device_type: 0x191,
        output1: 0,
        output2: 0,
        input1: 0,
    };
    let mut node: Node<EventTestOd, 1, 1, 0, 1, 8> = Node::new(config, od);
    let mut transport = MailboxTransport::<32, 32>::new();
    node.process(&mut transport, &TestClock(0));

    let write = CanFrame::new(0x601, &[0x2F, 0x00, 0x62, 0x01, 0x33, 0, 0, 0]).unwrap();
    let read = CanFrame::new(0x601, &[0x40, 0x00, 0x62, 0x01, 0, 0, 0, 0]).unwrap();
    let refused = CanFrame::new(0x601, &[0x2F, 0x00, 0x50, 0x01, 0x33, 0, 0, 0]).unwrap();
    // The first write fills the queue, and only the second one pushes an event
    // out of it.
    for (frame, dropped) in [(write, 0), (read, 0), (refused, 0), (write, 1), (read, 1)] {
        transport.store_received(frame).unwrap();
        node.process(&mut transport, &TestClock(1000));
        assert_eq!(node.events_dropped(), dropped);
    }
}

#[test]
fn event_queue_drop_count_includes_drops_inside_multi_mapping_rpdo() {
    let mut rpdo_mappings = heapless::Vec::<PdoMapping, PDO_MAX_MAPPINGS>::new();
    rpdo_mappings
        .push(PdoMapping {
            index: 0x6200,
            subindex: 1,
            bit_length: 8,
        })
        .unwrap();
    rpdo_mappings
        .push(PdoMapping {
            index: 0x6200,
            subindex: 2,
            bit_length: 8,
        })
        .unwrap();

    let config = NodeConfig::<1, 1, 0> {
        node_id: NodeId::new(1).unwrap(),
        heartbeat_interval_ms: 0,
        auto_start: true,
        tpdo: [TpdoConfig::default()],
        rpdo: [RpdoConfig {
            od_number: 0,
            cob_id: 0x201,
            transmission_type: 255,
            deadline_ms: 0,
            mappings: rpdo_mappings,
            enabled: true,
        }],
        sdo_servers: [],
        identity: LssIdentity::default(),
    };
    let od = EventTestOd {
        device_type: 0x191,
        output1: 0,
        output2: 0,
        input1: 0,
    };
    let mut node: Node<EventTestOd, 1, 1, 0, 1, 8> = Node::new(config, od);
    let mut transport = MailboxTransport::<32, 32>::new();

    node.process(&mut transport, &TestClock(0));
    while transport.next_to_transmit().is_some() {}

    let rpdo_frame = CanFrame::new(0x201, &[0x11, 0x22]).unwrap();
    transport.store_received(rpdo_frame).unwrap();
    node.process(&mut transport, &TestClock(1000));

    assert_eq!(node.events_dropped(), 1);
}

#[test]
fn notify_changed_triggers_tpdo() {
    let (mut node, mut transport) = make_event_node();

    // No TPDO should be sent without notification (event_timer_ms=0, no dirty)
    node.process(&mut transport, &TestClock(1000));
    assert!(transport.next_to_transmit().is_none());

    // Update input and notify
    node.od_mut().input1 = 0x55;
    node.notify_changed(0x6000, 1);
    node.process(&mut transport, &TestClock(2000));

    let frame = transport.next_to_transmit().unwrap();
    assert_eq!(frame.raw_id(), 0x181);
    assert_eq!(frame.data()[0], 0x55);
}

#[test]
fn notify_changed_respects_inhibit_time() {
    let mut tpdo_mappings = heapless::Vec::<PdoMapping, PDO_MAX_MAPPINGS>::new();
    tpdo_mappings
        .push(PdoMapping {
            index: 0x6000,
            subindex: 1,
            bit_length: 8,
        })
        .unwrap();

    let config = NodeConfig::<1, 1, 0> {
        node_id: NodeId::new(1).unwrap(),
        heartbeat_interval_ms: 0,
        auto_start: true,
        tpdo: [TpdoConfig {
            od_number: 0,
            cob_id: 0x181,
            transmission_type: 255,
            inhibit_time_100us: 1000, // 100ms inhibit
            event_timer_ms: 0,
            mappings: tpdo_mappings,
            enabled: true,
        }],
        rpdo: [RpdoConfig::default()],
        sdo_servers: [],
        identity: LssIdentity::default(),
    };
    let od = EventTestOd {
        device_type: 0x191,
        output1: 0,
        output2: 0,
        input1: 0x10,
    };
    let mut node: Node<EventTestOd, 1, 1, 0, 16, 8> = Node::new(config, od);
    let mut transport = MailboxTransport::<32, 32>::new();

    node.process(&mut transport, &TestClock(0));
    while transport.next_to_transmit().is_some() {}

    // First notify: should send (elapsed since last_send=0 is 50ms, but last_send starts at 0)
    node.od_mut().input1 = 0x11;
    node.notify_changed(0x6000, 1);
    node.process(&mut transport, &TestClock(50_000)); // 50ms - less than 100ms inhibit
                                                      // last_send_us[0] is 0, elapsed = 50ms < 100ms inhibit, should NOT send
    assert!(transport.next_to_transmit().is_none());

    // At 100ms, should send
    node.notify_changed(0x6000, 1);
    node.process(&mut transport, &TestClock(100_000));
    let frame = transport.next_to_transmit().unwrap();
    assert_eq!(frame.data()[0], 0x11);

    // Immediately after, within inhibit time, should not send
    node.od_mut().input1 = 0x22;
    node.notify_changed(0x6000, 1);
    node.process(&mut transport, &TestClock(150_000)); // 50ms after last send
    assert!(transport.next_to_transmit().is_none());
}

#[test]
fn notify_changed_does_not_trigger_sync_tpdo() {
    let mut tpdo_mappings = heapless::Vec::<PdoMapping, PDO_MAX_MAPPINGS>::new();
    tpdo_mappings
        .push(PdoMapping {
            index: 0x6000,
            subindex: 1,
            bit_length: 8,
        })
        .unwrap();

    let config = NodeConfig::<1, 1, 0> {
        node_id: NodeId::new(1).unwrap(),
        heartbeat_interval_ms: 0,
        auto_start: true,
        tpdo: [TpdoConfig {
            od_number: 0,
            cob_id: 0x181,
            transmission_type: 1, // sync cyclic, NOT event-driven
            inhibit_time_100us: 0,
            event_timer_ms: 0,
            mappings: tpdo_mappings,
            enabled: true,
        }],
        rpdo: [RpdoConfig::default()],
        sdo_servers: [],
        identity: LssIdentity::default(),
    };
    let od = EventTestOd {
        device_type: 0x191,
        output1: 0,
        output2: 0,
        input1: 0x42,
    };
    let mut node: Node<EventTestOd, 1, 1, 0, 16, 8> = Node::new(config, od);
    let mut transport = MailboxTransport::<32, 32>::new();

    node.process(&mut transport, &TestClock(0));
    while transport.next_to_transmit().is_some() {}

    // notify_changed should NOT trigger a sync-type TPDO
    node.notify_changed(0x6000, 1);
    node.process(&mut transport, &TestClock(1000));
    assert!(transport.next_to_transmit().is_none());
}

#[test]
fn od_guard_auto_notifies_on_drop() {
    let (mut node, mut transport) = make_event_node();

    // No explicit notify_changed — the differences are noticed
    update(&mut node, |od| od.input1 = 0x77);
    node.process(&mut transport, &TestClock(1000));

    let frame = transport.next_to_transmit().unwrap();
    assert_eq!(frame.raw_id(), 0x181);
    assert_eq!(frame.data()[0], 0x77);
}

#[test]
fn od_guard_batch_update() {
    let (mut node, mut transport) = make_event_node();

    // Batch update: one snapshot, one diff
    update(&mut node, |od| {
        od.input1 = 0xAA;
        // output1 is RPDO-mapped, not TPDO — shouldn't trigger
        od.output1 = 0xBB;
    });
    node.process(&mut transport, &TestClock(1000));

    let frame = transport.next_to_transmit().unwrap();
    assert_eq!(frame.data()[0], 0xAA);
    // Only one TPDO sent (input1 changed)
    assert!(transport.next_to_transmit().is_none());
}

#[test]
fn request_reset_reboots_node() {
    let config = NodeConfig::<1, 1, 0> {
        node_id: NodeId::new(1).unwrap(),
        heartbeat_interval_ms: 100,
        auto_start: false,
        tpdo: [TpdoConfig::default()],
        rpdo: [RpdoConfig::default()],
        sdo_servers: [],
        identity: LssIdentity::default(),
    };
    let od = MinimalOd {
        device_type: 0x191,
        error_reg: 0,
    };
    let mut node: Node<MinimalOd, 1, 1, 0, 16, 8> = Node::new(config, od);
    let mut transport = MailboxTransport::<16, 16>::new();

    // Boot and go to PreOperational
    node.process(&mut transport, &TestClock(0));
    while transport.next_to_transmit().is_some() {}
    assert_eq!(node.state(), NmtState::PreOperational);

    // Request reset — should go back to Initializing
    node.request_reset(ResetType::Application);
    assert_eq!(node.state(), NmtState::Initializing);

    // Next process() should re-boot (send boot heartbeat, transition to PreOp)
    node.process(&mut transport, &TestClock(100_000));
    let frame = transport.next_to_transmit().unwrap();
    assert_eq!(frame.raw_id(), 0x701);
    assert_eq!(frame.data()[0], 0x00); // boot heartbeat
    assert_eq!(node.state(), NmtState::PreOperational);
}

#[test]
fn od_guard_no_change_no_notify() {
    let (mut node, mut transport) = make_event_node();

    // Write the same value — no change, no TPDO
    update(&mut node, |od| od.input1 = 0); // already 0
    node.process(&mut transport, &TestClock(1000));
    assert!(transport.next_to_transmit().is_none());
}

// --- OD with 0x1017 producer + 0x1016 consumer entries ---

#[derive(Clone)]
struct HbOd {
    producer_time: u16,
    consumer: [u32; 3],
}

fn hb_meta() -> Vec<OdEntryMeta> {
    vec![
        OdEntryMeta {
            index: 0x1016,
            subindex: 0,
            data_type: DataType::U8,
            access: AccessType::Ro,
            pdo_mappable: false,
            name: String::from("consumer_heartbeat_count"),
            max_size: None,
        },
        OdEntryMeta {
            index: 0x1016,
            subindex: 1,
            data_type: DataType::U32,
            access: AccessType::Rw,
            pdo_mappable: false,
            name: String::from("consumer_heartbeat_1"),
            max_size: None,
        },
        OdEntryMeta {
            index: 0x1016,
            subindex: 2,
            data_type: DataType::U32,
            access: AccessType::Rw,
            pdo_mappable: false,
            name: String::from("consumer_heartbeat_2"),
            max_size: None,
        },
        OdEntryMeta {
            index: 0x1016,
            subindex: 3,
            data_type: DataType::U32,
            access: AccessType::Rw,
            pdo_mappable: false,
            name: String::from("consumer_heartbeat_3"),
            max_size: None,
        },
        OdEntryMeta {
            index: 0x1017,
            subindex: 0,
            data_type: DataType::U16,
            access: AccessType::Rw,
            pdo_mappable: false,
            name: String::from("producer_heartbeat_time"),
            max_size: None,
        },
    ]
}

impl OdContents for HbOd {}

impl ObjectDictionary for HbOd {
    type Contents = HbOd;

    fn lookup(&self, index: u16, subindex: u8) -> Option<OdEntryMeta> {
        hb_meta()
            .into_iter()
            .find(|e| e.index == index && e.subindex == subindex)
    }
    fn read(&self, index: u16, subindex: u8, buf: &mut [u8]) -> Result<usize, OdError> {
        match (index, subindex) {
            (0x1017, 0) => {
                buf[..2].copy_from_slice(&self.producer_time.to_le_bytes());
                Ok(2)
            }
            (0x1016, 0) => {
                buf[0] = 3;
                Ok(1)
            }
            (0x1016, sub @ 1..=3) => {
                buf[..4].copy_from_slice(&self.consumer[(sub as usize) - 1].to_le_bytes());
                Ok(4)
            }
            _ => Err(OdError::NotFound),
        }
    }
    fn write(&mut self, index: u16, subindex: u8, data: &[u8]) -> Result<(), OdError> {
        match (index, subindex) {
            (0x1017, 0) if data.len() == 2 => {
                self.producer_time = u16::from_le_bytes(data.try_into().unwrap());
                Ok(())
            }
            (0x1016, sub @ 1..=3) if data.len() == 4 => {
                self.consumer[(sub as usize) - 1] =
                    u32::from_le_bytes(data.try_into().unwrap());
                Ok(())
            }
            (0x1016 | 0x1017, _) => Err(OdError::DataTypeMismatch),
            _ => Err(OdError::NotFound),
        }
    }
    fn validate_write(&self, _: u16, _: u8, _: &[u8]) -> Result<(), OdError> {
        Ok(())
    }
    fn sub_count(&self, index: u16) -> Option<u8> {
        match index {
            0x1016 => Some(3),
            _ => None,
        }
    }
    fn store_sdo_server_cob_ids(&mut self, _: NodeId) {}
}

fn make_hb_node(od: HbOd) -> (Node<HbOd, 1, 1, 0, 16, 8>, MailboxTransport<32, 32>) {
    let config = NodeConfig::<1, 1, 0> {
        node_id: NodeId::new(1).unwrap(),
        heartbeat_interval_ms: 1000,
        auto_start: false,
        tpdo: [TpdoConfig::default()],
        rpdo: [RpdoConfig::default()],
        sdo_servers: [],
        identity: LssIdentity::default(),
    };
    (Node::new(config, od), MailboxTransport::<32, 32>::new())
}

/// Drain transmitted frames, returning the heartbeat state bytes seen.
fn drain_heartbeats(transport: &mut MailboxTransport<32, 32>) -> Vec<u8> {
    let mut out = Vec::new();
    while let Some(frame) = transport.next_to_transmit() {
        if frame.raw_id() == 0x701 {
            out.push(frame.data()[0]);
        }
    }
    out
}

#[test]
fn producer_interval_from_od_wins_over_config() {
    // NodeConfig says 1000ms, OD 0x1017 says 100ms — OD wins.
    let (mut node, mut transport) = make_hb_node(HbOd {
        producer_time: 100,
        consumer: [0; 3],
    });
    assert_eq!(node.heartbeat_interval_ms(), 100);

    node.process(&mut transport, &TestClock(0)); // boot frame
    assert_eq!(drain_heartbeats(&mut transport), &[0x00]);

    node.process(&mut transport, &TestClock(50_000));
    assert!(drain_heartbeats(&mut transport).is_empty());

    node.process(&mut transport, &TestClock(100_000));
    assert_eq!(drain_heartbeats(&mut transport), &[0x7F]);
}

#[test]
fn sdo_write_1017_changes_cadence() {
    let (mut node, mut transport) = make_hb_node(HbOd {
        producer_time: 1000,
        consumer: [0; 3],
    });
    node.process(&mut transport, &TestClock(0)); // boot
    while transport.next_to_transmit().is_some() {}

    // SDO expedited write: 0x1017:0 = 50ms
    let req = CanFrame::new(0x601, &[0x2B, 0x17, 0x10, 0x00, 50, 0, 0, 0]).unwrap();
    transport.store_received(req).unwrap();
    node.process(&mut transport, &TestClock(10_000));
    let resp = transport.next_to_transmit().unwrap();
    assert_eq!(resp.raw_id(), 0x581);
    assert_eq!(resp.data()[0], 0x60); // download response, not abort
    assert_eq!(node.heartbeat_interval_ms(), 50);

    // Old 1000ms cadence no longer applies; the next heartbeat is due
    // 50ms after the boot frame (last-sent timestamp), then every 50ms.
    node.process(&mut transport, &TestClock(20_000));
    assert!(drain_heartbeats(&mut transport).is_empty());
    node.process(&mut transport, &TestClock(50_000));
    assert_eq!(drain_heartbeats(&mut transport), &[0x7F]);
    node.process(&mut transport, &TestClock(70_000));
    assert!(drain_heartbeats(&mut transport).is_empty());
    node.process(&mut transport, &TestClock(100_000));
    assert_eq!(drain_heartbeats(&mut transport), &[0x7F]);
}

#[test]
fn sdo_write_1017_zero_disables_producer() {
    let (mut node, mut transport) = make_hb_node(HbOd {
        producer_time: 100,
        consumer: [0; 3],
    });
    node.process(&mut transport, &TestClock(0)); // boot
    while transport.next_to_transmit().is_some() {}

    let req = CanFrame::new(0x601, &[0x2B, 0x17, 0x10, 0x00, 0, 0, 0, 0]).unwrap();
    transport.store_received(req).unwrap();
    node.process(&mut transport, &TestClock(10_000));
    let resp = transport.next_to_transmit().unwrap();
    assert_eq!(resp.data()[0], 0x60);
    assert_eq!(node.heartbeat_interval_ms(), 0);

    for t in [100_000u64, 500_000, 5_000_000, 60_000_000] {
        node.process(&mut transport, &TestClock(t));
        assert!(drain_heartbeats(&mut transport).is_empty());
    }
}

#[test]
fn consumer_monitors_node_from_od() {
    let remote = NodeId::new(5).unwrap();
    // Monitor node 5 with 200ms consumer time
    let (mut node, mut transport) = make_hb_node(HbOd {
        producer_time: 0,
        consumer: [(5 << 16) | 200, 0, 0],
    });
    node.process(&mut transport, &TestClock(0)); // boot
    while transport.next_to_transmit().is_some() {}

    assert_eq!(
        node.heartbeat_status(remote),
        HeartbeatMonitorState::Waiting
    );
    // Nothing monitored for other nodes
    assert_eq!(
        node.heartbeat_status(NodeId::new(6).unwrap()),
        HeartbeatMonitorState::Disabled
    );

    // Configured-but-silent node never times out (monitoring not started)
    node.process(&mut transport, &TestClock(10_000_000));
    assert!(node.next_heartbeat_event().is_none());

    // First heartbeat starts monitoring
    let hb = CanFrame::new(0x705, &[0x05]).unwrap();
    transport.store_received(hb).unwrap();
    node.process(&mut transport, &TestClock(10_100_000));
    assert_eq!(
        node.next_heartbeat_event(),
        Some(HeartbeatEvent::Started {
            node: remote,
            state: NmtState::Operational
        })
    );
    assert!(node.heartbeat_status(remote).is_alive());

    // 150ms later: still fresh
    node.process(&mut transport, &TestClock(10_250_000));
    assert!(node.next_heartbeat_event().is_none());

    // 250ms after last heartbeat: timeout
    node.process(&mut transport, &TestClock(10_350_000));
    assert_eq!(
        node.next_heartbeat_event(),
        Some(HeartbeatEvent::Timeout { node: remote })
    );
    assert!(!node.heartbeat_status(remote).is_alive());

    // Heartbeat resumes: recovery
    let hb = CanFrame::new(0x705, &[0x05]).unwrap();
    transport.store_received(hb).unwrap();
    node.process(&mut transport, &TestClock(10_400_000));
    assert_eq!(
        node.next_heartbeat_event(),
        Some(HeartbeatEvent::Recovered {
            node: remote,
            state: NmtState::Operational
        })
    );
    assert!(node.heartbeat_status(remote).is_alive());
}

#[test]
fn consumer_configured_at_runtime_via_sdo() {
    let remote = NodeId::new(9).unwrap();
    let (mut node, mut transport) = make_hb_node(HbOd {
        producer_time: 0,
        consumer: [0; 3],
    });
    node.process(&mut transport, &TestClock(0)); // boot
    while transport.next_to_transmit().is_some() {}
    assert_eq!(
        node.heartbeat_status(remote),
        HeartbeatMonitorState::Disabled
    );

    // 0x1016:1 = node 9, 100ms
    let value: u32 = (9 << 16) | 100;
    let mut req = [0x23, 0x16, 0x10, 0x01, 0, 0, 0, 0];
    req[4..8].copy_from_slice(&value.to_le_bytes());
    transport
        .store_received(CanFrame::new(0x601, &req).unwrap())
        .unwrap();
    node.process(&mut transport, &TestClock(10_000));
    let resp = transport.next_to_transmit().unwrap();
    assert_eq!(resp.data()[0], 0x60);
    assert_eq!(
        node.heartbeat_status(remote),
        HeartbeatMonitorState::Waiting
    );

    // Boot-up frame also starts monitoring
    transport
        .store_received(CanFrame::new(0x709, &[0x00]).unwrap())
        .unwrap();
    node.process(&mut transport, &TestClock(20_000));
    assert_eq!(
        node.next_heartbeat_event(),
        Some(HeartbeatEvent::Started {
            node: remote,
            state: NmtState::Initializing
        })
    );

    // Rewriting the same value must not reset the running monitor
    transport
        .store_received(CanFrame::new(0x601, &req).unwrap())
        .unwrap();
    node.process(&mut transport, &TestClock(30_000));
    let resp = transport.next_to_transmit().unwrap();
    assert_eq!(resp.data()[0], 0x60);
    assert!(node.heartbeat_status(remote).is_alive());

    // Writing 0 disables the monitor
    let req0 = [0x23, 0x16, 0x10, 0x01, 0, 0, 0, 0];
    transport
        .store_received(CanFrame::new(0x601, &req0).unwrap())
        .unwrap();
    node.process(&mut transport, &TestClock(40_000));
    let resp = transport.next_to_transmit().unwrap();
    assert_eq!(resp.data()[0], 0x60);
    assert_eq!(
        node.heartbeat_status(remote),
        HeartbeatMonitorState::Disabled
    );
}

/// Expect an SDO abort with the given code in response to a 0x1016 write.
fn expect_1016_abort(value: u32, subindex: u8, existing: [u32; 3], code: u32) {
    let (mut node, mut transport) = make_hb_node(HbOd {
        producer_time: 0,
        consumer: existing,
    });
    node.process(&mut transport, &TestClock(0));
    while transport.next_to_transmit().is_some() {}

    let mut req = [0x23, 0x16, 0x10, subindex, 0, 0, 0, 0];
    req[4..8].copy_from_slice(&value.to_le_bytes());
    transport
        .store_received(CanFrame::new(0x601, &req).unwrap())
        .unwrap();
    node.process(&mut transport, &TestClock(10_000));
    let resp = transport.next_to_transmit().unwrap();
    assert_eq!(
        resp.data()[0],
        0x80,
        "expected abort for value {value:#010X}"
    );
    assert_eq!(
        u32::from_le_bytes(resp.data()[4..8].try_into().unwrap()),
        code
    );
}

#[test]
fn invalid_1016_writes_abort() {
    // Node id 0 with non-zero time
    expect_1016_abort(100, 1, [0; 3], 0x0609_0030);
    // Node id > 127
    expect_1016_abort((200 << 16) | 100, 1, [0; 3], 0x0609_0030);
    // Reserved bits set
    expect_1016_abort(0xFF00_0000 | (5 << 16) | 100, 1, [0; 3], 0x0609_0030);
    // Reserved bits are rejected even on a disabled entry (time 0)
    expect_1016_abort(0x0100_0000, 1, [0; 3], 0x0609_0030);
    // Same node monitored by another active entry
    expect_1016_abort((5 << 16) | 300, 2, [(5 << 16) | 200, 0, 0], 0x0604_0043);
}

#[test]
fn valid_1016_overwrite_of_same_slot_is_not_a_duplicate() {
    // Changing the timeout of the entry that already monitors the node
    // must be allowed (the duplicate check skips the written subindex).
    let remote = NodeId::new(5).unwrap();
    let (mut node, mut transport) = make_hb_node(HbOd {
        producer_time: 0,
        consumer: [(5 << 16) | 200, 0, 0],
    });
    node.process(&mut transport, &TestClock(0));
    while transport.next_to_transmit().is_some() {}

    let value: u32 = (5 << 16) | 500;
    let mut req = [0x23, 0x16, 0x10, 0x01, 0, 0, 0, 0];
    req[4..8].copy_from_slice(&value.to_le_bytes());
    transport
        .store_received(CanFrame::new(0x601, &req).unwrap())
        .unwrap();
    node.process(&mut transport, &TestClock(10_000));
    let resp = transport.next_to_transmit().unwrap();
    assert_eq!(resp.data()[0], 0x60);
    assert_eq!(
        node.heartbeat_status(remote),
        HeartbeatMonitorState::Waiting
    );
}

#[test]
fn config_resync_survives_full_event_queue() {
    // The runtime resync is signalled directly by the SDO server; a full
    // OD event queue (default EVT_QUEUE = 16, oldest evicted on push)
    // must not swallow a 0x1017 config change.
    let (mut node, mut transport) = make_hb_node(HbOd {
        producer_time: 1000,
        consumer: [0; 3],
    });
    node.process(&mut transport, &TestClock(0)); // boot
    while transport.next_to_transmit().is_some() {}

    // Fill the event queue past capacity without draining: 20 distinct
    // writes to 0x1016:1 (rewriting the same slot is always valid).
    for i in 0..20u32 {
        let value: u32 = (9 << 16) | (100 + i);
        let mut req = [0x23, 0x16, 0x10, 0x01, 0, 0, 0, 0];
        req[4..8].copy_from_slice(&value.to_le_bytes());
        transport
            .store_received(CanFrame::new(0x601, &req).unwrap())
            .unwrap();
        node.process(&mut transport, &TestClock(1_000 + i as u64));
        while transport.next_to_transmit().is_some() {}
    }
    assert!(node.events_dropped() > 0, "queue should have overflowed");

    // Queue is full — the 0x1017 write must still reach the producer.
    let req = CanFrame::new(0x601, &[0x2B, 0x17, 0x10, 0x00, 77, 0, 0, 0]).unwrap();
    transport.store_received(req).unwrap();
    node.process(&mut transport, &TestClock(50_000));
    let resp = transport.next_to_transmit().unwrap();
    assert_eq!(resp.data()[0], 0x60);
    assert_eq!(node.heartbeat_interval_ms(), 77);
}

#[test]
fn local_reset_restarts_heartbeat_monitors() {
    // SDO rewrites of an unchanged entry keep monitor state, but a local
    // reset reinitializes: monitoring starts with the first heartbeat
    // again.
    let remote = NodeId::new(5).unwrap();
    let (mut node, mut transport) = make_hb_node(HbOd {
        producer_time: 0,
        consumer: [(5 << 16) | 200, 0, 0],
    });
    node.process(&mut transport, &TestClock(0)); // boot
    while transport.next_to_transmit().is_some() {}

    transport
        .store_received(CanFrame::new(0x705, &[0x05]).unwrap())
        .unwrap();
    node.process(&mut transport, &TestClock(10_000));
    assert!(node.heartbeat_status(remote).is_alive());

    node.request_reset(ResetType::Communication);
    assert_eq!(
        node.heartbeat_status(remote),
        HeartbeatMonitorState::Waiting
    );

    // No stale timeout after the reset — the monitor is waiting again.
    node.process(&mut transport, &TestClock(20_000)); // re-boot
    while transport.next_to_transmit().is_some() {}
    node.process(&mut transport, &TestClock(10_000_000));
    while let Some(evt) = node.next_heartbeat_event() {
        assert!(
            !matches!(evt, HeartbeatEvent::Timeout { .. }),
            "timeout fired from pre-reset monitor state"
        );
    }
}

#[test]
fn errors_are_announced_by_the_node() {
    let (mut node, mut transport) = make_event_node();
    node.set_error(0x3000, 0x04, &[1]);
    assert_eq!(node.error_register(), 0x05);
    node.process(&mut transport, &TestClock(1_000));
    let frame = transport.next_to_transmit().unwrap();
    assert_eq!(frame.raw_id(), 0x081);
    assert_eq!(frame.data()[0..3], [0x00, 0x30, 0x05]);
    node.clear_error(0x04);
    assert_eq!(node.error_register(), 0x01);
    node.clear_all_errors();
    assert_eq!(node.error_register(), 0);
}

#[test]
fn a_burst_of_errors_is_announced_completely() {
    let (mut node, mut transport) = make_event_node();
    node.set_error(0x3000, 0x04, &[1]);
    node.set_error(0x4000, 0x08, &[2]);
    node.clear_all_errors();
    node.process(&mut transport, &TestClock(1_000));
    let mut codes = Vec::new();
    while let Some(frame) = transport.next_to_transmit() {
        if frame.raw_id() == 0x081 {
            codes.push((frame.data()[1], frame.data()[2], frame.data()[3]));
        }
    }
    assert_eq!(codes, vec![(0x30, 0x05, 1), (0x40, 0x0D, 2), (0x00, 0x00, 0)]);
    node.process(&mut transport, &TestClock(2_000));
    assert!(transport.next_to_transmit().is_none());
}

#[test]
fn node_reports_its_parts() {
    let (mut node, _) = make_event_node();
    assert_eq!(node.node_id(), NodeId::new(1).unwrap());
    assert!(!node.has_events());
    assert_eq!(node.tpdo_engine().config(PdoNumber::of::<1>()).unwrap().cob_id, 0x181);
    node.tpdo_engine_mut().config_mut(PdoNumber::of::<1>()).unwrap().cob_id = 0x182;
    assert_eq!(node.tpdo_cob_id(PdoNumber::of::<1>()).unwrap().raw(), 0x182);
    node.rpdo_engine_mut().config_mut(PdoNumber::of::<1>()).unwrap().deadline_ms = 5;
    assert_eq!(node.rpdo_engine().config(PdoNumber::of::<1>()).unwrap().deadline_ms, 5);
}

#[test]
fn commanded_reset_reboots() {
    let (mut node, mut transport) = make_event_node();
    transport.store_received(CanFrame::new(0x000, &[0x82, 0x01]).unwrap()).unwrap();
    node.process(&mut transport, &TestClock(1_000));
    node.process(&mut transport, &TestClock(2_000));
    let boots: Vec<u8> = drain_heartbeats(&mut transport);
    assert!(boots.contains(&0x00));
    assert_eq!(node.state(), NmtState::Operational);
}

#[test]
fn foreign_sdo_requests_are_ignored() {
    let (mut node, mut transport) = make_event_node();
    let req = CanFrame::new(0x602, &[0x40, 0x00, 0x10, 0x00, 0, 0, 0, 0]).unwrap();
    transport.store_received(req).unwrap();
    node.process(&mut transport, &TestClock(1_000));
    assert!(transport.next_to_transmit().is_none());
}
