//! The PDO engines.

use canopen_core::cobid::NodeId;
use canopen_core::datatypes::DataType;
use canopen_core::od::{
    AccessType, ObjectDictionary, OdContents, OdEntryMeta, OdError, OdEvent, OdEventSource,
};
use canopen_core::pdo::{
    heapless_vec_new, heapless_vec_push, PdoMapping, PdoNumber, RpdoConfig, RpdoEngine, TpdoConfig,
    TpdoEngine,
};
use canopen_core::queue::BoundedQueue;
use canopen_core::transport::CanFrame;

type Mappings = heapless::Vec<PdoMapping, 64>;

struct PdoTestOd {
    input1: u8,
    input2: u16,
    output1: u8,
}

fn meta(index: u16, subindex: u8, data_type: DataType, access: AccessType, name: &str) -> OdEntryMeta {
    OdEntryMeta {
        index,
        subindex,
        data_type,
        access,
        pdo_mappable: true,
        name: String::from(name),
        max_size: None,
    }
}

impl OdContents for PdoTestOd {}

impl ObjectDictionary for PdoTestOd {
    type Contents = PdoTestOd;

    fn lookup(&self, index: u16, subindex: u8) -> Option<OdEntryMeta> {
        match (index, subindex) {
            (0x6000, 1) => Some(meta(0x6000, 1, DataType::U8, AccessType::Ro, "input1")),
            (0x6000, 2) => Some(meta(0x6000, 2, DataType::U16, AccessType::Ro, "input2")),
            (0x6200, 1) => Some(meta(0x6200, 1, DataType::U8, AccessType::Rw, "output1")),
            _ => None,
        }
    }

    fn read(&self, index: u16, subindex: u8, buf: &mut [u8]) -> Result<usize, OdError> {
        match (index, subindex) {
            (0x6000, 1) => {
                buf[0] = self.input1;
                Ok(1)
            }
            (0x6000, 2) => {
                buf[..2].copy_from_slice(&self.input2.to_le_bytes());
                Ok(2)
            }
            (0x6200, 1) => {
                buf[0] = self.output1;
                Ok(1)
            }
            _ => Err(OdError::NotFound),
        }
    }

    fn write(&mut self, index: u16, subindex: u8, data: &[u8]) -> Result<(), OdError> {
        match (index, subindex) {
            (0x6200, 1) => {
                self.output1 = data[0];
                Ok(())
            }
            _ => Err(OdError::ReadOnly),
        }
    }

    fn validate_write(&self, _: u16, _: u8, _: &[u8]) -> Result<(), OdError> {
        Ok(())
    }

    fn sub_count(&self, _index: u16) -> Option<u8> {
        None
    }

    fn store_sdo_server_cob_ids(&mut self, _: NodeId) {}
}

#[test]
fn tpdo_sync_cyclic() {
    let mut mappings = Mappings::new();
    mappings
        .push(PdoMapping {
            index: 0x6000,
            subindex: 1,
            bit_length: 8,
        })
        .unwrap();
    mappings
        .push(PdoMapping {
            index: 0x6000,
            subindex: 2,
            bit_length: 16,
        })
        .unwrap();

    let config = TpdoConfig {
        od_number: 0,
        cob_id: 0x181,
        transmission_type: 1, // every SYNC
        inhibit_time_100us: 0,
        event_timer_ms: 0,
        mappings,
        enabled: true,
    };

    let mut engine = TpdoEngine::new([config]);
    let od = PdoTestOd {
        input1: 0x42,
        input2: 0x1234,
        output1: 0,
    };
    let mut out = Vec::<CanFrame>::new();

    engine.on_sync(&od, &mut out);
    assert_eq!(out.len(), 1);

    let frame = &out[0];
    assert_eq!(frame.raw_id(), 0x181);
    assert_eq!(frame.data(), &[0x42, 0x34, 0x12]); // u8 + u16 LE
}

#[test]
fn rpdo_process() {
    let mut mappings = Mappings::new();
    mappings
        .push(PdoMapping {
            index: 0x6200,
            subindex: 1,
            bit_length: 8,
        })
        .unwrap();

    let config = RpdoConfig {
        od_number: 0,
        cob_id: 0x201,
        transmission_type: 255,
        deadline_ms: 0,
        mappings,
        enabled: true,
    };

    let mut engine = RpdoEngine::new([config]);
    let mut od = PdoTestOd {
        input1: 0,
        input2: 0,
        output1: 0,
    };
    let mut events: BoundedQueue<OdEvent, 16> = BoundedQueue::new();

    let frame = CanFrame::new(0x201, &[0xFF]).unwrap();
    assert!(engine.process(&frame, &mut od, &mut events, 0));
    assert_eq!(od.output1, 0xFF);

    // Should have generated an RPDO event
    let evt = events.pop_front().unwrap();
    assert_eq!(evt.index, 0x6200);
    assert_eq!(evt.subindex, 1);
    assert_eq!(evt.source, OdEventSource::Rpdo);

    // Non-matching frame
    let frame2 = CanFrame::new(0x301, &[0x00]).unwrap();
    assert!(!engine.process(&frame2, &mut od, &mut events, 0));
    assert_eq!(od.output1, 0xFF); // unchanged
}

fn deadline_test_engine(deadline_ms: u16) -> RpdoEngine<1> {
    let mut mappings = Mappings::new();
    mappings
        .push(PdoMapping {
            index: 0x6200,
            subindex: 1,
            bit_length: 8,
        })
        .unwrap();
    RpdoEngine::new([RpdoConfig {
        od_number: 0,
        cob_id: 0x201,
        transmission_type: 255,
        deadline_ms,
        mappings,
        enabled: true,
    }])
}

fn deadline_test_od() -> PdoTestOd {
    PdoTestOd {
        input1: 0,
        input2: 0,
        output1: 0,
    }
}

#[test]
fn pdo_number_bounds_and_offset() {
    assert!(PdoNumber::new(0).is_none());
    assert!(PdoNumber::new(513).is_none());
    assert_eq!(PdoNumber::new(1).unwrap().raw(), 1);
    assert_eq!(PdoNumber::of::<512>().od_offset(), 511);
    assert_eq!(PdoNumber::try_from(79u16).unwrap(), PdoNumber::of::<79>());
    assert_eq!(u16::from(PdoNumber::of::<79>()), 79);
}

#[test]
fn sparse_rpdo_addressed_by_number_not_slot() {
    // Slot 0 = RPDO1, slot 1 = RPDO79 (sparse). Number-based lookups must
    // hit the right config; undeclared numbers answer None.
    let mut cfg1 = RpdoConfig {
        od_number: 1,
        cob_id: 0x201,
        enabled: true,
        ..RpdoConfig::default()
    };
    cfg1.deadline_ms = 0;
    let cfg79 = RpdoConfig {
        od_number: 79,
        cob_id: 0x351,
        deadline_ms: 100,
        enabled: true,
        ..RpdoConfig::default()
    };
    let engine = RpdoEngine::new([cfg1, cfg79]);

    assert_eq!(engine.config(PdoNumber::of::<1>()).unwrap().cob_id, 0x201);
    assert_eq!(engine.config(PdoNumber::of::<79>()).unwrap().cob_id, 0x351);
    assert!(engine.config(PdoNumber::of::<2>()).is_none());

    // RPDO79 is monitored and unarmed -> flag up; RPDO1 unmonitored.
    assert!(engine.deadline_expired(PdoNumber::of::<79>()));
    assert!(!engine.deadline_expired(PdoNumber::of::<1>()));
}

#[test]
fn placeholder_configs_not_addressable_by_number() {
    // Hand-built capacity array: one real RPDO + one default() padding
    // slot. The placeholder must not be addressable as "RPDO2".
    let real = RpdoConfig {
        od_number: 0,
        cob_id: 0x201,
        enabled: true,
        ..RpdoConfig::default()
    };
    let engine = RpdoEngine::new([real, RpdoConfig::default()]);
    assert!(engine.config(PdoNumber::of::<1>()).is_some());
    assert!(engine.config(PdoNumber::of::<2>()).is_none());
    assert!(!engine.deadline_expired(PdoNumber::of::<2>()));

    // Explicitly declared-but-disabled PDOs stay addressable.
    let disabled = TpdoConfig {
        od_number: 3,
        cob_id: 0x183,
        enabled: false,
        ..TpdoConfig::default()
    };
    let tengine = TpdoEngine::new([disabled]);
    assert!(tengine.config(PdoNumber::of::<3>()).is_some());
}

#[test]
fn rpdo_deadline_not_armed_before_first_reception() {
    let mut engine = deadline_test_engine(100);
    let mut expired = Vec::<PdoNumber>::new();

    // No frame ever received: the level flag reads true (no in-deadline
    // data exists yet), but the edge channel stays silent, however long —
    // a counterpart that never spoke cannot "go silent".
    assert!(engine.deadline_expired(PdoNumber::of::<1>()));
    engine.check_deadlines(10_000_000, &mut expired);
    assert!(expired.is_empty());
    assert!(engine.deadline_expired(PdoNumber::of::<1>()));
}

#[test]
fn rpdo_deadline_edge_triggers_once_and_rearms_on_reception() {
    let mut engine = deadline_test_engine(100);
    let mut od = deadline_test_od();
    let mut events: BoundedQueue<OdEvent, 16> = BoundedQueue::new();
    let frame = CanFrame::new(0x201, &[0x11]).unwrap();

    // First reception at t=0 arms monitoring.
    assert!(engine.process(&frame, &mut od, &mut events, 0));

    // Exactly at the deadline: not expired (strictly greater than).
    let mut expired = Vec::<PdoNumber>::new();
    engine.check_deadlines(100_000, &mut expired);
    assert!(expired.is_empty());

    // Past the deadline: fires once...
    engine.check_deadlines(100_001, &mut expired);
    assert_eq!(expired.as_slice(), &[PdoNumber::of::<1>()]);
    assert!(engine.deadline_expired(PdoNumber::of::<1>()));

    // ...and only once per silence period (edge-triggered).
    expired.clear();
    engine.check_deadlines(200_000, &mut expired);
    assert!(expired.is_empty());
    assert!(engine.deadline_expired(PdoNumber::of::<1>())); // level flag stays up

    // OD keeps the last received value throughout the timeout.
    assert_eq!(od.output1, 0x11);

    // Reception clears the flag and re-arms monitoring.
    assert!(engine.process(&frame, &mut od, &mut events, 300_000));
    assert!(!engine.deadline_expired(PdoNumber::of::<1>()));
    engine.check_deadlines(350_000, &mut expired);
    assert!(expired.is_empty());

    // A second silence period fires again.
    engine.check_deadlines(400_001, &mut expired);
    assert_eq!(expired.as_slice(), &[PdoNumber::of::<1>()]);
}

#[test]
fn rpdo_deadline_disabled_when_timer_zero() {
    let mut engine = deadline_test_engine(0);
    let mut od = deadline_test_od();
    let mut events: BoundedQueue<OdEvent, 16> = BoundedQueue::new();
    let frame = CanFrame::new(0x201, &[0x22]).unwrap();

    assert!(engine.process(&frame, &mut od, &mut events, 0));
    let mut expired = Vec::<PdoNumber>::new();
    engine.check_deadlines(10_000_000, &mut expired);
    assert!(expired.is_empty());
    assert!(!engine.deadline_expired(PdoNumber::of::<1>()));
}

#[test]
fn rpdo_deadline_reset_disarms_monitoring() {
    let mut engine = deadline_test_engine(100);
    let mut od = deadline_test_od();
    let mut events: BoundedQueue<OdEvent, 16> = BoundedQueue::new();
    let frame = CanFrame::new(0x201, &[0x33]).unwrap();

    assert!(engine.process(&frame, &mut od, &mut events, 0));
    let mut expired = Vec::<PdoNumber>::new();
    engine.check_deadlines(200_000, &mut expired);
    assert!(engine.deadline_expired(PdoNumber::of::<1>()));

    // Leaving Operational: edge state cleared, silence no longer counts.
    // The level flag reads true again (back to "no in-deadline data"),
    // but no new edge fires until a frame arrives and traffic stops again.
    engine.reset_deadline_monitoring();
    assert!(engine.deadline_expired(PdoNumber::of::<1>()));
    expired.clear();
    engine.check_deadlines(10_000_000, &mut expired);
    assert!(expired.is_empty());
}

#[test]
fn tpdo_event_timer() {
    let mut mappings = Mappings::new();
    mappings
        .push(PdoMapping {
            index: 0x6000,
            subindex: 1,
            bit_length: 8,
        })
        .unwrap();

    let config = TpdoConfig {
        od_number: 0,
        cob_id: 0x181,
        transmission_type: 255, // event-driven
        inhibit_time_100us: 0,
        event_timer_ms: 100, // every 100ms
        mappings,
        enabled: true,
    };

    let mut engine = TpdoEngine::new([config]);
    let od = PdoTestOd {
        input1: 0x99,
        input2: 0,
        output1: 0,
    };
    let dirty = Vec::<(u16, u8)>::new();

    // At t=0, diff is 0 which is < 100ms
    let mut out = Vec::<CanFrame>::new();
    engine.poll(&od, 0, &dirty, &mut out);
    assert_eq!(out.len(), 0);

    // At t=100ms - first send
    engine.poll(&od, 100_000, &dirty, &mut out);
    assert_eq!(out.len(), 1);

    // 150ms later - too early
    out.clear();
    engine.poll(&od, 150_000, &dirty, &mut out);
    assert_eq!(out.len(), 0);

    // 200ms - due again
    out.clear();
    engine.poll(&od, 200_000, &dirty, &mut out);
    assert_eq!(out.len(), 1);
}
#[test]
fn mapping_list_is_built_entry_by_entry() {
    let mut list = heapless_vec_new();
    for subindex in 0..64u8 {
        let entry = PdoMapping { index: 0x6000, subindex, bit_length: 1 };
        assert!(heapless_vec_push(&mut list, entry).is_ok());
    }
    let extra = PdoMapping { index: 0x6000, subindex: 64, bit_length: 1 };
    assert_eq!(heapless_vec_push(&mut list, extra), Err(extra));
    assert_eq!(list.len(), 64);
    assert_eq!(list[5].subindex, 5);
}

#[test]
fn mapping_value_round_trip() {
    let mapping = PdoMapping::from_mapping_value(0x6000_0210);
    assert_eq!(mapping, PdoMapping { index: 0x6000, subindex: 2, bit_length: 16 });
    assert_eq!(mapping.to_mapping_value(), 0x6000_0210);
}

#[test]
fn config_can_be_changed_by_number() {
    let mut engine = deadline_test_engine(100);
    engine.config_mut(PdoNumber::of::<1>()).unwrap().deadline_ms = 7;
    assert_eq!(engine.config(PdoNumber::of::<1>()).unwrap().deadline_ms, 7);
    assert!(engine.config_mut(PdoNumber::of::<2>()).is_none());
    let mut engine = TpdoEngine::new([TpdoConfig { od_number: 4, cob_id: 0x181, ..TpdoConfig::default() }]);
    engine.config_mut(PdoNumber::of::<4>()).unwrap().event_timer_ms = 9;
    assert_eq!(engine.config(PdoNumber::of::<4>()).unwrap().event_timer_ms, 9);
}
