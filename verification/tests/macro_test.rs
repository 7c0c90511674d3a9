//! Dictionaries from definitions.

use canopen_core::cobid::NodeId;
use canopen_core::datatypes::DataType;
use canopen_core::dictionary::codegen::generate;
use canopen_core::dictionary::device::OdChange;
use canopen_core::dictionary::sized::{AcceptAll, Device, WriteCheck};
use canopen_core::dictionary::table::Table;
use canopen_core::dictionary::{EntryKind, OdDefinition, VarDef};
use canopen_core::nmt::NmtState;
use canopen_core::node::{Node, NodeConfig, ResetType};
use canopen_core::od::{
    AccessType, ObjectDictionary, OdChanges, OdError, OdEvent, OdEventSource,
};
use canopen_core::pdo::{
    PdoNumber, RpdoEngine, TpdoEngine, TransmissionType, PDO_MAX_MAPPINGS,
};
use canopen_core::queue::BoundedQueue;
use canopen_core::sdo::SdoServer;
use canopen_core::time::Clock;
use canopen_core::transport::{CanFrame, MailboxTransport};

const TEST_OD: &str = "
    pub struct TestOd {
        [0x1000] device_type: u32 = 0x0000_0191, ro;
        [0x1001] error_register: u8 = 0x00, ro;
        [0x1018] identity: record {
            [1] vendor_id: u32 = 0x0000_1234, ro;
            [2] product_code: u32 = 0x0001, ro;
            [3] revision: u32 = 0x0001_0000, ro;
            [4] serial_number: u32 = 0x0000_0001, ro;
        };
        [0x6000] inputs: record {
            [1] input1: u8 = 0, ro, pdo;
            [2] input2: u16 = 0, ro, pdo;
        };
        [0x6200] outputs: record {
            [1] output1: u8 = 0, rw, pdo;
            [2] output2: u16 = 0, rw, pdo;
        };
        [0x2010] temperature: f64 = 0.0, rw;
        [0x1008] device_name: visible_string<32>, ro;
        [0x2020] firmware_blob: domain<512>, rw;
        [0x2021] serial_data: octet_string<64>, rw;
        [0x1003] pre_defined_error_field: array<u32, 8>, ro;
        [0x2030] writable_array: array<u16, 4>, rw;
    }
";

/// Resolves the default of a real in decimal notation.
fn resolve_real(var: &mut VarDef) {
    if let Some(text) = &var.default_value {
        if var.ty == "f32" {
            var.real_bits = text.parse::<f32>().ok().map(|x| x.to_bits() as u64);
        } else if var.ty == "f64" {
            var.real_bits = text.parse::<f64>().ok().map(f64::to_bits);
        }
    }
}

fn definition(text: &str) -> OdDefinition {
    let mut definition = OdDefinition::parse_text(text).unwrap();
    for entry in definition.entries.iter_mut() {
        match &mut entry.kind {
            EntryKind::Var(var) => resolve_real(var),
            EntryKind::Record(subs) => {
                for sub in subs.iter_mut() {
                    resolve_real(&mut sub.var);
                }
            }
            EntryKind::Array(_) => {}
        }
    }
    definition
}

fn table(text: &str) -> Table {
    generate(&definition(text)).unwrap().table
}

fn eds(text: &str) -> String {
    generate(&definition(text)).unwrap().eds
}

fn device<const TPDO: usize, const RPDO: usize, const SDO: usize>(
    text: &str,
) -> Device<AcceptAll, TPDO, RPDO, SDO> {
    Device::new(table(text), AcceptAll).unwrap()
}

fn number(od: &Table, name: &str) -> i128 {
    od.field_int(name).unwrap()
}

fn element(od: &Table, name: &str, i: usize) -> Vec<u8> {
    od.array(name).unwrap()[i].clone()
}

#[test]
fn macro_od_read() {
    let od = table(TEST_OD);

    // Read device_type
    let mut buf = [0u8; 4];
    let len = od.read(0x1000, 0, &mut buf).unwrap();
    assert_eq!(len, 4);
    assert_eq!(u32::from_le_bytes(buf), 0x0000_0191);

    // Read vendor_id
    let len = od.read(0x1018, 1, &mut buf).unwrap();
    assert_eq!(len, 4);
    assert_eq!(u32::from_le_bytes(buf), 0x1234);
}

#[test]
fn macro_od_write() {
    let mut od = table(TEST_OD);

    // Write output1
    od.write(0x6200, 1, &[0xFF]).unwrap();
    assert_eq!(number(&od, "output1"), 0xFF);
    assert_eq!(od.write(0x6200, 1, &[0x12, 0x34]), Err(OdError::DataTypeMismatch));

    // Write output2
    od.write(0x6200, 2, &0x1234u16.to_le_bytes()).unwrap();
    assert_eq!(number(&od, "output2"), 0x1234);
    assert_eq!(
        od.write(0x6200, 2, &[0x78, 0x56, 0x34, 0x12]),
        Err(OdError::DataTypeMismatch)
    );

    // Read-only should fail
    assert!(od.write(0x1000, 0, &[0; 4]).is_err());

    // Write/read f64
    let val: f64 = 23.456;
    od.write(0x2010, 0, &val.to_le_bytes()).unwrap();
    assert_eq!(od.field("temperature").unwrap()[..], val.to_le_bytes());
    let mut buf8 = [0u8; 8];
    let len = od.read(0x2010, 0, &mut buf8).unwrap();
    assert_eq!(len, 8);
    assert_eq!(f64::from_le_bytes(buf8), val);
}

#[test]
fn macro_od_lookup() {
    let od = table(TEST_OD);

    let meta = od.lookup(0x1000, 0).unwrap();
    assert_eq!(meta.name, "device_type");
    assert_eq!(meta.data_type, DataType::U32);

    let meta = od.lookup(0x6000, 1).unwrap();
    assert!(meta.pdo_mappable);

    assert!(od.lookup(0xFFFF, 0).is_none());
}

#[test]
fn macro_od_sub_count() {
    let od = table(TEST_OD);
    assert_eq!(od.sub_count(0x1018), Some(4)); // identity has subs 1-4
    assert_eq!(od.sub_count(0x6000), Some(2)); // inputs has subs 1-2
}

#[test]
fn macro_od_with_sdo_server() {
    let mut od = table(TEST_OD);
    let mut server = SdoServer::new();
    let mut resp = [0u8; 8];

    // SDO upload request for 0x1000:0
    let req = [0x40, 0x00, 0x10, 0x00, 0, 0, 0, 0];
    let mut events: BoundedQueue<OdEvent, 16> = BoundedQueue::new();
    server
        .process(&req, &mut od, &mut resp, &mut events, NmtState::Operational, 0)
        .unwrap();

    // Check expedited response
    assert_eq!(resp[4..8], 0x191u32.to_le_bytes());
}

#[test]
fn variable_length_visible_string() {
    let mut od = table(TEST_OD);

    // Initially empty
    let mut buf = [0u8; 64];
    let len = od.read(0x1008, 0, &mut buf).unwrap();
    assert_eq!(len, 0);

    // Write is blocked (ro)
    assert!(od.write(0x1008, 0, b"hello").is_err());

    // Direct field access works
    assert!(od.set_field("device_name", b"TestDevice"));
    let len = od.read(0x1008, 0, &mut buf).unwrap();
    assert_eq!(len, 10);
    assert_eq!(&buf[..len], b"TestDevice");
}

#[test]
fn variable_length_domain() {
    let mut od = table(TEST_OD);

    // Initially empty
    let mut buf = [0u8; 128];
    let len = od.read(0x2020, 0, &mut buf).unwrap();
    assert_eq!(len, 0);

    // Write some data
    let data = [0xDE, 0xAD, 0xBE, 0xEF, 0x01, 0x02, 0x03];
    od.write(0x2020, 0, &data).unwrap();
    let len = od.read(0x2020, 0, &mut buf).unwrap();
    assert_eq!(len, 7);
    assert_eq!(&buf[..len], &data);

    // Overwrite with different size
    od.write(0x2020, 0, &[0xFF, 0x00]).unwrap();
    let len = od.read(0x2020, 0, &mut buf).unwrap();
    assert_eq!(len, 2);
    assert_eq!(&buf[..len], &[0xFF, 0x00]);
}

#[test]
fn variable_length_octet_string() {
    let mut od = table(TEST_OD);

    let data = b"binary\x00data";
    od.write(0x2021, 0, data).unwrap();

    let mut buf = [0u8; 64];
    let len = od.read(0x2021, 0, &mut buf).unwrap();
    assert_eq!(&buf[..len], data);
}

#[test]
fn variable_length_capacity_overflow() {
    let mut od = table(TEST_OD);

    // firmware_blob has capacity 512 — writing 513 bytes should fail
    let too_big = [0u8; 513];
    let result = od.write(0x2020, 0, &too_big);
    assert_eq!(result, Err(OdError::ValueTooLong));
}

#[test]
fn visible_string_metadata() {
    let od = table(TEST_OD);
    let meta = od.lookup(0x1008, 0).unwrap();
    assert_eq!(meta.data_type, DataType::VisibleString);
    assert_eq!(meta.max_size, Some(32));
}

#[test]
fn array_sub0_returns_count() {
    let od = table(TEST_OD);
    let mut buf = [0u8; 4];

    // sub0 = 8 for error_field
    let len = od.read(0x1003, 0, &mut buf).unwrap();
    assert_eq!(len, 1);
    assert_eq!(buf[0], 8);

    // sub0 = 4 for writable_array
    let len = od.read(0x2030, 0, &mut buf).unwrap();
    assert_eq!(len, 1);
    assert_eq!(buf[0], 4);
}

#[test]
fn array_read_write_elements() {
    let mut od = table(TEST_OD);
    let mut buf = [0u8; 4];

    // All elements start at 0
    let len = od.read(0x2030, 1, &mut buf).unwrap();
    assert_eq!(len, 2);
    assert_eq!(u16::from_le_bytes([buf[0], buf[1]]), 0);

    // Write to sub2
    od.write(0x2030, 2, &42u16.to_le_bytes()).unwrap();
    assert_eq!(element(&od, "writable_array", 1), 42u16.to_le_bytes());

    // Read back
    let len = od.read(0x2030, 2, &mut buf).unwrap();
    assert_eq!(len, 2);
    assert_eq!(u16::from_le_bytes([buf[0], buf[1]]), 42);
}

#[test]
fn array_out_of_range() {
    let od = table(TEST_OD);
    let mut buf = [0u8; 4];

    // sub9 is out of range for 8-element array
    assert_eq!(od.read(0x1003, 9, &mut buf), Err(OdError::NotFound));
}

#[test]
fn array_readonly_rejects_write() {
    let mut od = table(TEST_OD);

    // error_field is ro
    assert_eq!(od.write(0x1003, 1, &0u32.to_le_bytes()), Err(OdError::ReadOnly));

    // sub0 is always ro
    assert_eq!(od.write(0x2030, 0, &[1]), Err(OdError::ReadOnly));
}

#[test]
fn array_sub_count() {
    let od = table(TEST_OD);
    assert_eq!(od.sub_count(0x1003), Some(8));
    assert_eq!(od.sub_count(0x2030), Some(4));
}

#[test]
fn array_metadata() {
    let od = table(TEST_OD);

    // sub0 metadata
    let meta = od.lookup(0x1003, 0).unwrap();
    assert_eq!(meta.data_type, DataType::U8);
    assert_eq!(meta.access, AccessType::Ro);

    // element metadata
    let meta = od.lookup(0x1003, 3).unwrap();
    assert_eq!(meta.data_type, DataType::U32);
    assert_eq!(meta.access, AccessType::Ro);
}

// ---- OD with PDO definitions ----

const PDO_TEST_OD: &str = "
    pub struct PdoTestOd {
        [0x1000] device_type: u32 = 0x0000_0191, ro;
        [0x6000] inputs: record {
            [1] button: u8 = 0, ro, pdo;
            [2] echo_in: u16 = 0, rw, pdo;
        };
        [0x6200] outputs: record {
            [1] led: u8 = 0, rw, pdo;
            [2] echo_out: u16 = 0, ro, pdo;
        };

        tpdo[1](transmission_type = 255, inhibit_time = 500, event_timer = 1000, mapping = mutable) {
            button,
            echo_out,
        };
        // rpdo keeps the default: mapping = immutable
        rpdo[1](transmission_type = 255, deadline = 250) {
            led,
            echo_in,
        };
    }
";

const BOOL_PDO_TEST_OD: &str = "
    pub struct BoolPdoTestOd {
        [0x1000] device_type: u32 = 0x0000_0191, ro;
        [0x2000] status: record {
            [1] limit_low: bool = false, ro, pdo;
            [2] limit_high: bool = false, ro, pdo;
            [3] flag3: bool = false, ro, pdo;
            [4] flag4: bool = false, ro, pdo;
            [5] flag5: bool = false, ro, pdo;
            [6] flag6: bool = false, ro, pdo;
            [7] flag7: bool = false, ro, pdo;
            [8] flag8: bool = false, ro, pdo;
            [9] flag9: bool = false, ro, pdo;
        };
        [0x2001] command: record {
            [1] enable: bool = false, rw, pdo;
            [2] reset_fault: bool = false, rw, pdo;
        };

        tpdo[1](transmission_type = event_driven) {
            limit_low,
            limit_high,
            flag3,
            flag4,
            flag5,
            flag6,
            flag7,
            flag8,
            flag9,
        };
        rpdo[1](transmission_type = event_driven) {
            enable,
            reset_fault,
        };
    }
";

#[test]
fn dsl_bool_pdo_mappings_are_one_bit() {
    let od = table(BOOL_PDO_TEST_OD);
    let node_id = NodeId::new(1).unwrap();

    let tpdo = od.tpdo_configs(node_id);
    assert_eq!(tpdo[0].mappings[0].index, 0x2000);
    assert_eq!(tpdo[0].mappings[0].subindex, 1);
    assert_eq!(tpdo[0].mappings[0].bit_length, 1);
    assert_eq!(tpdo[0].mappings[1].index, 0x2000);
    assert_eq!(tpdo[0].mappings[1].subindex, 2);
    assert_eq!(tpdo[0].mappings[1].bit_length, 1);
    assert_eq!(tpdo[0].mappings.len(), 9);
    assert_eq!(tpdo[0].mappings[8].index, 0x2000);
    assert_eq!(tpdo[0].mappings[8].subindex, 9);
    assert_eq!(tpdo[0].mappings[8].bit_length, 1);

    let rpdo = od.rpdo_configs(node_id);
    assert_eq!(rpdo[0].mappings[0].index, 0x2001);
    assert_eq!(rpdo[0].mappings[0].subindex, 1);
    assert_eq!(rpdo[0].mappings[0].bit_length, 1);
    assert_eq!(rpdo[0].mappings[1].index, 0x2001);
    assert_eq!(rpdo[0].mappings[1].subindex, 2);
    assert_eq!(rpdo[0].mappings[1].bit_length, 1);

    let mut buf = [0u8; 4];
    assert_eq!(od.read(0x1A00, 1, &mut buf), Ok(4));
    assert_eq!(u32::from_le_bytes(buf), 0x2000_0101);
    assert_eq!(od.read(0x1A00, 2, &mut buf), Ok(4));
    assert_eq!(u32::from_le_bytes(buf), 0x2000_0201);
    assert_eq!(od.read(0x1A00, 9, &mut buf), Ok(4));
    assert_eq!(u32::from_le_bytes(buf), 0x2000_0901);
    assert_eq!(od.read(0x1600, 1, &mut buf), Ok(4));
    assert_eq!(u32::from_le_bytes(buf), 0x2001_0101);
    assert_eq!(od.read(0x1600, 2, &mut buf), Ok(4));
    assert_eq!(u32::from_le_bytes(buf), 0x2001_0201);
}

#[test]
fn dsl_bool_pdo_mappings_pack_end_to_end() {
    let mut od = device::<1, 1, 0>(BOOL_PDO_TEST_OD);
    for (name, on) in [
        ("limit_low", true),
        ("limit_high", false),
        ("flag3", true),
        ("flag4", false),
        ("flag5", true),
        ("flag6", false),
        ("flag7", true),
        ("flag8", false),
        ("flag9", true),
    ] {
        assert!(od.table_mut().set_field(name, &[on as u8]));
    }

    let node_id = NodeId::new(1).unwrap();
    let config = NodeConfig::<1, 1, 0>::from_od(&od, node_id);

    let mut tpdo = TpdoEngine::new(config.tpdo);
    let dirty = [(0x2000, 1)];
    let mut out = Vec::<CanFrame>::new();
    tpdo.poll(&od, 0, &dirty, &mut out);

    assert_eq!(out.len(), 1);
    assert_eq!(out[0].raw_id(), 0x181);
    assert_eq!(out[0].data(), &[0b0101_0101, 0b0000_0001]);

    let mut rpdo = RpdoEngine::new(config.rpdo);
    let mut events = BoundedQueue::<OdEvent, 4>::new();
    let frame = CanFrame::new(0x201, &[0b0000_0001]).unwrap();
    assert!(rpdo.process(&frame, &mut od, &mut events, 0));

    assert_eq!(od.table().field("enable").unwrap()[..], [1]);
    assert_eq!(od.table().field("reset_fault").unwrap()[..], [0]);
}

#[test]
fn pdo_od_has_tpdo_comm_params() {
    let od = table(PDO_TEST_OD);
    let mut buf = [0u8; 4];

    // 0x1800:0 — highest subindex = 5
    let len = od.read(0x1800, 0, &mut buf).unwrap();
    assert_eq!(len, 1);
    assert_eq!(buf[0], 5);

    // 0x1800:1 — COB-ID (default = 0, resolved at runtime)
    let len = od.read(0x1800, 1, &mut buf).unwrap();
    assert_eq!(len, 4);
    assert_eq!(u32::from_le_bytes(buf), 0); // 0 = predefined default

    // 0x1800:2 — transmission type = 255
    let len = od.read(0x1800, 2, &mut buf).unwrap();
    assert_eq!(len, 1);
    assert_eq!(buf[0], 255);

    // 0x1800:3 — inhibit time = 500
    let len = od.read(0x1800, 3, &mut buf).unwrap();
    assert_eq!(len, 2);
    assert_eq!(u16::from_le_bytes([buf[0], buf[1]]), 500);

    // 0x1800:5 — event timer = 1000
    let len = od.read(0x1800, 5, &mut buf).unwrap();
    assert_eq!(len, 2);
    assert_eq!(u16::from_le_bytes([buf[0], buf[1]]), 1000);
}

#[test]
fn pdo_od_has_tpdo_mapping_params() {
    let od = table(PDO_TEST_OD);
    let mut buf = [0u8; 4];

    // 0x1A00:0 — mapping count = 2
    let len = od.read(0x1A00, 0, &mut buf).unwrap();
    assert_eq!(len, 1);
    assert_eq!(buf[0], 2);

    // 0x1A00:1 — button = 0x6000_0108 (index 0x6000, sub 1, 8 bits)
    let len = od.read(0x1A00, 1, &mut buf).unwrap();
    assert_eq!(len, 4);
    assert_eq!(u32::from_le_bytes(buf), 0x6000_0108);

    // 0x1A00:2 — echo_out = 0x6200_0210 (index 0x6200, sub 2, 16 bits)
    let len = od.read(0x1A00, 2, &mut buf).unwrap();
    assert_eq!(len, 4);
    assert_eq!(u32::from_le_bytes(buf), 0x6200_0210);
}

#[test]
fn pdo_od_has_rpdo_params() {
    let od = table(PDO_TEST_OD);
    let mut buf = [0u8; 4];

    // RPDO comm: 0x1400:0 = 5 (subs 3/4 absent), 0x1400:2 = 255
    assert_eq!(od.read(0x1400, 0, &mut buf).unwrap(), 1);
    assert_eq!(buf[0], 5);
    assert_eq!(od.read(0x1400, 2, &mut buf).unwrap(), 1);
    assert_eq!(buf[0], 255);

    // 0x1400:5 — deadline monitoring (event timer) = 250 ms
    assert_eq!(od.read(0x1400, 5, &mut buf).unwrap(), 2);
    assert_eq!(u16::from_le_bytes([buf[0], buf[1]]), 250);

    // RPDO mapping: 0x1600:0 = 2
    assert_eq!(od.read(0x1600, 0, &mut buf).unwrap(), 1);
    assert_eq!(buf[0], 2);

    // 0x1600:1 — led = 0x6200_0108
    assert_eq!(od.read(0x1600, 1, &mut buf).unwrap(), 4);
    assert_eq!(u32::from_le_bytes(buf), 0x6200_0108);

    // 0x1600:2 — echo_in = 0x6000_0210
    assert_eq!(od.read(0x1600, 2, &mut buf).unwrap(), 4);
    assert_eq!(u32::from_le_bytes(buf), 0x6000_0210);
}

#[test]
fn pdo_od_mapping_lock_protocol() {
    let mut od = table(PDO_TEST_OD);

    // Mapping entries are locked (count != 0), writes should fail
    assert!(od.write(0x1A00, 1, &0u32.to_le_bytes()).is_err());

    // Unlock: set mapping count to 0
    od.write(0x1A00, 0, &[0]).unwrap();

    // Now mapping entries should be writable
    od.write(0x1A00, 1, &0x6000_0210u32.to_le_bytes()).unwrap();

    // Verify it changed
    let mut buf = [0u8; 4];
    od.read(0x1A00, 1, &mut buf).unwrap();
    assert_eq!(u32::from_le_bytes(buf), 0x6000_0210);

    // Re-lock with new count
    od.write(0x1A00, 0, &[1]).unwrap();
    assert_eq!(od.tpdos[0].mapping_count, 1);

    // Locked again
    assert!(od.write(0x1A00, 1, &0u32.to_le_bytes()).is_err());
}

#[test]
fn mutable_pdo_mapping_accepts_more_than_eight_one_bit_entries() {
    let mut od = table(PDO_TEST_OD);

    od.write(0x1A00, 0, &[0]).unwrap();
    for sub in 1u8..=9 {
        let mapping = 0x6000_0101u32;
        od.write(0x1A00, sub, &mapping.to_le_bytes()).unwrap();
    }
    od.write(0x1A00, 0, &[9]).unwrap();

    let node_id = NodeId::new(1).unwrap();
    let configs = od.tpdo_configs(node_id);
    assert_eq!(configs[0].mappings.len(), 9);
    assert!(configs[0].mappings.iter().all(|m| m.bit_length == 1));
}

#[test]
fn mutable_pdo_mapping_rejects_capacity_and_payload_overflow() {
    let mut od = table(PDO_TEST_OD);

    od.write(0x1A00, 0, &[0]).unwrap();
    assert_eq!(
        od.write(0x1A00, 1, &0x6000_0141u32.to_le_bytes()),
        Err(OdError::ValueRange)
    );

    od.write(0x1A00, 1, &0x6000_0140u32.to_le_bytes()).unwrap();
    od.write(0x1A00, 2, &0x6000_0101u32.to_le_bytes()).unwrap();
    assert_eq!(od.write(0x1A00, 0, &[2]), Err(OdError::ValueRange));
    assert_eq!(
        od.write(0x1A00, 0, &[(PDO_MAX_MAPPINGS + 1) as u8]),
        Err(OdError::ValueRange)
    );
}

#[test]
fn pdo_od_immutable_mapping_rejects_writes() {
    let mut od = table(PDO_TEST_OD);

    // RPDO1 mapping is immutable (the default): neither the unlock (sub 0)
    // nor the entries accept writes — the mapping is a device invariant.
    assert!(od.write(0x1600, 0, &[0]).is_err());
    assert!(od.write(0x1600, 1, &0x6200_0210u32.to_le_bytes()).is_err());

    // Reads still work and metadata reports const access.
    let mut buf = [0u8; 4];
    assert_eq!(od.read(0x1600, 0, &mut buf).unwrap(), 1);
    assert_eq!(buf[0], 2);
    let meta = od.lookup(0x1600, 1).unwrap();
    assert_eq!(meta.access, AccessType::Const);

    // The mutable TPDO mapping still reports rw.
    let meta = od.lookup(0x1A00, 1).unwrap();
    assert_eq!(meta.access, AccessType::Rw);
}

#[test]
fn pdo_od_comm_params_writable() {
    let mut od = table(PDO_TEST_OD);

    // Write COB-ID
    od.write(0x1800, 1, &0x181u32.to_le_bytes()).unwrap();
    assert_eq!(od.tpdos[0].cob_id, 0x181);

    // Write transmission type
    od.write(0x1800, 2, &[1]).unwrap();
    assert_eq!(od.tpdos[0].transmission_type, 1);

    // sub 0 (highest_subindex) is read-only
    assert!(od.write(0x1800, 0, &[0]).is_err());
}

/// A write of 0x181 to 0x1800:1 that begins before the node is operational, and
/// ends after it: the answer to its last request.
fn late_pdo_write(requests: &[[u8; 8]]) -> [u8; 8] {
    let mut od = table(PDO_TEST_OD);
    let mut server = SdoServer::new();
    let mut resp = [0u8; 8];
    let mut events: BoundedQueue<OdEvent, 16> = BoundedQueue::new();
    let before = od.tpdos[0].cob_id;
    let last = requests.len() - 1;
    for (i, req) in requests.iter().enumerate() {
        let state = if i < last { NmtState::PreOperational } else { NmtState::Operational };
        server.process(req, &mut od, &mut resp, &mut events, state, i as u64).unwrap();
    }
    assert_eq!(od.tpdos[0].cob_id, before);
    assert!(events.is_empty());
    assert_eq!(server.take_committed_write(), None);
    assert!(server.check_timeout(10_000_000).is_none());
    resp
}

#[test]
fn pdo_parameters_stay_when_a_segmented_write_ends_in_operational() {
    let resp = late_pdo_write(&[
        [0x21, 0x00, 0x18, 0x01, 4, 0, 0, 0],
        [0x07, 0x81, 0x01, 0x00, 0x00, 0, 0, 0],
    ]);
    assert_eq!(resp, [0x80, 0x00, 0x18, 0x01, 0x22, 0x00, 0x00, 0x08]);
}

#[test]
fn pdo_parameters_stay_when_a_block_write_ends_in_operational() {
    let resp = late_pdo_write(&[
        [0xC2, 0x00, 0x18, 0x01, 4, 0, 0, 0],
        [0x81, 0x81, 0x01, 0x00, 0x00, 0, 0, 0],
        [0xCD, 0, 0, 0, 0, 0, 0, 0],
    ]);
    assert_eq!(resp, [0x80, 0x00, 0x18, 0x01, 0x22, 0x00, 0x00, 0x08]);
}

#[test]
fn pdo_parameters_change_when_a_segmented_write_ends_before_operational() {
    let mut od = table(PDO_TEST_OD);
    let mut server = SdoServer::new();
    let mut resp = [0u8; 8];
    let mut events: BoundedQueue<OdEvent, 16> = BoundedQueue::new();
    for req in [
        [0x21, 0x00, 0x18, 0x01, 4, 0, 0, 0],
        [0x07, 0x81, 0x01, 0x00, 0x00, 0, 0, 0],
    ] {
        server
            .process(&req, &mut od, &mut resp, &mut events, NmtState::PreOperational, 0)
            .unwrap();
    }
    assert_eq!(resp[0], 0x20);
    assert_eq!(od.tpdos[0].cob_id, 0x181);
    assert_eq!(server.take_committed_write(), Some((0x1800, 1)));
}

#[test]
fn mapping_record_keeps_its_declared_size() {
    let mut od = table(PDO_TEST_OD);
    assert_eq!(od.sub_count(0x1A00), Some(2));
    od.write(0x1A00, 0, &[0]).unwrap();
    assert_eq!(od.sub_count(0x1A00), Some(2));
    od.write(0x1A00, 0, &[1]).unwrap();
    assert_eq!(od.sub_count(0x1A00), Some(2));
}

#[test]
fn pdo_od_tpdo_configs_helper() {
    let od = table(PDO_TEST_OD);
    let node_id = NodeId::new(5).unwrap();
    let configs = od.tpdo_configs(node_id);

    assert_eq!(configs.len(), 1);
    assert_eq!(configs[0].cob_id, 0x180 + 5); // predefined default for TPDO1
    assert_eq!(configs[0].transmission_type, 255);
    assert_eq!(configs[0].inhibit_time_100us, 500);
    assert_eq!(configs[0].event_timer_ms, 1000);
    assert_eq!(configs[0].mappings.len(), 2);
    assert!(configs[0].enabled);
}

#[test]
fn pdo_od_rpdo_configs_helper() {
    let od = table(PDO_TEST_OD);
    let node_id = NodeId::new(3).unwrap();
    let configs = od.rpdo_configs(node_id);

    assert_eq!(configs.len(), 1);
    assert_eq!(configs[0].cob_id, 0x200 + 3); // predefined default for RPDO1
    assert_eq!(configs[0].transmission_type, 255);
    assert_eq!(configs[0].mappings.len(), 2);
    assert!(configs[0].enabled);
}

#[test]
fn pdo_od_eds_includes_pdo_registers() {
    let eds = eds(PDO_TEST_OD);

    assert!(eds.contains("[1800]"));
    assert!(eds.contains("[1800sub5]"));
    assert!(eds.contains("DefaultValue=0x3E8"));
    assert!(eds.contains("[1A00]"));
    assert!(eds.contains("[1A00sub1]"));
    assert!(eds.contains("[1A00sub40]"));
    assert!(eds.contains("HighLimit=64"));
    assert!(eds.contains("DefaultValue=0x60000108"));
    assert!(eds.contains("[1400]"));
    assert!(eds.contains("[1600]"));
    assert!(eds.contains("[1600sub2]"));
    assert!(!eds.contains("[1600sub3]"));
    assert!(eds.contains("DefaultValue=0x62000108"));
    assert!(eds.contains("DefaultValue=$NODEID+0x180"));
    assert!(eds.contains("DefaultValue=$NODEID+0x200"));
}

// ---- Store EDS on-device (0x1021/0x1022) ----

#[test]
fn store_eds_compressed() {
    let generated = generate(&definition(TEST_OD)).unwrap();
    let od = generated.table;
    let mut buf = vec![0u8; od.eds.len() + 64];
    let len = od.read(0x1021, 0, &mut buf).unwrap();
    assert_eq!(&buf[..len], &od.eds[..]);

    // Verify it decompresses to the original EDS
    let decompressed = miniz_oxide::inflate::decompress_to_vec(&buf[..len]).unwrap();
    assert_eq!(decompressed, generated.eds.as_bytes());
    assert_eq!(od.stored_eds().unwrap(), generated.eds.as_bytes());
}

#[test]
fn stored_eds_that_cannot_be_read() {
    let mut od = table(TEST_OD);
    od.eds = vec![0xFF; 4];
    assert_eq!(od.stored_eds(), None);
}

#[test]
fn store_eds_smaller_than_original() {
    let generated = generate(&definition(TEST_OD)).unwrap();
    let original = generated.eds.as_bytes().len();
    let compressed = generated.table.eds.len();
    assert!(compressed < original, "compressed {} >= original {}", compressed, original);
}

#[test]
fn store_format_is_compressed() {
    let od = table(TEST_OD);
    let mut buf = [0u8; 1];
    let len = od.read(0x1022, 0, &mut buf).unwrap();
    assert_eq!(len, 1);
    assert_eq!(buf[0], 1); // 1 = deflate compressed
}

#[test]
fn store_eds_is_readonly() {
    let mut od = table(TEST_OD);
    assert_eq!(od.write(0x1021, 0, &[0]), Err(OdError::ReadOnly));
    assert_eq!(od.write(0x1022, 0, &[1]), Err(OdError::ReadOnly));
}

#[test]
fn store_eds_metadata() {
    let od = table(TEST_OD);
    let meta = od.lookup(0x1021, 0).unwrap();
    assert_eq!(meta.data_type, DataType::Domain);
    assert!(meta.max_size.is_some());

    let meta = od.lookup(0x1022, 0).unwrap();
    assert_eq!(meta.data_type, DataType::U8);
}

// ---- EDS export ----

const EDS_EXPORT_OD: &str = "
    #[export_eds(path = \"../target/test_export.eds\")]
    pub struct EdsExportOd {
        [0x1000] device_type: u32 = 0x0000_0191, ro;
        [0x1001] error_register: u8 = 0x00, ro;
        [0x1018] identity: record {
            [1] vendor_id: u32 = 0x1234, ro;
            [2] product_code: u32 = 0x01, ro;
        };
        [0x1003] error_field: array<u32, 4>, ro;
        [0x1008] device_name: visible_string<32>, ro;
        [0x2000] blob: domain<256>, rw;
    }
";

#[test]
fn eds_export_generates_valid_file() {
    let definition = definition(EDS_EXPORT_OD);
    assert_eq!(definition.export_eds_path.as_deref(), Some("../target/test_export.eds"));
    let content = generate(&definition).unwrap().eds;

    // Check key sections
    assert!(content.contains("[FileInfo]"));
    assert!(content.contains("[1000]"));
    assert!(content.contains("ObjectType=0x7")); // VAR
    assert!(content.contains("ObjectType=0x9")); // RECORD
    assert!(content.contains("ObjectType=0x8")); // ARRAY
    assert!(content.contains("DataType=0x0009")); // VisibleString
    assert!(content.contains("DataType=0x000F")); // Domain
}

#[test]
fn eds_const_available_at_runtime() {
    let eds = eds(EDS_EXPORT_OD);
    assert!(eds.contains("[FileInfo]"));
    assert!(eds.contains("[1000]"));
    assert!(eds.contains("DataType=0x0007")); // U32
}

// ---- use_alloc mode ----

const ALLOC_OD: &str = "
    #[use_alloc]
    pub struct AllocOd {
        [0x1000] device_type: u32 = 0x191, ro;
        [0x1008] device_name: visible_string, ro;
        [0x2020] firmware: domain, rw;
        [0x2021] serial: octet_string, rw;
    }
";

#[test]
fn alloc_od_variable_length_types() {
    let mut od = table(ALLOC_OD);

    // device_name starts empty
    let mut buf = [0u8; 128];
    let len = od.read(0x1008, 0, &mut buf).unwrap();
    assert_eq!(len, 0);

    // Set via field access
    assert!(od.set_field("device_name", b"AllocDevice"));
    let len = od.read(0x1008, 0, &mut buf).unwrap();
    assert_eq!(&buf[..len], b"AllocDevice");

    // Write domain via OD (no capacity limit)
    let big_data = vec![0xABu8; 2048];
    od.write(0x2020, 0, &big_data).unwrap();
    let mut big_buf = vec![0u8; 4096];
    let len = od.read(0x2020, 0, &mut big_buf).unwrap();
    assert_eq!(len, 2048);
    assert_eq!(&big_buf[..len], &big_data[..]);

    // Write octet_string
    od.write(0x2021, 0, b"binary\x00data").unwrap();
    let len = od.read(0x2021, 0, &mut buf).unwrap();
    assert_eq!(&buf[..len], b"binary\x00data");
}

#[test]
fn alloc_od_no_capacity_needed() {
    let od = table(ALLOC_OD);
    // Metadata reports no max_size for alloc types
    let meta = od.lookup(0x1008, 0).unwrap();
    assert_eq!(meta.data_type, DataType::VisibleString);
    assert_eq!(meta.max_size, None);
}

// ---- validate_write support ----

const VALIDATED_OD: &str = "
    #[validate_write(check_value)]
    pub struct ValidatedOd {
        [0x1000] device_type: u32 = 0x0000_0191, ro;
        [0x2000] level: u16 = 0, rw;
    }
";

/// Application validation: level must be <= 1000.
struct LevelCheck;

impl WriteCheck for LevelCheck {
    fn check(&self, _od: &Table, index: u16, subindex: u8, data: &[u8]) -> Result<(), OdError> {
        if index == 0x2000 && subindex == 0 && data.len() >= 2 {
            let val = u16::from_le_bytes([data[0], data[1]]);
            if val > 1000 {
                return Err(OdError::ValueRange);
            }
        }
        Ok(())
    }
}

fn validated_od() -> Device<LevelCheck, 0, 0, 0> {
    Device::new(table(VALIDATED_OD), LevelCheck).unwrap()
}

#[test]
fn validate_write_macro_accepts_valid() {
    let mut od = validated_od();
    // Valid value: accepted by validate_write, then written
    od.write(0x2000, 0, &500u16.to_le_bytes()).unwrap();
    assert_eq!(number(od.table(), "level"), 500);
}

#[test]
fn validate_write_macro_rejects_invalid() {
    let mut od = validated_od();
    od.table_mut().set_field("level", &42u16.to_le_bytes());
    // Invalid value: rejected by validate_write before write
    let result = od.validate_write(0x2000, 0, &2000u16.to_le_bytes());
    assert_eq!(result, Err(OdError::ValueRange));
    // Value unchanged
    assert_eq!(number(od.table(), "level"), 42);
}

#[test]
fn validate_write_macro_sdo_server_rejects() {
    let mut od = validated_od();
    od.table_mut().set_field("level", &42u16.to_le_bytes());
    let mut server = SdoServer::new();
    let mut resp = [0u8; 8];
    let mut events: BoundedQueue<OdEvent, 16> = BoundedQueue::new();

    // SDO expedited download: write 2000 (> 1000 limit) to 0x2000:0
    let req = [
        0x2B, // CCS=1, n=2, e=1, s=1 (expedited, 2 bytes)
        0x00, 0x20, // index 0x2000
        0x00, // subindex 0
        0xD0, 0x07, // value 2000 in LE
        0x00, 0x00,
    ];
    server
        .process(&req, &mut od, &mut resp, &mut events, NmtState::Operational, 0)
        .unwrap();

    // Should have gotten an abort response (SCS=4 = 0x80)
    assert_eq!(resp[0] & 0xE0, 0x80, "expected abort response, got 0x{:02X}", resp[0]);
    // Abort code should be ValueRangeExceeded = 0x0609_0030
    let abort_code = u32::from_le_bytes([resp[4], resp[5], resp[6], resp[7]]);
    assert_eq!(abort_code, 0x0609_0030, "expected ValueRangeExceeded abort code");
    // Value should NOT have been written
    assert_eq!(number(od.table(), "level"), 42);
    // No event should have been pushed
    assert!(events.is_empty());
}

// ---- Keywords, unit suffixes, consts, changes ----

const SUGAR_OD: &str = "
    pub struct SugarOd {
        [0x6000] inputs: record {
            [1] button: u8 = 0, ro, pdo;
        };
        [0x6200] outputs: record {
            [1] led: u8 = 0, rw, pdo;
        };
        [0x2000] echo: record {
            [1] echo_in: u16 = 0, rw, pdo;
            [2] echo_out: u16 = 0, ro, pdo;
        };
        [0x2020] firmware: domain<64>, rw;
        [0x2030] thresholds: array<u16, 4>, rw;

        // 50ms in 100us units = 500; 1s in ms = 1000
        tpdo[1](transmission_type = event_driven, inhibit_time = 50ms, event_timer = 1s) {
            button,
            echo_out,
        };
        // float with unit suffix: 0.1s = 100ms, so event_timer = 100
        tpdo[2](transmission_type = sync_cyclic(4), event_timer = 0.1s) {
            echo_out,
        };
        rpdo[1](transmission_type = event_driven, deadline = 0.5s) {
            led,
            echo_in,
        };
    }
";

#[test]
fn dsl_transmission_type_keywords_and_time_suffixes() {
    let od = table(SUGAR_OD);
    let node_id = NodeId::new(1).unwrap();
    let tpdo = od.tpdo_configs(node_id);

    assert_eq!(tpdo[0].transmission_type, 255); // event_driven
    assert_eq!(tpdo[0].inhibit_time_100us, 500); // 50ms
    assert_eq!(tpdo[0].event_timer_ms, 1000); // 1s

    assert_eq!(tpdo[1].transmission_type, 4); // sync_cyclic(4)
    assert_eq!(tpdo[1].event_timer_ms, 100); // 0.1s

    let rpdo = od.rpdo_configs(node_id);
    assert_eq!(rpdo[0].transmission_type, 255);
    assert_eq!(rpdo[0].deadline_ms, 500); // 0.5s
}

#[test]
fn generated_address_consts() {
    let consts = table(SUGAR_OD).address_consts();
    let address = |name: &str| {
        let c = consts.iter().find(|c| c.name == name).unwrap();
        (c.index, c.subindex)
    };
    assert_eq!(address("BUTTON"), (0x6000, Some(1)));
    assert_eq!(address("LED"), (0x6200, Some(1)));
    assert_eq!(address("ECHO_IN"), (0x2000, Some(1)));
    assert_eq!(address("FIRMWARE"), (0x2020, Some(0)));
    assert_eq!(address("THRESHOLDS_INDEX"), (0x2030, None));
}

fn change(od: &Table, index: u16, subindex: u8) -> Option<(String, Option<u8>, Option<Vec<u8>>)> {
    od.decode_event(OdEvent { index, subindex, source: OdEventSource::Sdo })
        .map(|c: OdChange| (c.variant, c.element, c.value))
}

#[test]
fn change_enum_decodes_events() {
    let mut od = table(SUGAR_OD);
    assert!(od.set_field("led", &[1]));
    assert!(od.set_field("echo_in", &0xBEEFu16.to_le_bytes()));
    assert!(od.set_element("thresholds", 2, &77u16.to_le_bytes()));

    assert_eq!(change(&od, 0x6200, 1), Some((String::from("Led"), None, Some(vec![1]))));
    assert_eq!(
        change(&od, 0x2000, 1),
        Some((String::from("EchoIn"), None, Some(0xBEEFu16.to_le_bytes().to_vec())))
    );
    // Variable-length entries: no value, it is read from the OD if needed.
    assert_eq!(change(&od, 0x2020, 0), Some((String::from("Firmware"), None, None)));
    // Arrays carry (subindex, value).
    assert_eq!(
        change(&od, 0x2030, 3),
        Some((String::from("Thresholds"), Some(3), Some(77u16.to_le_bytes().to_vec())))
    );

    // Read-only entries can't be changed by the stack: no variant.
    assert_eq!(change(&od, 0x6000, 1), None);
    // Auto-generated PDO comm params have no application-level variant.
    assert_eq!(change(&od, 0x1800, 2), None);
}

#[test]
fn node_next_change_drains_typed() {
    let node_id = NodeId::new(1).unwrap();
    let od = device::<2, 1, 0>(SUGAR_OD);
    let config = NodeConfig {
        heartbeat_interval_ms: 500,
        auto_start: true,
        ..NodeConfig::from_od(&od, node_id)
    };
    assert_eq!(config.tpdo.len(), 2);
    assert_eq!(config.rpdo.len(), 1);

    let mut node: Node<_, 2, 1, 0, 32, 16> = Node::new(config, od);

    assert!(node.next_change().is_none());
    assert_eq!(node.tpdo_cob_id(PdoNumber::of::<1>()).unwrap().raw(), 0x181);
    assert_eq!(node.rpdo_cob_id(PdoNumber::of::<1>()).unwrap().raw(), 0x201);

    // A write over the bus comes out as a typed change.
    let mut transport = MailboxTransport::<32, 32>::new();
    node.process(&mut transport, &FixedClock(0));
    transport
        .store_received(CanFrame::new(0x601, &[0x2F, 0x00, 0x62, 0x01, 7, 0, 0, 0]).unwrap())
        .unwrap();
    node.process(&mut transport, &FixedClock(1_000));
    let change = node.next_change().unwrap();
    assert_eq!(change.variant, "Led");
    assert_eq!(change.value, Some(vec![7]));
}

#[test]
fn transmission_type_enum_round_trip() {
    assert_eq!(TransmissionType::EventDriven.raw(), 255);
    assert_eq!(TransmissionType::SyncAcyclic.raw(), 0);
    assert_eq!(TransmissionType::SyncCyclic(4).raw(), 4);
    assert_eq!(u8::from(TransmissionType::RtrSync), 252);

    assert_eq!(TransmissionType::from_raw(255), Some(TransmissionType::EventDriven));
    assert_eq!(TransmissionType::from_raw(7), Some(TransmissionType::SyncCyclic(7)));
    assert_eq!(TransmissionType::from_raw(245), None); // reserved
}

// ---- const access ----

const CONST_ACCESS_OD: &str = "
    pub struct ConstAccessOd {
        [0x1000] device_type: u32 = 0x191, const;
        [0x2000] level: u16 = 7, rw;
    }
";

#[test]
fn const_access_behaves_like_ro() {
    let mut od = table(CONST_ACCESS_OD);

    let meta = od.lookup(0x1000, 0).unwrap();
    assert_eq!(meta.access, AccessType::Const);

    let mut buf = [0u8; 8];
    let len = od.read(0x1000, 0, &mut buf).unwrap();
    assert_eq!(len, 4);
    assert_eq!(u32::from_le_bytes(buf[..4].try_into().unwrap()), 0x191);

    // Writes are rejected
    assert!(od.write(0x1000, 0, &0u32.to_le_bytes()).is_err());

    // Generated EDS declares const access
    assert!(eds(CONST_ACCESS_OD).contains("AccessType=const"));
}

// ---- PDOs beyond the pre-defined connection set (numbers > 4) ----

const EXT_PDO_OD: &str = "
    pub struct ExtPdoOd {
        [0x1000] device_type: u32 = 0x0000_0191, ro;
        [0x6000] inputs: record {
            [1] in1: u16 = 0, ro, pdo;
            [2] in2: u16 = 0, ro, pdo;
        };
        [0x6200] outputs: record {
            [1] out1: u16 = 0, rw, pdo;
        };

        tpdo[1](transmission_type = event_driven) {
            in1,
        };
        // Sparse numbering is allowed; >4 requires an explicit COB-ID.
        tpdo[5](cob_id = 0x1B1, transmission_type = event_driven) {
            in2,
        };
        // Node-relative COB-ID: resolved as base + node_id, so multiple
        // devices sharing this OD get distinct COB-IDs.
        tpdo[6](cob_id = node_id + 0x1C0, transmission_type = event_driven) {
            in1,
        };
        rpdo[5](cob_id = 0x231, transmission_type = event_driven) {
            out1,
        };
    }
";

#[test]
fn ext_pdo_configs_resolve_numbers_and_cob_ids() {
    let od = table(EXT_PDO_OD);
    let node_id = NodeId::new(5).unwrap();

    let tpdo = od.tpdo_configs(node_id);
    assert_eq!(tpdo.len(), 3);
    assert_eq!(tpdo[0].od_number, 1);
    assert_eq!(tpdo[0].cob_id, 0x185); // predefined default
    assert!(tpdo[0].enabled);
    assert_eq!(tpdo[1].od_number, 5);
    assert_eq!(tpdo[1].cob_id, 0x1B1); // explicit absolute
    assert!(tpdo[1].enabled);
    assert_eq!(tpdo[2].od_number, 6);
    assert_eq!(tpdo[2].cob_id, 0x1C5); // node-relative: 0x1C0 + node 5
    assert!(tpdo[2].enabled);

    // Node-relative COB-IDs differ per node — same OD, different device
    let other = od.tpdo_configs(NodeId::new(9).unwrap());
    assert_eq!(other[2].cob_id, 0x1C9);
    assert_eq!(other[1].cob_id, 0x1B1); // absolute stays fixed

    let rpdo = od.rpdo_configs(node_id);
    assert_eq!(rpdo.len(), 1);
    assert_eq!(rpdo[0].od_number, 5);
    assert_eq!(rpdo[0].cob_id, 0x231);
    assert!(rpdo[0].enabled);
}

#[test]
fn ext_pdo_comm_params_at_shifted_od_index() {
    let od = table(EXT_PDO_OD);
    let mut buf = [0u8; 4];

    // TPDO5 comm params live at 0x1804, mapping at 0x1A04
    od.read(0x1804, 1, &mut buf).unwrap();
    assert_eq!(u32::from_le_bytes(buf), 0x1B1);
    od.read(0x1A04, 0, &mut buf[..1]).unwrap();
    assert_eq!(buf[0], 1);

    // RPDO5 comm params live at 0x1404, mapping at 0x1604
    od.read(0x1404, 1, &mut buf).unwrap();
    assert_eq!(u32::from_le_bytes(buf), 0x231);

    // There is no TPDO2-4 / RPDO1-4, so those indices must not exist
    assert!(od.read(0x1801, 1, &mut buf).is_err());
    assert!(od.read(0x1400, 1, &mut buf).is_err());
}

#[test]
fn ext_pdo_eds_contains_shifted_sections() {
    let eds = eds(EXT_PDO_OD);
    assert!(eds.contains("[1804]"));
    assert!(eds.contains("[1A04]"));
    assert!(eds.contains("[1404]"));
    assert!(eds.contains("[1604]"));
    // Absolute COB-IDs appear verbatim; predefined defaults and
    // node-relative ones as $NODEID expressions
    assert!(eds.contains("0x1B1"));
    assert!(eds.contains("$NODEID+0x180"));
    assert!(eds.contains("$NODEID+0x1C0"));
}

struct FixedClock(u64);

impl Clock for FixedClock {
    fn now_us(&self) -> u64 {
        self.0
    }
}

fn drain(transport: &mut MailboxTransport<32, 32>) -> Vec<CanFrame> {
    let mut out = Vec::new();
    while let Some(f) = transport.next_to_transmit() {
        out.push(f);
    }
    out
}

#[test]
fn ext_pdo_node_resolves_and_exchanges_frames() {
    let od = device::<3, 1, 0>(EXT_PDO_OD);
    let node_id = NodeId::new(5).unwrap();
    let config = NodeConfig {
        auto_start: true,
        heartbeat_interval_ms: 0,
        ..NodeConfig::from_od(&od, node_id)
    };
    let mut node: Node<_, 3, 1, 0, 32, 16> = Node::new(config, od);
    let mut transport = MailboxTransport::<32, 32>::new();

    // Node::new mirrors resolved COB-IDs into the OD: the defaulted TPDO1
    // and node-relative TPDO6 now read back as real values instead of 0.
    let mut buf = [0u8; 4];
    node.od().read(0x1800, 1, &mut buf).unwrap();
    assert_eq!(u32::from_le_bytes(buf), 0x185);
    node.od().read(0x1804, 1, &mut buf).unwrap();
    assert_eq!(u32::from_le_bytes(buf), 0x1B1);
    node.od().read(0x1805, 1, &mut buf).unwrap();
    assert_eq!(u32::from_le_bytes(buf), 0x1C5);

    // Boot (heartbeat frame), then the node is Operational (auto_start)
    node.process(&mut transport, &FixedClock(0));
    drain(&mut transport);

    // TPDO5: change in2, expect an event-driven frame on the explicit COB-ID
    let before = node.od().clone();
    node.od_mut().table_mut().set_field("in2", &0xBEEFu16.to_le_bytes());
    assert!(node.notify_differences(&before));
    node.process(&mut transport, &FixedClock(1_000));
    let frames = drain(&mut transport);
    assert!(
        frames.iter().any(|f| f.raw_id() == 0x1B1 && f.data() == 0xBEEFu16.to_le_bytes()),
        "expected TPDO5 frame on 0x1B1, got {frames:?}"
    );

    // RPDO5: frame on 0x231 writes out1
    transport
        .store_received(CanFrame::new(0x231, &0x1234u16.to_le_bytes()).unwrap())
        .unwrap();
    node.process(&mut transport, &FixedClock(2_000));
    assert_eq!(number(node.od().table(), "out1"), 0x1234);
}

#[test]
fn ext_pdo_survives_reset() {
    let od = device::<3, 1, 0>(EXT_PDO_OD);
    let node_id = NodeId::new(5).unwrap();
    let config = NodeConfig {
        auto_start: true,
        heartbeat_interval_ms: 0,
        ..NodeConfig::from_od(&od, node_id)
    };
    let mut node: Node<_, 3, 1, 0, 32, 16> = Node::new(config, od);
    let mut transport = MailboxTransport::<32, 32>::new();
    node.process(&mut transport, &FixedClock(0));

    // request_reset re-syncs PDO config from the OD; resolved COB-IDs must survive
    node.request_reset(ResetType::Communication);
    node.process(&mut transport, &FixedClock(1_000));

    assert_eq!(node.tpdo_cob_id(PdoNumber::of::<1>()).unwrap().raw(), 0x185);
    assert_eq!(node.tpdo_cob_id(PdoNumber::of::<5>()).unwrap().raw(), 0x1B1);
    assert_eq!(node.tpdo_cob_id(PdoNumber::of::<6>()).unwrap().raw(), 0x1C5);
    assert_eq!(node.rpdo_cob_id(PdoNumber::of::<5>()).unwrap().raw(), 0x231);
    assert!(node.tpdo_engine().config(PdoNumber::of::<1>()).unwrap().enabled);
    assert!(node.tpdo_engine().config(PdoNumber::of::<5>()).unwrap().enabled);
    assert!(node.tpdo_engine().config(PdoNumber::of::<6>()).unwrap().enabled);

    // Sparse numbering: undeclared numbers answer None/false — never an
    // off-by-slot neighbor. (TPDO2 is not declared; slot 1 holds TPDO5.)
    assert!(node.tpdo_cob_id(PdoNumber::of::<2>()).is_none());
    assert!(node.rpdo_cob_id(PdoNumber::of::<1>()).is_none()); // only RPDO5 exists
    assert!(!node.rpdo_deadline_expired(PdoNumber::of::<1>()));
}

#[test]
fn rpdo_deadline_configured_at_runtime_via_sdo() {
    let od = device::<1, 1, 0>(PDO_TEST_OD);
    let node_id = NodeId::new(1).unwrap();
    let config = NodeConfig {
        auto_start: true,
        heartbeat_interval_ms: 0,
        ..NodeConfig::from_od(&od, node_id)
    };
    // The DSL declared deadline = 250 ms; it lands in the config via the OD.
    assert_eq!(config.rpdo[0].deadline_ms, 250);
    let mut node: Node<_, 1, 1, 0, 32, 16> = Node::new(config, od);
    let mut transport = MailboxTransport::<32, 32>::new();
    node.process(&mut transport, &FixedClock(0));
    drain(&mut transport);

    // PDO comm params are locked while Operational (CiA 301): drop to
    // Pre-Operational, tighten the deadline to 50 ms via SDO (expedited
    // write to 0x1400:5), then restart. Node::process resyncs the PDO
    // engines after writes to 0x1400-0x1BFF.
    transport.store_received(CanFrame::new(0x000, &[0x80, 0x01]).unwrap()).unwrap();
    let sdo = CanFrame::new(0x601, &[0x2B, 0x00, 0x14, 0x05, 50, 0, 0, 0]).unwrap();
    transport.store_received(sdo).unwrap();
    node.process(&mut transport, &FixedClock(1_000));
    let resp = drain(&mut transport);
    assert_eq!(resp.len(), 1, "expected SDO response, got {resp:?}");
    assert_eq!(resp[0].data()[0], 0x60, "SDO write aborted: {resp:?}");
    assert_eq!(node.rpdo_engine().config(PdoNumber::of::<1>()).unwrap().deadline_ms, 50);
    transport.store_received(CanFrame::new(0x000, &[0x01, 0x01]).unwrap()).unwrap();
    node.process(&mut transport, &FixedClock(1_500));
    while node.next_event().is_some() {}

    // Arm with one RPDO frame (led + echo_in), then 60 ms of silence.
    transport
        .store_received(CanFrame::new(0x201, &[0x01, 0x02, 0x03]).unwrap())
        .unwrap();
    node.process(&mut transport, &FixedClock(2_000));
    while node.next_event().is_some() {}
    assert!(!node.rpdo_deadline_expired(PdoNumber::of::<1>()));

    node.process(&mut transport, &FixedClock(62_100));
    assert!(node.rpdo_deadline_expired(PdoNumber::of::<1>()));
    let evt = node.next_event().unwrap();
    assert_eq!(evt.index, 0x1400);
    assert_eq!(evt.source, OdEventSource::RpdoDeadline);
    // Last received values are retained while the deadline is expired.
    assert_eq!(number(node.od().table(), "led"), 0x01);
}

// ---- INTEGER24 / UNSIGNED24 ----

const I24_OD: &str = "
    pub struct I24Od {
        [0x1000] device_type: u32 = 0x0000_0000, ro;
        [0x2000] sensor: record {
            [1] raw24: i24 = 0, ro, pdo;
            [2] setpoint24: i24 = 0, rw, pdo;
            [3] counter24: u24 = 0, rw;
        };
        [0x2001] history24: array<i24, 2>, rw;

        tpdo[1](transmission_type = event_driven) {
            raw24,
        };
    }
";

#[test]
fn i24_repr_and_roundtrip() {
    let mut od = table(I24_OD);

    assert!(od.set_field("raw24", &(-1_234_567i32).to_le_bytes()[..3]));

    // Read: 3 bytes LE, two's complement.
    let mut buf = [0u8; 8];
    assert_eq!(od.read(0x2000, 1, &mut buf), Ok(3));
    let ext = if (buf[2] & 0x80) != 0 { 0xFF } else { 0 };
    assert_eq!(i32::from_le_bytes([buf[0], buf[1], buf[2], ext]), -1_234_567);

    // Write: negative value sign-extends.
    let neg = (-42_i32).to_le_bytes();
    assert_eq!(od.write(0x2000, 2, &neg[..3]), Ok(()));
    assert_eq!(number(&od, "setpoint24"), -42);

    // Write: positive value stays positive.
    let pos = 0x7FFFFF_i32.to_le_bytes();
    assert_eq!(od.write(0x2000, 2, &pos[..3]), Ok(()));
    assert_eq!(number(&od, "setpoint24"), 0x7FFFFF);

    // u24 zero-extends.
    assert_eq!(od.write(0x2000, 3, &[0xFF, 0xFF, 0xFF]), Ok(()));
    assert_eq!(number(&od, "counter24"), 0xFF_FFFF);

    // Wrong size is rejected.
    assert_eq!(od.write(0x2000, 2, &pos[..4]), Err(OdError::DataTypeMismatch));

    // Array elements behave the same.
    assert_eq!(od.write(0x2001, 1, &neg[..3]), Ok(()));
    assert_eq!(element(&od, "history24", 0), neg[..3]);
    assert_eq!(od.read(0x2001, 1, &mut buf), Ok(3));
}

#[test]
fn i24_metadata_and_mapping() {
    let od = table(I24_OD);

    let meta = od.lookup(0x2000, 1).unwrap();
    assert_eq!(meta.data_type, DataType::I24);
    assert_eq!(meta.data_type.size(), Some(3));
    let meta = od.lookup(0x2000, 3).unwrap();
    assert_eq!(meta.data_type, DataType::U24);

    // PDO mapping entry: 24-bit length.
    let mut buf = [0u8; 8];
    assert_eq!(od.read(0x1A00, 1, &mut buf), Ok(4));
    let mapping = u32::from_le_bytes([buf[0], buf[1], buf[2], buf[3]]);
    assert_eq!(mapping, 0x2000_0118);

    // EDS export carries the CiA codes.
    assert!(eds(I24_OD).contains("DataType=0x0010"));
    assert!(eds(I24_OD).contains("DataType=0x0016"));
}

// ---- Additional SDO servers (0x1201+) ----

// A node with a second ("diagnostics") SDO server alongside the default.
// Node-relative COB-IDs so multiple devices can share this OD.
const DIAG_OD: &str = "
    pub struct DiagOd {
        [0x1000] device_type: u32 = 0x0000_0191, ro;
        [0x2000] level: u16 = 7, rw;

        sdo_server[2](cob_rx = node_id + 0x640, cob_tx = node_id + 0x5C0);
    }
";

#[test]
fn sdo_server_od_records_and_count() {
    // The declaration count is exposed, and the 0x1201 record reads back the
    // node-relative-resolved COB-IDs after Node::new mirrors them in.
    assert_eq!(table(DIAG_OD).servers.len(), 1);

    let od = device::<0, 0, 1>(DIAG_OD);
    let node_id = NodeId::new(5).unwrap();
    let config = NodeConfig { heartbeat_interval_ms: 0, ..NodeConfig::from_od(&od, node_id) };
    let node: Node<_, 0, 0, 1, 32, 16> = Node::new(config, od);

    let mut b1 = [0u8; 1];
    node.od().read(0x1201, 0, &mut b1).unwrap();
    assert_eq!(b1[0], 2, "highest subindex");

    let mut b4 = [0u8; 4];
    node.od().read(0x1201, 1, &mut b4).unwrap();
    assert_eq!(u32::from_le_bytes(b4), 0x645, "cob_rx = node_id + 0x640");
    node.od().read(0x1201, 2, &mut b4).unwrap();
    assert_eq!(u32::from_le_bytes(b4), 0x5C5, "cob_tx = node_id + 0x5C0");

    // The records are const: writes to the COB-IDs are rejected.
    let mut writable = table(DIAG_OD);
    assert_eq!(writable.write(0x1201, 1, &0x777u32.to_le_bytes()), Err(OdError::ReadOnly));
    assert_eq!(writable.write(0x1201, 2, &0x777u32.to_le_bytes()), Err(OdError::ReadOnly));

    // EDS export describes the additional server as a read-only, node-relative
    // SDO Server Parameter record.
    let eds = eds(DIAG_OD);
    assert!(eds.contains("[1201]"));
    assert!(eds.contains("$NODEID+0x640"));
    assert!(eds.contains("$NODEID+0x5C0"));
}

#[test]
fn sdo_server_second_channel_serves_and_is_independent() {
    let od = device::<0, 0, 1>(DIAG_OD);
    let node_id = NodeId::new(5).unwrap();
    let config = NodeConfig {
        auto_start: true,
        heartbeat_interval_ms: 0,
        ..NodeConfig::from_od(&od, node_id)
    };
    let mut node: Node<_, 0, 0, 1, 32, 16> = Node::new(config, od);
    let mut transport = MailboxTransport::<32, 32>::new();
    node.process(&mut transport, &FixedClock(0));
    drain(&mut transport);

    // Default channel (0x605 -> 0x585): expedited upload of 0x1000:0.
    transport
        .store_received(CanFrame::new(0x605, &[0x40, 0x00, 0x10, 0x00, 0, 0, 0, 0]).unwrap())
        .unwrap();
    // Diagnostics channel (0x645 -> 0x5C5): the same upload, interleaved.
    transport
        .store_received(CanFrame::new(0x645, &[0x40, 0x00, 0x10, 0x00, 0, 0, 0, 0]).unwrap())
        .unwrap();
    node.process(&mut transport, &FixedClock(1_000));
    let frames = drain(&mut transport);

    let default_resp = frames.iter().find(|f| f.raw_id() == 0x585);
    let diag_resp = frames.iter().find(|f| f.raw_id() == 0x5C5);
    assert!(default_resp.is_some(), "default channel response on 0x585");
    assert!(diag_resp.is_some(), "diag channel response on 0x5C5");
    // Both are expedited upload responses (cs 0x43) carrying device_type 0x191.
    for resp in [default_resp.unwrap(), diag_resp.unwrap()] {
        assert_eq!(resp.data()[0], 0x43);
        assert_eq!(u32::from_le_bytes(resp.data()[4..8].try_into().unwrap()), 0x191);
    }

    // Writing via the diagnostics channel updates the shared OD, and the
    // response comes back on the diag tx COB-ID.
    transport
        .store_received(CanFrame::new(0x645, &[0x2B, 0x00, 0x20, 0x00, 0x2A, 0x00, 0, 0]).unwrap())
        .unwrap();
    node.process(&mut transport, &FixedClock(2_000));
    let frames = drain(&mut transport);
    let dl_resp = frames.iter().find(|f| f.raw_id() == 0x5C5).unwrap();
    assert_eq!(dl_resp.data()[0], 0x60, "download acknowledged");
    assert_eq!(number(node.od().table(), "level"), 0x2A);
}

#[test]
fn sdo_server_channels_have_independent_transfer_state() {
    let od = device::<0, 0, 1>(DIAG_OD);
    let node_id = NodeId::new(5).unwrap();
    let config = NodeConfig {
        auto_start: true,
        heartbeat_interval_ms: 0,
        ..NodeConfig::from_od(&od, node_id)
    };
    let mut node: Node<_, 0, 0, 1, 32, 16> = Node::new(config, od);
    let mut transport = MailboxTransport::<32, 32>::new();
    node.process(&mut transport, &FixedClock(0));
    drain(&mut transport);

    // Start a segmented upload of the (large) EDS object on the default channel
    // without finishing it — this parks a transfer in the default server.
    transport
        .store_received(CanFrame::new(0x605, &[0x40, 0x21, 0x10, 0x00, 0, 0, 0, 0]).unwrap())
        .unwrap();
    node.process(&mut transport, &FixedClock(1_000));
    let init = drain(&mut transport);
    assert!(init.iter().any(|f| f.raw_id() == 0x585), "default upload init");

    // Meanwhile a full expedited transaction on the diag channel must complete
    // normally, unaffected by the parked default transfer.
    transport
        .store_received(CanFrame::new(0x645, &[0x40, 0x00, 0x10, 0x00, 0, 0, 0, 0]).unwrap())
        .unwrap();
    node.process(&mut transport, &FixedClock(2_000));
    let frames = drain(&mut transport);
    let diag = frames.iter().find(|f| f.raw_id() == 0x5C5).unwrap();
    assert_eq!(diag.data()[0], 0x43);
    assert_eq!(u32::from_le_bytes(diag.data()[4..8].try_into().unwrap()), 0x191);

    // The default channel's segmented transfer is still alive: continue it and
    // get the first segment back.
    transport
        .store_received(CanFrame::new(0x605, &[0x60, 0, 0, 0, 0, 0, 0, 0]).unwrap())
        .unwrap();
    node.process(&mut transport, &FixedClock(3_000));
    let frames = drain(&mut transport);
    assert!(
        frames.iter().any(|f| f.raw_id() == 0x585),
        "default segmented transfer continued independently"
    );
}

// An absolute diagnostics rx COB-ID (0x605) that coincides with the *default*
// server's rx (0x600 + node_id) only for node id 5.
const COLLIDE_OD: &str = "
    pub struct CollideOd {
        [0x1000] device_type: u32 = 0x0000_0191, ro;
        sdo_server[2](cob_rx = 0x605, cob_tx = 0x5C5);
    }
";

#[test]
#[should_panic(expected = "collide")]
fn sdo_server_runtime_collision_with_default_panics() {
    let od = device::<0, 0, 1>(COLLIDE_OD);
    // node id 5 -> default rx = 0x605, colliding with the diagnostics rx.
    let node_id = NodeId::new(5).unwrap();
    let config: NodeConfig<0, 0, 1> =
        NodeConfig { heartbeat_interval_ms: 0, ..NodeConfig::from_od(&od, node_id) };
    if !config.extra_sdo_cob_ids_are_unique() {
        panic!("SDO server COB-IDs collide");
    }
    let _node: Node<_, 0, 0, 1, 32, 16> = Node::new(config, od);
}

#[test]
fn sdo_server_no_collision_at_other_node_id() {
    let od = device::<0, 0, 1>(COLLIDE_OD);
    // node id 6 -> default rx = 0x606, tx = 0x586; no overlap with 0x605/0x5C5.
    let node_id = NodeId::new(6).unwrap();
    let config: NodeConfig<0, 0, 1> =
        NodeConfig { heartbeat_interval_ms: 0, ..NodeConfig::from_od(&od, node_id) };
    assert!(config.extra_sdo_cob_ids_are_unique());
    let _node: Node<_, 0, 0, 1, 32, 16> = Node::new(config, od);
}
