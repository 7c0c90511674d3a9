//! Dictionaries and clients from EDS files.

use canopen_core::cobid::NodeId;
use canopen_core::dictionary::codegen::generate;
use canopen_core::dictionary::eds_parser::{parse_eds_content, parse_eds_to_od};
use canopen_core::dictionary::sdo_client_codegen::{
    generate as generate_client, typed_read_info, typed_write_info, ClientAccess, ClientMethod,
    ClientSub, ClientType, SdoClientDef,
};
use canopen_core::dictionary::table::Table;
use canopen_core::dictionary::{EdsDefinition, OdDefinition, Visibility};
use canopen_core::nmt::NmtState;
use canopen_core::od::{ObjectDictionary, OdEvent};
use canopen_core::queue::BoundedQueue;
use canopen_core::sdo::driver::{SdoDriver, SdoTransfer, TransferStep};
use canopen_core::sdo::SdoServer;
use canopen_core::transport::CanFrame;

const TEST_DEVICE_EDS: &str = "\
[FileInfo]
FileName=test_device.eds

[1000]
ParameterName=Device Type
ObjectType=0x7
DataType=0x0007
AccessType=ro
DefaultValue=0xC8
PDOMapping=0

[1001]
ParameterName=Error Register
ObjectType=0x7
DataType=0x0005
AccessType=ro
DefaultValue=0
PDOMapping=0

[1017]
ParameterName=Producer Heartbeat Time
ObjectType=0x7
DataType=0x0006
AccessType=rw
DefaultValue=1000
PDOMapping=0

[2000]
ParameterName=Application Data
ObjectType=0x9
SubNumber=3

[2000sub0]
ParameterName=Highest Subindex
ObjectType=0x7
DataType=0x0005
AccessType=ro
DefaultValue=2
PDOMapping=0

[2000sub1]
ParameterName=Sensor Value
ObjectType=0x7
DataType=0x0006
AccessType=ro
DefaultValue=0
PDOMapping=1

[2000sub2]
ParameterName=Control Word
ObjectType=0x7
DataType=0x0006
AccessType=rw
DefaultValue=0
PDOMapping=1
";

const TEST_PDO_DEVICE_EDS: &str = "\
[FileInfo]
FileName=test_pdo_device.eds

[1000]
ParameterName=Device Type
ObjectType=0x7
DataType=0x0007
AccessType=ro
DefaultValue=0x191

[1003]
ParameterName=Pre-defined Error Field
ObjectType=0x8
SubNumber=5

[1003sub0]
ParameterName=Number of Errors
ObjectType=0x7
DataType=0x0005
AccessType=ro
DefaultValue=4

[1003sub1]
ParameterName=Error 1
ObjectType=0x7
DataType=0x0007
AccessType=ro
DefaultValue=0

[1003sub2]
ParameterName=Error 2
ObjectType=0x7
DataType=0x0007
AccessType=ro
DefaultValue=0

[1003sub3]
ParameterName=Error 3
ObjectType=0x7
DataType=0x0007
AccessType=ro
DefaultValue=0

[1003sub4]
ParameterName=Error 4
ObjectType=0x7
DataType=0x0007
AccessType=ro
DefaultValue=0

[1008]
ParameterName=Device Name
ObjectType=0x7
DataType=0x0009
AccessType=ro
DefaultValue=TestPdoDevice

[1017]
ParameterName=Producer Heartbeat Time
ObjectType=0x7
DataType=0x0006
AccessType=rw
DefaultValue=500

[1400]
ParameterName=RPDO1 Communication
ObjectType=0x9
SubNumber=4

[1400sub0]
ParameterName=Highest Subindex
ObjectType=0x7
DataType=0x0005
AccessType=ro
DefaultValue=5

[1400sub1]
ParameterName=COB-ID
ObjectType=0x7
DataType=0x0007
AccessType=rw
DefaultValue=$NODEID+0x200

[1400sub2]
ParameterName=Transmission Type
ObjectType=0x7
DataType=0x0005
AccessType=rw
DefaultValue=0xFF

[1400sub5]
ParameterName=Event Timer
ObjectType=0x7
DataType=0x0006
AccessType=rw
DefaultValue=0x12C

[1401]
ParameterName=RPDO2 Communication
ObjectType=0x9
SubNumber=3

[1401sub0]
ParameterName=Highest Subindex
ObjectType=0x7
DataType=0x0005
AccessType=ro
DefaultValue=2

[1401sub1]
ParameterName=COB-ID
ObjectType=0x7
DataType=0x0007
AccessType=rw
DefaultValue=$NODEID+0x300

[1401sub2]
ParameterName=Transmission Type
ObjectType=0x7
DataType=0x0005
AccessType=rw
DefaultValue=0xFF

[1600]
ParameterName=RPDO1 Mapping
ObjectType=0x9
SubNumber=2

[1600sub0]
ParameterName=Number of Mapped Objects
ObjectType=0x7
DataType=0x0005
AccessType=ro
DefaultValue=1

[1600sub1]
ParameterName=Mapping 1
ObjectType=0x7
DataType=0x0007
AccessType=ro
DefaultValue=0x60400010

[1800]
ParameterName=TPDO1 Communication
ObjectType=0x9
SubNumber=5

[1800sub0]
ParameterName=Highest Subindex
ObjectType=0x7
DataType=0x0005
AccessType=ro
DefaultValue=5

[1800sub1]
ParameterName=COB-ID
ObjectType=0x7
DataType=0x0007
AccessType=rw
DefaultValue=$NODEID+0x180

[1800sub2]
ParameterName=Transmission Type
ObjectType=0x7
DataType=0x0005
AccessType=rw
DefaultValue=0xFF

[1800sub3]
ParameterName=Inhibit Time
ObjectType=0x7
DataType=0x0006
AccessType=rw
DefaultValue=0x1F4

[1800sub5]
ParameterName=Event Timer
ObjectType=0x7
DataType=0x0006
AccessType=rw
DefaultValue=0x64

[1806]
ParameterName=TPDO7 Communication
ObjectType=0x9
SubNumber=3

[1806sub0]
ParameterName=Highest Subindex
ObjectType=0x7
DataType=0x0005
AccessType=ro
DefaultValue=2

[1806sub1]
ParameterName=COB-ID
ObjectType=0x7
DataType=0x0007
AccessType=rw
DefaultValue=$NODEID+0x1C2

[1806sub2]
ParameterName=Transmission Type
ObjectType=0x7
DataType=0x0005
AccessType=rw
DefaultValue=0xFF

[1A00]
ParameterName=TPDO1 Mapping
ObjectType=0x9
SubNumber=2

[1A00sub0]
ParameterName=Number of Mapped Objects
ObjectType=0x7
DataType=0x0005
AccessType=ro
DefaultValue=1

[1A00sub1]
ParameterName=Mapping 1
ObjectType=0x7
DataType=0x0007
AccessType=ro
DefaultValue=0x60410010

[1A06]
ParameterName=TPDO7 Mapping
ObjectType=0x9
SubNumber=2

[1A06sub0]
ParameterName=Number of Mapped Objects
ObjectType=0x7
DataType=0x0005
AccessType=rw
DefaultValue=1

[1A06sub1]
ParameterName=Mapping 1
ObjectType=0x7
DataType=0x0007
AccessType=rw
DefaultValue=0x60410010

[6040]
ParameterName=Controlword
ObjectType=0x7
DataType=0x0006
AccessType=rw
DefaultValue=0
PDOMapping=1

[6041]
ParameterName=Statusword
ObjectType=0x7
DataType=0x0006
AccessType=ro
DefaultValue=0
PDOMapping=1
";

/// One transmit PDO with the given mapping values.
fn mapped_eds(objects: &str, mappings: &[u32]) -> String {
    let mut text = format!(
        "{objects}\n[1800]\nParameterName=TPDO1\nObjectType=0x9\n\n\
         [1800sub1]\nParameterName=COB-ID\nObjectType=0x7\nDataType=0x0007\nAccessType=rw\n\
         DefaultValue=$NODEID+0x180\n\n\
         [1A00]\nParameterName=TPDO1 Mapping\nObjectType=0x9\n\n\
         [1A00sub0]\nParameterName=Count\nObjectType=0x7\nDataType=0x0005\nAccessType=ro\n\
         DefaultValue={}\n",
        mappings.len()
    );
    for (i, value) in mappings.iter().enumerate() {
        text.push_str(&format!(
            "\n[1A00sub{}]\nParameterName=Mapping\nObjectType=0x7\nDataType=0x0007\n\
             AccessType=ro\nDefaultValue=0x{value:08X}\n",
            i + 1
        ));
    }
    text
}

fn bool_mapped_as_u8_eds() -> String {
    mapped_eds(
        "[2000]\nParameterName=Flag\nObjectType=0x7\nDataType=0x0001\nAccessType=ro\n\
         DefaultValue=0\nPDOMapping=1\n",
        &[0x2000_0008],
    )
}

fn dummy_mapped_eds() -> String {
    mapped_eds(
        "[2000]\nParameterName=Flag\nObjectType=0x7\nDataType=0x0001\nAccessType=ro\n\
         DefaultValue=0\nPDOMapping=1\n\n\
         [2001]\nParameterName=Level\nObjectType=0x7\nDataType=0x0005\nAccessType=ro\n\
         DefaultValue=0\nPDOMapping=1\n",
        &[0x2000_0001, 0x0001_0007, 0x2001_0008],
    )
}

fn definition(declaration: &str, content: &str) -> OdDefinition {
    let def = EdsDefinition::parse_text(declaration).unwrap();
    parse_eds_to_od(&def, content).unwrap()
}

fn table(declaration: &str, content: &str) -> Table {
    generate(&definition(declaration, content)).unwrap().table
}

fn test_device() -> Table {
    table("pub struct TestDeviceOd = \"tests/test_device.eds\";", TEST_DEVICE_EDS)
}

const PDO_DEVICE: &str = "pub struct PdoDeviceOd = \"tests/test_pdo_device.eds\"
    with {
        [0x1008] capacity = 32,
    };";

fn pdo_device() -> Table {
    table(PDO_DEVICE, TEST_PDO_DEVICE_EDS)
}

#[test]
fn eds_od_read_device_type() {
    let od = test_device();
    let mut buf = [0u8; 4];
    let len = od.read(0x1000, 0, &mut buf).unwrap();
    assert_eq!(len, 4);
    assert_eq!(u32::from_le_bytes(buf), 0xC8);
}

#[test]
fn eds_od_read_error_register() {
    let od = test_device();
    let mut buf = [0u8; 1];
    let len = od.read(0x1001, 0, &mut buf).unwrap();
    assert_eq!(len, 1);
    assert_eq!(buf[0], 0);
}

#[test]
fn eds_od_rw_heartbeat_time() {
    let mut od = test_device();
    // Read default
    let mut buf = [0u8; 2];
    let len = od.read(0x1017, 0, &mut buf).unwrap();
    assert_eq!(len, 2);
    assert_eq!(u16::from_le_bytes(buf), 1000);

    // Write new value
    od.write(0x1017, 0, &500u16.to_le_bytes()).unwrap();
    od.read(0x1017, 0, &mut buf).unwrap();
    assert_eq!(u16::from_le_bytes(buf), 500);
}

#[test]
fn eds_od_record_sub_entries() {
    let mut od = test_device();

    // sub_count returns highest subindex
    assert_eq!(od.sub_count(0x2000), Some(2));

    // sensor_value is read-only
    let mut buf16 = [0u8; 2];
    od.read(0x2000, 1, &mut buf16).unwrap();
    assert!(od.write(0x2000, 1, &[0x01, 0x00]).is_err());

    // control_word is rw
    od.write(0x2000, 2, &0xABCDu16.to_le_bytes()).unwrap();
    od.read(0x2000, 2, &mut buf16).unwrap();
    assert_eq!(u16::from_le_bytes(buf16), 0xABCD);
}

#[test]
fn eds_od_lookup_pdo_mapping() {
    let od = test_device();
    let meta = od.lookup(0x2000, 1).unwrap();
    assert!(meta.pdo_mappable);
    assert_eq!(meta.name, "application_data_sensor_value");

    let meta = od.lookup(0x1000, 0).unwrap();
    assert!(!meta.pdo_mappable);
}

// ---- EDS with PDOs, strings, and arrays ----

#[test]
fn eds_pdo_device_string_default() {
    let od = pdo_device();

    // visible_string at 0x1008 should have the default from EDS
    let mut buf = [0u8; 64];
    let len = od.read(0x1008, 0, &mut buf).unwrap();
    assert_eq!(&buf[..len], b"TestPdoDevice");
}

#[test]
fn eds_import_preserves_declared_pdo_mapping_length() {
    let od = table("pub struct BoolMappedAsU8Od = \"a.eds\";", &bool_mapped_as_u8_eds());
    let mut buf = [0u8; 4];

    let len = od.read(0x1A00, 1, &mut buf).unwrap();
    assert_eq!(len, 4);
    assert_eq!(u32::from_le_bytes(buf), 0x2000_0008);

    let tpdo = od.tpdo_configs(NodeId::new(1).unwrap());
    let config = &tpdo[0];
    assert_eq!(config.mappings[0].index, 0x2000);
    assert_eq!(config.mappings[0].subindex, 0);
    assert_eq!(config.mappings[0].bit_length, 8);
}

#[test]
fn eds_import_preserves_dummy_pdo_mapping() {
    let od = table("pub struct DummyMappedOd = \"a.eds\";", &dummy_mapped_eds());
    let mut buf = [0u8; 4];

    assert_eq!(od.read(0x1A00, 1, &mut buf), Ok(4));
    assert_eq!(u32::from_le_bytes(buf), 0x2000_0001);
    assert_eq!(od.read(0x1A00, 2, &mut buf), Ok(4));
    assert_eq!(u32::from_le_bytes(buf), 0x0001_0007);
    assert_eq!(od.read(0x1A00, 3, &mut buf), Ok(4));
    assert_eq!(u32::from_le_bytes(buf), 0x2001_0008);

    let tpdo = od.tpdo_configs(NodeId::new(1).unwrap());
    let config = &tpdo[0];
    assert_eq!(config.mappings.len(), 3);
    assert_eq!(config.mappings[1].index, 0x0001);
    assert_eq!(config.mappings[1].subindex, 0);
    assert_eq!(config.mappings[1].bit_length, 7);
}

#[test]
fn eds_pdo_device_array() {
    let od = pdo_device();
    let mut buf = [0u8; 4];

    // 0x1003 is an array of u32 with 4 elements
    let len = od.read(0x1003, 0, &mut buf).unwrap();
    assert_eq!(len, 1);
    assert_eq!(buf[0], 4); // sub0 = count

    // Read element
    let len = od.read(0x1003, 1, &mut buf).unwrap();
    assert_eq!(len, 4);
    assert_eq!(u32::from_le_bytes(buf), 0);
}

#[test]
fn eds_pdo_device_tpdo_params() {
    let od = pdo_device();
    let mut buf = [0u8; 4];

    // TPDO1 comm params should exist (generated from EDS PDO sections)
    // 0x1800:0 = highest subindex
    let len = od.read(0x1800, 0, &mut buf).unwrap();
    assert_eq!(len, 1);
    assert_eq!(buf[0], 5);

    // 0x1800:2 = transmission type = 0xFF
    let len = od.read(0x1800, 2, &mut buf).unwrap();
    assert_eq!(len, 1);
    assert_eq!(buf[0], 0xFF);

    // 0x1800:3 = inhibit time = 0x1F4 = 500
    let len = od.read(0x1800, 3, &mut buf).unwrap();
    assert_eq!(len, 2);
    assert_eq!(u16::from_le_bytes([buf[0], buf[1]]), 0x1F4);

    // 0x1800:5 = event timer = 0x64 = 100
    let len = od.read(0x1800, 5, &mut buf).unwrap();
    assert_eq!(len, 2);
    assert_eq!(u16::from_le_bytes([buf[0], buf[1]]), 0x64);
}

#[test]
fn eds_pdo_device_tpdo_mapping() {
    let od = pdo_device();
    let mut buf = [0u8; 4];

    // TPDO1 mapping count = 1
    let len = od.read(0x1A00, 0, &mut buf).unwrap();
    assert_eq!(len, 1);
    assert_eq!(buf[0], 1);

    // Mapping entry 1 = statusword (0x6041, sub 0, 16 bits)
    let len = od.read(0x1A00, 1, &mut buf).unwrap();
    assert_eq!(len, 4);
    assert_eq!(u32::from_le_bytes(buf), 0x6041_0010);
}

#[test]
fn eds_pdo_device_rpdo_mapping() {
    let od = pdo_device();
    let mut buf = [0u8; 4];

    // RPDO1 comm: transmission type = 0xFF
    let len = od.read(0x1400, 2, &mut buf).unwrap();
    assert_eq!(len, 1);
    assert_eq!(buf[0], 0xFF);

    // RPDO1 comm sub 5: event timer (deadline monitoring) = 300 ms
    let len = od.read(0x1400, 5, &mut buf).unwrap();
    assert_eq!(len, 2);
    assert_eq!(u16::from_le_bytes([buf[0], buf[1]]), 0x12C);

    // RPDO1 mapping count = 1
    let len = od.read(0x1600, 0, &mut buf).unwrap();
    assert_eq!(len, 1);
    assert_eq!(buf[0], 1);

    // Mapping entry 1 = controlword (0x6040, sub 0, 16 bits)
    let len = od.read(0x1600, 1, &mut buf).unwrap();
    assert_eq!(len, 4);
    assert_eq!(u32::from_le_bytes(buf), 0x6040_0010);
}

#[test]
fn eds_pdo_device_configs() {
    let od = pdo_device();
    let node_id = NodeId::new(5).unwrap();

    let tpdo_cfgs = od.tpdo_configs(node_id);
    assert_eq!(tpdo_cfgs.len(), 2);
    assert_eq!(tpdo_cfgs[0].od_number, 1);
    assert_eq!(tpdo_cfgs[0].cob_id, 0x180 + 5); // predefined default
    assert_eq!(tpdo_cfgs[0].transmission_type, 255);
    assert_eq!(tpdo_cfgs[0].inhibit_time_100us, 0x1F4);
    assert_eq!(tpdo_cfgs[0].event_timer_ms, 0x64);
    assert_eq!(tpdo_cfgs[0].mappings.len(), 1);

    // TPDO7: beyond the pre-defined connection set; the EDS declares
    // $NODEID+0x1C2, which resolves per node (0x1C2 + 5 here)
    assert_eq!(tpdo_cfgs[1].od_number, 7);
    assert_eq!(tpdo_cfgs[1].cob_id, 0x1C7);
    assert_eq!(tpdo_cfgs[1].mappings.len(), 1);

    let rpdo_cfgs = od.rpdo_configs(node_id);
    assert_eq!(rpdo_cfgs.len(), 2);
    assert_eq!(rpdo_cfgs[0].od_number, 1);
    assert_eq!(rpdo_cfgs[0].cob_id, 0x200 + 5);
    assert_eq!(rpdo_cfgs[0].transmission_type, 255);
    assert_eq!(rpdo_cfgs[0].deadline_ms, 0x12C); // EDS sub 5 event timer
    assert_eq!(rpdo_cfgs[0].mappings.len(), 1);

    // RPDO2 is comm-only in the EDS (no mapping section): its comm params
    // must survive import so it can be remapped at runtime.
    assert_eq!(rpdo_cfgs[1].od_number, 2);
    assert_eq!(rpdo_cfgs[1].cob_id, 0x300 + 5);
    assert_eq!(rpdo_cfgs[1].deadline_ms, 0); // no sub 5 in the EDS
    assert_eq!(rpdo_cfgs[1].mappings.len(), 0);
}

#[test]
fn eds_import_mapping_mutability() {
    let mut od = pdo_device();

    // RPDO1/TPDO1 mapping records are AccessType=ro in the EDS -> immutable:
    // neither the unlock (sub 0) nor the entries accept writes.
    assert!(od.write(0x1600, 0, &[0]).is_err());
    assert!(od.write(0x1600, 1, &0x6040_0010u32.to_le_bytes()).is_err());
    assert!(od.write(0x1A00, 0, &[0]).is_err());

    // TPDO7's mapping record is AccessType=rw -> CiA 301 dynamic mapping,
    // remappable via the unlock protocol.
    od.write(0x1A06, 0, &[0]).unwrap();
    od.write(0x1A06, 1, &0x6041_0010u32.to_le_bytes()).unwrap();
    od.write(0x1A06, 0, &[1]).unwrap();

    // RPDO2 is comm-only (no mapping section in the EDS): it defaults to
    // mutable, otherwise it could never be mapped at runtime.
    od.write(0x1601, 1, &0x6040_0010u32.to_le_bytes()).unwrap();
    od.write(0x1601, 0, &[1]).unwrap();
}

// ---- Malformed files ----

#[test]
fn duplicate_top_level_object_section_is_error() {
    let err = parse_eds_content(
        "
[1000]
ParameterName=Device Type
ObjectType=0x7
DataType=0x0007

[1000]
ParameterName=Different Name
ObjectType=0x7
DataType=0x0007
",
    )
    .unwrap_err();

    assert!(err.contains("duplicate EDS object section"));
    assert!(err.contains("0x1000"));
}

#[test]
fn duplicate_subindex_section_is_error_even_with_different_spelling() {
    let err = parse_eds_content(
        "
[1018]
ParameterName=Identity
ObjectType=0x9

[1018sub1]
ParameterName=Vendor ID
ObjectType=0x7
DataType=0x0007

[1018sub01]
ParameterName=Different Name
ObjectType=0x7
DataType=0x0007
",
    )
    .unwrap_err();

    assert!(err.contains("duplicate EDS object section"));
    assert!(err.contains("0x1018:01"));
}

#[test]
fn record_top_level_and_subzero_are_distinct_sections() {
    parse_eds_content(
        "
[1018]
ParameterName=Identity
ObjectType=0x9

[1018sub0]
ParameterName=Number of Entries
ObjectType=0x7
DataType=0x0005
DefaultValue=1

[1018sub1]
ParameterName=Vendor ID
ObjectType=0x7
DataType=0x0007
",
    )
    .unwrap();
}

// ---- The exported file read back ----

#[test]
fn exported_file_describes_the_same_dictionary() {
    let source = definition("pub struct TestDeviceOd = \"a.eds\";", TEST_DEVICE_EDS);
    let exported = generate(&source).unwrap().eds;
    let back = table("pub struct TestDeviceOd = \"b.eds\";", &exported);
    let mut buf = [0u8; 4];
    assert_eq!(back.read(0x1000, 0, &mut buf), Ok(4));
    assert_eq!(u32::from_le_bytes(buf), 0xC8);
    assert_eq!(back.sub_count(0x2000), Some(2));
    let mut buf = [0u8; 2];
    assert_eq!(back.read(0x1017, 0, &mut buf), Ok(2));
    assert_eq!(u16::from_le_bytes(buf), 1000);
}

// ---- Typed clients ----

// Server-side OD (what the remote node has)
const SERVER_OD: &str = "
    pub struct ServerOd {
        [0x1000] device_type: u32 = 0x191, ro;
        [0x1001] error_register: u8 = 0, ro;
        [0x1008] device_name: visible_string<32>, ro;
        [0x1017] producer_heartbeat_time: u16 = 500, rw;
        [0x6040] controlword: u16 = 0, rw, pdo;
        [0x6041] statusword: u16 = 0, ro, pdo;
    }
";

const NAMES_EDS: &str = "\
[2032]
ParameterName=Max Motor Speed
ObjectType=0x7
DataType=0x0007
AccessType=rw
DefaultValue=0

[6080]
ParameterName=Max Motor Speed
ObjectType=0x7
DataType=0x0007
AccessType=rw
DefaultValue=0
";

fn test_client() -> SdoClientDef {
    generate_client(&definition(PDO_DEVICE, TEST_PDO_DEVICE_EDS))
}

fn method<'a>(client: &'a SdoClientDef, name: &str) -> &'a ClientMethod {
    client.methods.iter().find(|m| m.name == name).unwrap()
}

/// The remote node.
struct Remote {
    server: SdoServer,
    od: Table,
}

impl Remote {
    fn new() -> Self {
        let mut od = generate(&OdDefinition::parse_text(SERVER_OD).unwrap()).unwrap().table;
        assert!(od.set_field("statusword", &0x1234u16.to_le_bytes()));
        assert!(od.set_field("device_name", b"TestDev"));
        Remote { server: SdoServer::new(), od }
    }

    fn run(&mut self, mut transfer: SdoTransfer, first: CanFrame) -> TransferStep {
        let mut request = first;
        loop {
            let mut req = [0u8; 8];
            req.copy_from_slice(request.data());
            let mut resp = [0u8; 8];
            let mut events: BoundedQueue<OdEvent, 16> = BoundedQueue::new();
            self.server
                .process(&req, &mut self.od, &mut resp, &mut events, NmtState::Operational, 0)
                .unwrap();
            match transfer.on_frame(&CanFrame::new(0x581, &resp).unwrap()) {
                TransferStep::Send(next) => request = next,
                end => return end,
            }
        }
    }

    fn upload(&mut self, index: u16, subindex: u8) -> Vec<u8> {
        let (transfer, first) = SdoDriver::new(NodeId::new(1).unwrap()).begin_upload(index, subindex);
        match self.run(transfer, first) {
            TransferStep::Uploaded(data) => data,
            _ => panic!("expected a value"),
        }
    }

    fn read(&mut self, m: &ClientMethod) -> Vec<u8> {
        assert_eq!(m.access, ClientAccess::Read);
        match m.sub {
            ClientSub::At(sub) => self.upload(m.index, sub),
            ClientSub::UpTo(_) => panic!("an element is needed"),
        }
    }

    fn write(&mut self, m: &ClientMethod, data: &[u8]) {
        assert_eq!(m.access, ClientAccess::Write);
        let sub = match m.sub {
            ClientSub::At(sub) => sub,
            ClientSub::UpTo(_) => panic!("an element is needed"),
        };
        let driver = SdoDriver::new(NodeId::new(1).unwrap());
        let (transfer, first) = driver.begin_download(m.index, sub, data).unwrap();
        assert!(matches!(self.run(transfer, first), TransferStep::Downloaded));
    }
}

#[test]
fn typed_client_read_u32() {
    let client = test_client();
    let m = method(&client, "read_i1000_s00_device_type");
    assert_eq!(m.ty, ClientType::U32);
    let val = Remote::new().read(m);
    assert_eq!(u32::from_le_bytes(val.try_into().unwrap()), 0x191);
}

#[test]
fn typed_client_read_u16() {
    let client = test_client();
    let m = method(&client, "read_i6041_s00_statusword");
    assert_eq!(m.ty, ClientType::U16);
    let val = Remote::new().read(m);
    assert_eq!(u16::from_le_bytes(val.try_into().unwrap()), 0x1234);
}

#[test]
fn typed_client_write_u16() {
    let client = test_client();
    let m = method(&client, "write_i6040_s00_controlword");
    assert_eq!(m.ty, ClientType::U16);
    let mut can = Remote::new();
    can.write(m, &0xBEEFu16.to_le_bytes());
    assert_eq!(can.od.field_int("controlword"), Some(0xBEEF));
}

#[test]
fn typed_client_read_string() {
    let client = test_client();
    let m = method(&client, "read_i1008_s00_device_name");
    assert_eq!(m.ty, ClientType::Raw);
    let val = Remote::new().read(m);
    assert_eq!(val, b"TestDev");
}

#[test]
fn typed_client_read_write_roundtrip() {
    let client = test_client();
    let mut can = Remote::new();

    // Write heartbeat time
    can.write(method(&client, "write_i1017_s00_producer_heartbeat_time"), &1000u16.to_le_bytes());

    // Read it back
    let val = can.read(method(&client, "read_i1017_s00_producer_heartbeat_time"));
    assert_eq!(u16::from_le_bytes(val.try_into().unwrap()), 1000);
}

#[test]
fn typed_client_raw_access() {
    // Use raw upload
    let val = Remote::new().upload(0x1000, 0);
    assert_eq!(val.len(), 4);
    assert_eq!(u32::from_le_bytes(val.try_into().unwrap()), 0x191);
}

#[test]
fn generated_method_names_are_distinct() {
    let client = test_client();
    assert_eq!(client.vis, Visibility::Public);
    assert_eq!(client.name, "PdoDeviceOd");
    let m = method(&client, "read_i1003_pre_defined_error_field");
    assert_eq!(m.sub, ClientSub::UpTo(4));
    assert!(!client.methods.iter().any(|m| m.name == "write_i1000_s00_device_type"));

    let names = generate_client(&definition("pub struct NamesClient = \"a.eds\";", NAMES_EDS));
    for name in [
        "read_i2032_s00_max_motor_speed",
        "write_i2032_s00_max_motor_speed",
        "read_i6080_s00_max_motor_speed",
        "write_i6080_s00_max_motor_speed",
    ] {
        method(&names, name);
    }
}

#[test]
fn typed_access_by_type() {
    assert_eq!(typed_read_info("u16"), Some(ClientType::U16));
    assert_eq!(typed_write_info("u8"), Some(ClientType::U8));
    assert_eq!(typed_read_info("domain"), None);
}
