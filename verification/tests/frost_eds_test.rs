//! Dictionaries of a drive and of an energy module, from their EDS files.

use canopen_core::cobid::NodeId;
use canopen_core::dictionary::codegen::generate;
use canopen_core::dictionary::eds_parser::parse_eds_to_od;
use canopen_core::dictionary::sdo_client_codegen::{generate as generate_client, SdoClientDef};
use canopen_core::dictionary::table::Table;
use canopen_core::dictionary::{EdsDefinition, OdDefinition};
use canopen_core::od::ObjectDictionary;

fn var(section: &str, name: &str, data_type: u16, access: &str, default: &str, pdo: u8) -> String {
    format!(
        "[{section}]\nParameterName={name}\nObjectType=0x7\nDataType=0x{data_type:04X}\n\
         AccessType={access}\nDefaultValue={default}\nPDOMapping={pdo}\n\n"
    )
}

fn group(section: &str, name: &str, object_type: u8, subs: u8) -> String {
    format!("[{section}]\nParameterName={name}\nObjectType=0x{object_type:X}\nSubNumber={subs}\n\n")
}

/// The drive electronics system.
fn des_eds() -> String {
    let mut eds = String::from("[FileInfo]\nFileName=frost_des_od.eds\n\n");
    eds += &var("1000", "Device type", 7, "ro", "0x01", 0);
    eds += &group("1003", "Pre-defined error field", 8, 9);
    eds += &var("1003sub0", "Number of errors", 5, "rw", "8", 0);
    for i in 1..=8 {
        eds += &var(&format!("1003sub{i}"), "Standard error field", 7, "ro", "0", 0);
    }
    eds += &var("1008", "Manufacturer device name", 9, "const", "FRoS", 0);
    eds += &var("1017", "Producer heartbeat time", 6, "rw", "0x64", 0);
    eds += &group("1018", "Identity", 9, 3);
    eds += &var("1018sub0", "max sub-index", 5, "const", "2", 0);
    eds += &var("1018sub1", "Vendor-ID", 7, "ro", "0x420", 0);
    eds += &var("1018sub2", "Product code", 7, "ro", "0x01", 0);
    eds += &group("1800", "TPDO communication parameter", 9, 3);
    eds += &var("1800sub0", "max sub-index", 5, "const", "2", 0);
    eds += &var("1800sub1", "COB-ID used by TPDO", 7, "rw", "$NODEID+0x180", 0);
    eds += &var("1800sub2", "Transmission type", 5, "rw", "255", 0);
    eds += &group("1A00", "TPDO mapping parameter", 9, 2);
    eds += &var("1A00sub0", "Number of mapped objects", 5, "rw", "1", 0);
    eds += &var("1A00sub1", "Application object 1", 7, "rw", "0x60400010", 0);
    eds += &var("4003", "State machine frequency", 8, "rw", "0x447a0000", 0);
    eds += &var("6040", "Controlword", 6, "rw", "0", 1);
    eds += &var("6041", "Statusword", 6, "ro", "0", 1);
    eds
}

/// The energy management and distribution module.
fn emdm_eds() -> String {
    let mut eds = String::from("[FileInfo]\nFileName=frost_emdm_od.eds\n\n");
    eds += &var("1000", "Device type", 7, "ro", "0x300", 0);
    eds += &var("1008", "Manufacturer device name", 9, "const", "FRST", 0);
    eds += &group("1016", "Consumer heartbeat time", 8, 2);
    eds += &var("1016sub0", "max sub-index", 5, "const", "1", 0);
    eds += &var("1016sub1", "Consumer heartbeat time", 7, "rw", "0x10096", 0);
    eds += &var("1017", "Producer heartbeat time", 6, "rw", "0x1F4", 0);
    eds += &var("4041", "Autostart", 1, "rw", "0x01", 0);
    eds += &group("6050", "Energy measurements", 9, 5);
    eds += &var("6050sub0", "max sub-index", 5, "const", "4", 0);
    eds += &var("6050sub1", "Actual voltage", 6, "ro", "0", 1);
    eds += &var("6050sub2", "Actual current", 6, "ro", "0", 1);
    eds += &var("6050sub3", "Actual power", 6, "ro", "0", 1);
    eds += &var("6050sub4", "Energy", 7, "ro", "0", 1);
    eds += &group("6060", "Neopixel", 9, 3);
    eds += &var("6060sub0", "max sub-index", 5, "const", "2", 0);
    eds += &var("6060sub1", "Mode", 5, "rw", "0x04", 0);
    eds += &var("6060sub2", "Color", 7, "rw", "0xFF00", 0);
    eds
}

fn definition(name: &str, content: &str) -> OdDefinition {
    let declaration = format!(
        "pub struct {name} = \"{name}.eds\" with {{ [0x1008] capacity = 32, }};"
    );
    let def = EdsDefinition::parse_text(&declaration).unwrap();
    assert_eq!(def.capacity_overrides, [(0x1008, 32)]);
    parse_eds_to_od(&def, content).unwrap()
}

fn des_od() -> Table {
    generate(&definition("DesOd", &des_eds())).unwrap().table
}

fn emdm_od() -> Table {
    generate(&definition("EmdmOd", &emdm_eds())).unwrap().table
}

// ---- DES OD Tests ----

#[test]
fn des_od_device_type() {
    let od = des_od();
    let mut buf = [0u8; 4];
    let len = od.read(0x1000, 0, &mut buf).unwrap();
    assert_eq!(len, 4);
    assert_eq!(u32::from_le_bytes(buf), 0x01);
}

#[test]
fn des_od_device_name() {
    let od = des_od();
    let mut buf = [0u8; 32];
    let len = od.read(0x1008, 0, &mut buf).unwrap();
    assert_eq!(&buf[..len], b"FRoS");
}

#[test]
fn des_od_identity() {
    let od = des_od();
    let mut buf = [0u8; 4];

    // vendor ID
    od.read(0x1018, 1, &mut buf).unwrap();
    assert_eq!(u32::from_le_bytes(buf), 0x420);

    // product code
    od.read(0x1018, 2, &mut buf).unwrap();
    assert_eq!(u32::from_le_bytes(buf), 0x01);
}

#[test]
fn des_od_controlword_rw() {
    let mut od = des_od();
    let mut buf = [0u8; 2];

    // default 0
    od.read(0x6040, 0, &mut buf).unwrap();
    assert_eq!(u16::from_le_bytes(buf), 0);

    // write
    od.write(0x6040, 0, &0x000Fu16.to_le_bytes()).unwrap();
    od.read(0x6040, 0, &mut buf).unwrap();
    assert_eq!(u16::from_le_bytes(buf), 0x000F);
}

#[test]
fn des_od_statusword_ro() {
    let mut od = des_od();
    assert!(od.write(0x6041, 0, &0u16.to_le_bytes()).is_err());
}

#[test]
fn des_od_heartbeat_time() {
    let od = des_od();
    let mut buf = [0u8; 2];
    od.read(0x1017, 0, &mut buf).unwrap();
    assert_eq!(u16::from_le_bytes(buf), 0x64); // 100ms
}

#[test]
fn des_od_state_machine_frequency() {
    let od = des_od();
    let mut buf = [0u8; 4];
    od.read(0x4003, 0, &mut buf).unwrap();
    let freq = f32::from_le_bytes(buf);
    assert!((freq - 1000.0).abs() < 1.0); // 0x447a0000 = 1000.0
}

#[test]
fn des_od_error_field_array() {
    let od = des_od();
    let mut buf = [0u8; 4];

    // sub0 = count
    let len = od.read(0x1003, 0, &mut buf).unwrap();
    assert_eq!(len, 1);
    assert!(buf[0] > 0); // should have some error entries

    // read an element
    od.read(0x1003, 1, &mut buf).unwrap();
    assert_eq!(u32::from_le_bytes(buf), 0); // default 0
}

#[test]
fn des_od_tpdo_config() {
    let od = des_od();
    let node_id = NodeId::new(1).unwrap();
    let configs = od.tpdo_configs(node_id);
    // DES has TPDO1 mapped to controlword (0x6040:0, 16 bits)
    assert!(!configs.is_empty());
    assert_eq!(configs[0].mappings[0].index, 0x6040);
    assert_eq!(configs[0].mappings[0].bit_length, 16);
}

// ---- EMDM OD Tests ----

#[test]
fn emdm_od_device_type() {
    let od = emdm_od();
    let mut buf = [0u8; 4];
    od.read(0x1000, 0, &mut buf).unwrap();
    assert_eq!(u32::from_le_bytes(buf), 0x300);
}

#[test]
fn emdm_od_device_name() {
    let od = emdm_od();
    let mut buf = [0u8; 32];
    let len = od.read(0x1008, 0, &mut buf).unwrap();
    assert_eq!(&buf[..len], b"FRST");
}

#[test]
fn emdm_od_heartbeat_time() {
    let od = emdm_od();
    let mut buf = [0u8; 2];
    od.read(0x1017, 0, &mut buf).unwrap();
    assert_eq!(u16::from_le_bytes(buf), 0x1F4); // 500ms
}

#[test]
fn emdm_od_energy_measurements() {
    let od = emdm_od();
    let mut buf = [0u8; 2];

    // 0x6050 is a record with voltage, current, power, energy
    od.read(0x6050, 1, &mut buf).unwrap(); // actual voltage
    assert_eq!(u16::from_le_bytes(buf), 0);
}

#[test]
fn emdm_od_neopixel() {
    let od = emdm_od();
    let mut buf = [0u8; 4];

    // mode (u8, rw)
    od.read(0x6060, 1, &mut buf).unwrap();
    assert_eq!(buf[0], 0x04);

    // color (u32, rw)
    od.read(0x6060, 2, &mut buf).unwrap();
    assert_eq!(u32::from_le_bytes(buf), 0xFF00); // green
}

#[test]
fn emdm_od_consumer_heartbeat() {
    let od = emdm_od();
    let mut buf = [0u8; 4];
    // 0x1016:1 = consumer heartbeat config (node 1, 150ms = 0x10096)
    od.read(0x1016, 1, &mut buf).unwrap();
    assert_eq!(u32::from_le_bytes(buf), 0x10096);
}

#[test]
fn emdm_od_autostart() {
    let od = emdm_od();
    let mut buf = [0u8; 1];
    od.read(0x4041, 0, &mut buf).unwrap();
    assert_eq!(buf[0], 0x01); // autostart enabled
}

// ---- SDO Client Tests ----

fn has(client: &SdoClientDef, name: &str) -> bool {
    client.methods.iter().any(|m| m.name == name)
}

#[test]
fn des_client_has_typed_methods() {
    let client = generate_client(&definition("DesClient", &des_eds()));
    assert!(has(&client, "read_i6041_s00_statusword"));
    assert!(has(&client, "write_i6040_s00_controlword"));
    assert!(!has(&client, "write_i6041_s00_statusword"));
}

#[test]
fn emdm_client_has_typed_methods() {
    let client = generate_client(&definition("EmdmClient", &emdm_eds()));
    assert!(has(&client, "read_i1000_s00_device_type"));
    assert!(has(&client, "write_i1017_s00_producer_heartbeat_time"));
}
