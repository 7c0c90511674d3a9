//! Device configuration files.

use canopen_core::dcf::{serialize_value, Dcf, DcfError, DcfValue, RemoteConfig};
use canopen_core::dictionary::codegen::generate;
use canopen_core::dictionary::table::Table;
use canopen_core::dictionary::OdDefinition;
use canopen_core::od::OdError;

const TEST_DCF: &str = "\
[FileInfo]
FileName=test.dcf
FileVersion=1

[DeviceComissioning]
NodeID=5
BaudRate=5

[MandatoryObjects]
SupportedObjects=2
1=0x1000
2=0x1001

[1000]
ParameterName=Device Type
ObjectType=0x7
DataType=0x0007
AccessType=ro
DefaultValue=0x191

[1001]
ParameterName=Error Register
ObjectType=0x7
DataType=0x0005
AccessType=ro
DefaultValue=0

[1017]
ParameterName=Producer Heartbeat Time
ObjectType=0x7
DataType=0x0006
AccessType=rw
ParameterValue=500

[6040]
ParameterName=Controlword
ObjectType=0x7
DataType=0x0006
AccessType=rw
ParameterValue=0x000F
";

/// The dictionary that the configuration is applied to.
fn test_od() -> Table {
    let definition = OdDefinition::parse_text(
        "pub struct DcfTestOd {
            [0x1000] device_type: u32 = 0x191, ro;
            [0x1017] heartbeat_time: u16 = 100, rw;
            [0x6040] controlword: u16 = 0, rw;
        }",
    )
    .unwrap();
    generate(&definition).unwrap().table
}

fn bytes(value: &str, data_type: u16) -> Vec<u8> {
    match serialize_value(value, data_type) {
        Some(DcfValue::Bytes(data)) => data,
        other => panic!("expected bytes, got {other:?}"),
    }
}

#[test]
fn parse_dcf_node_id() {
    let dcf = Dcf::parse(TEST_DCF).unwrap();
    assert_eq!(dcf.node_id, Some(5));
    assert_eq!(dcf.baud_rate, Some(5));
}

#[test]
fn parse_dcf_entries() {
    let dcf = Dcf::parse(TEST_DCF).unwrap();
    assert!(dcf.entries.len() >= 2);

    // Check heartbeat time entry
    let hb = dcf.entries.iter().find(|e| e.index == 0x1017).unwrap();
    assert_eq!(u16::from_le_bytes(hb.data[..2].try_into().unwrap()), 500);
    assert_eq!(hb.name, "Producer Heartbeat Time");

    // Check controlword entry
    let cw = dcf.entries.iter().find(|e| e.index == 0x6040).unwrap();
    assert_eq!(u16::from_le_bytes(cw.data[..2].try_into().unwrap()), 0x000F);
}

#[test]
fn apply_dcf_to_od() {
    let dcf = Dcf::parse(TEST_DCF).unwrap();
    let mut od = test_od();

    assert_eq!(od.field_int("heartbeat_time"), Some(100)); // original default
    let count = dcf.apply(&mut od);
    assert!(count >= 2);

    assert_eq!(od.field_int("heartbeat_time"), Some(500)); // DCF value applied
    assert_eq!(od.field_int("controlword"), Some(0x000F));
}

#[test]
fn apply_dcf_skips_readonly() {
    let dcf = Dcf::parse(TEST_DCF).unwrap();
    let mut od = test_od();

    let original_device_type = od.field_int("device_type");
    dcf.apply(&mut od);
    // device_type is ro — should not change
    assert_eq!(od.field_int("device_type"), original_device_type);
}

#[test]
fn serialize_float_hex() {
    // 0x447a0000 = 1000.0f32
    let data = bytes("0x447a0000", 0x0008);
    let f = f32::from_le_bytes(data[..4].try_into().unwrap());
    assert!((f - 1000.0).abs() < 0.01);
}

#[test]
fn serialize_float_decimal() {
    let text = match serialize_value("3.14", 0x0008) {
        Some(DcfValue::Real32(text)) => text,
        other => panic!("expected a decimal real, got {other:?}"),
    };
    let data = text.parse::<f32>().unwrap().to_le_bytes();
    let f = f32::from_le_bytes(data[..4].try_into().unwrap());
    assert!((f - 3.14).abs() < 0.01);
}

#[test]
fn serialize_string() {
    let data = bytes("\"Hello\"", 0x0009);
    assert_eq!(data, b"Hello");
}

#[test]
fn serialize_integers() {
    assert_eq!(bytes("0x1FF", 0x0006), [0xFF, 0x01]);
    assert_eq!(bytes("7", 0x0007), [7, 0, 0, 0]);
    assert_eq!(bytes("1", 0x0001), [1]);
}

#[test]
fn strict_application_stops_at_the_first_refusal() {
    let dcf = Dcf::parse(TEST_DCF).unwrap();
    let mut od = test_od();
    match dcf.apply_strict(&mut od) {
        Err(DcfError::OdError { index, subindex, error }) => {
            assert_eq!((index, subindex), (0x1000, 0));
            assert_eq!(error, OdError::ReadOnly);
        }
        other => panic!("expected a refusal, got {other:?}"),
    }
    assert_eq!(od.field_int("heartbeat_time"), Some(100));
}

#[test]
fn real_values_take_their_place() {
    let content = "[2000]\nParameterName=A\nDataType=0x0006\nParameterValue=1\n\
                   [2001]\nParameterName=B\nDataType=0x0008\nParameterValue=1.5\n\
                   [2002]\nParameterName=C\nDataType=0x0006\nParameterValue=2\n";
    let mut dcf = Dcf::parse(content).unwrap();
    assert_eq!(dcf.entries.len(), 2);
    assert_eq!(dcf.reals.len(), 1);
    assert_eq!(dcf.reals[0].text, "1.5");
    dcf.insert_reals(&vec![Some(1.5f32.to_bits() as u64)]);
    let order: Vec<u16> = dcf.entries.iter().map(|e| e.index).collect();
    assert_eq!(order, [0x2000, 0x2001, 0x2002]);
    assert_eq!(dcf.entries[1].data, 1.5f32.to_le_bytes());
}

#[test]
fn remote_entries_that_fail_are_skipped() {
    let dcf = Dcf::parse(TEST_DCF).unwrap();
    let mut progress = RemoteConfig::new();
    let mut offered = Vec::new();
    while let Some(entry) = progress.pending(&dcf) {
        offered.push((entry.index, entry.subindex));
        // The first one is refused
        progress.answered(offered.len() > 1);
    }
    let all: Vec<(u16, u8)> = dcf.entries.iter().map(|e| (e.index, e.subindex)).collect();
    assert!(all.len() > 1);
    assert_eq!(offered, all);
    assert_eq!(progress.written(), all.len() - 1);
}
