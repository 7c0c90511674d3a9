//! Definitions that are refused, and the parts of those that are accepted.

use canopen_core::dictionary::codegen::{generate, read_string};
use canopen_core::dictionary::definition::{type_size, type_to_datatype};
use canopen_core::dictionary::dsl::DslFault;
use canopen_core::dictionary::eds_parser::{parse_eds_content, print_expr};
use canopen_core::dictionary::literal::{decimal_notation, eval_literal};
use canopen_core::dictionary::mapping::Fault;
use canopen_core::dictionary::names::{sanitize_name, to_camel_case, to_screaming_snake};
use canopen_core::dictionary::token::{
    eval_int_lit, eval_time, eval_unit, tokenize, Delim, Token,
};
use canopen_core::dictionary::{
    CobIdSpec, EdsDefinition, EntryKind, OdDefinition, PdoField, Visibility,
};
use canopen_core::DataType;

fn fault_of(text: &str) -> (DslFault, usize) {
    let e = OdDefinition::parse_text(text).err().unwrap();
    (e.fault, e.at)
}

fn refusal(items: &str) -> (Fault, String) {
    let definition = OdDefinition::parse_text(&format!("struct A {{ {} }}", items)).unwrap();
    let e = generate(&definition).err().unwrap();
    (e.fault, e.message())
}

#[test]
fn definitions_that_are_not_accepted() {
    assert_eq!(fault_of("struct A { \u{3b1} ' }"), (DslFault::NotTokens, 0));
    assert_eq!(fault_of("struct 5 { }"), (DslFault::ExpectedIdent, 1));
    assert_eq!(fault_of("struct A { [x] a: u8, ro; }"), (DslFault::ExpectedNumber, 4));
    assert_eq!(fault_of("#[export_eds(path = 5)] struct A { }"), (DslFault::ExpectedString, 6));
    assert_eq!(
        fault_of("struct A { [1] a: u8 = +, ro; }"),
        (DslFault::ExpectedExpression, 10)
    );
    assert_eq!(fault_of("struct A { [1] a u8, ro; }"), (DslFault::ExpectedPunct(':'), 7));
    assert_eq!(fault_of("struct A"), (DslFault::ExpectedOpen(Delim::Brace), 2));
    assert_eq!(
        fault_of("struct A { [1 2] a: u8, ro; }"),
        (DslFault::ExpectedClose(Delim::Bracket), 5)
    );
    assert_eq!(fault_of("enum A { }"), (DslFault::ExpectedWord, 0));
    assert_eq!(fault_of("struct A { [0x10000] a: u8, ro; }"), (DslFault::NumberRange, 4));
    assert_eq!(fault_of("#[other] struct A { }"), (DslFault::UnknownAttribute, 2));
    assert_eq!(
        fault_of("struct A { tpdo[1](other = 1) { }; }"),
        (DslFault::UnknownParameter, 8)
    );
    assert_eq!(fault_of("struct A { [1] a: u8, rx; }"), (DslFault::UnknownAccess, 10));
    assert_eq!(
        fault_of("struct A { tpdo[1](transmission_type = sometimes) { }; }"),
        (DslFault::UnknownTransmissionType, 10)
    );
    assert_eq!(
        fault_of("struct A { tpdo[1](mapping = maybe) { }; }"),
        (DslFault::UnknownMappingKind, 10)
    );
    assert_eq!(
        fault_of("struct A { tpdo[1](event_timer = 66s) { }; }"),
        (DslFault::BadTime, 10)
    );
    assert_eq!(fault_of("struct A { tpdo[5] { }; }"), (DslFault::CobIdRequired, 3));
    assert_eq!(
        fault_of(&format!("struct A {{ tpdo[1] {{ {} }}; }}", "a, ".repeat(65))),
        (DslFault::TooManyMappings, 3)
    );
    assert_eq!(fault_of("struct A { } }"), (DslFault::NotTokens, 0));
    assert_eq!(fault_of("struct A { } struct B { }"), (DslFault::Unexpected, 4));
}

#[test]
fn numbers_of_pdos_are_bounded() {
    assert_eq!(fault_of("struct A { tpdo[0] { }; }"), (DslFault::NumberRange, 5));
    assert_eq!(fault_of("struct A { rpdo[513] { }; }"), (DslFault::NumberRange, 5));
    let def = OdDefinition::parse_text("struct A { rpdo[512](cob_id = node_id + 0x780) { }; }");
    let def = def.unwrap();
    assert_eq!(def.pdos[0].number, 512);
    assert_eq!(def.pdos[0].cob_id, Some(CobIdSpec::NodeRelative(0x780)));
    assert!(OdDefinition::parse_text(&format!(
        "struct A {{ tpdo[1] {{ {} }}; }}",
        "a, ".repeat(64)
    ))
    .is_ok());
}

#[test]
fn dictionaries_that_cannot_be_made() {
    assert_eq!(
        refusal("tpdo[1] { a };"),
        (
            Fault::UnknownField,
            "tpdo[1] references unknown field `a`. Make sure it is defined as a VAR or RECORD \
             sub-entry in the OD."
                .to_string()
        )
    );
    assert_eq!(
        refusal("[0x2000] a: u8, ro; rpdo[2] { a };"),
        (
            Fault::NotMappable,
            "rpdo[2] maps field `a` which is not PDO-mappable. Add `, pdo` to its definition."
                .to_string()
        )
    );
    assert_eq!(
        refusal("[0x2000] a: domain<8>, ro, pdo; tpdo[1] { a };"),
        (
            Fault::VariableLength,
            "tpdo[1] maps field `a` which has variable length. Only fixed-size types can be \
             PDO-mapped."
                .to_string()
        )
    );
    assert_eq!(
        refusal("[0x2000] a: u7, ro;"),
        (Fault::UnsupportedType, "unsupported type of field `a`".to_string())
    );
    let mut long =
        OdDefinition::parse_text("struct A { [0x2000] a: bool, ro, pdo; tpdo[1] { a }; }").unwrap();
    for _ in 0..64 {
        long.pdos[0].mappings.push(PdoField::Named(String::from("a")));
    }
    let e = generate(&long).err().unwrap();
    assert_eq!(
        (e.fault, e.message()),
        (Fault::MappingTooLong, "tpdo[1] maps more than 64 objects".to_string())
    );
    assert_eq!(
        refusal("tpdo[1] { }; tpdo[1] { };"),
        (
            Fault::DuplicatePdo,
            "duplicate tpdo[N] definition: each PDO number may only be declared once".to_string()
        )
    );
    assert_eq!(
        refusal("[0x2000] a: octet_string, ro;"),
        (
            Fault::NoCapacity,
            "Variable-length type for field `a` requires a capacity. Use #[use_alloc] for \
             dynamic allocation."
                .to_string()
        )
    );
    assert_eq!(
        refusal("[0x2000] a: u8 = 256, ro;"),
        (Fault::BadDefault, "the default of field `a` is not a value of its type".to_string())
    );
    assert_eq!(
        refusal(
            "sdo_server[2](cob_rx = 0x640, cob_tx = 0x5C0); \
             sdo_server[2](cob_rx = 0x641, cob_tx = 0x5C1);"
        ),
        (
            Fault::SdoServerNumber,
            "SDO server numbers must be 2-128, each declared only once".to_string()
        )
    );
    assert_eq!(
        refusal("sdo_server[2](cob_rx = 0x640, cob_tx = 0x640);"),
        (Fault::SdoServerCobId, "SDO server COB-IDs must not collide".to_string())
    );
    // A definition need not come from text
    let mut definition =
        OdDefinition::parse_text("struct A { tpdo[512](cob_id = 0x400) { }; }").unwrap();
    definition.pdos[0].number = 513;
    let e = generate(&definition).err().unwrap();
    assert_eq!(e.fault, Fault::PdoNumber);
    assert_eq!(e.message(), "tpdo[513]: PDO number must be 1-512");
}

#[test]
fn tokens_of_a_text() {
    let tokens = tokenize("a += [0x1F_u8] \"b\"").unwrap();
    let mut seen = Vec::new();
    for t in tokens {
        seen.push(match t {
            Token::Ident(s) => format!("ident {}", s),
            Token::Punct(c, joint) => format!("punct {} {}", c, joint),
            Token::Literal(s) => format!("literal {}", s),
            Token::Open(d) => format!("open {:?}", d),
            Token::Close(d) => format!("close {:?}", d),
        });
    }
    assert_eq!(
        seen,
        vec![
            "ident a",
            "punct + true",
            "punct = false",
            "open Bracket",
            "literal 0x1F_u8",
            "close Bracket",
            "literal \"b\"",
        ]
    );
    assert!(tokenize("(").is_none());
    assert!(tokenize("\"open").is_none());
    assert_eq!(tokenize("").unwrap().len(), 0);
}

#[test]
fn numbers_and_times_in_definitions() {
    let (v, suffix) = eval_int_lit("0x1F_u8").unwrap();
    assert_eq!(v, 31);
    assert_eq!(suffix, "u8");
    assert_eq!(eval_int_lit("1_000").unwrap().0, 1000);
    assert_eq!(eval_int_lit("0b101").unwrap().0, 5);
    assert!(eval_int_lit("1.5").is_none());
    assert!(eval_int_lit("1e5").is_none());
    assert!(eval_int_lit("18446744073709551616").is_none());
    assert_eq!(eval_unit(5, "ms", 100), Some(50));
    assert_eq!(eval_unit(5, "", 100), Some(5));
    assert_eq!(eval_unit(5, "min", 100), None);
    assert_eq!(eval_time("1.5ms", 100), Some(15));
    assert_eq!(eval_time("5ms", 1000), Some(5));
    assert_eq!(eval_time("5ms", 100), Some(50));
    assert_eq!(eval_time("2s", 1000), Some(2000));
    assert_eq!(eval_time("7", 1000), Some(7));
    assert_eq!(eval_time("5min", 1000), None);
}

#[test]
fn reals_in_decimal_notation() {
    assert_eq!(decimal_notation("1.5f32"), "1.5");
    assert_eq!(decimal_notation("- 1_000.25e-3 f64"), "-1000.25e-3");
    assert_eq!(decimal_notation("2.0"), "2.0");
}

#[test]
fn expressions_with_commas() {
    let def = OdDefinition::parse_text(
        "struct A { [1] a: u8 = f::<A, B>(1, 2), ro; [2] b: u8 = |x, y| x, rw; [3] c: u8 = a < b, ro; }",
    )
    .unwrap();
    let default = |i: usize| match &def.entries[i].kind {
        EntryKind::Var(var) => var.default_value.clone().unwrap(),
        _ => panic!("expected a variable"),
    };
    assert_eq!(default(0), "f :: < A , B > (1 , 2)");
    assert_eq!(default(1), "| x , y | x");
    assert_eq!(default(2), "a < b");
    assert_eq!(
        fault_of("struct A { [1] a: u8 = 5; }"),
        (DslFault::ExpectedPunct(','), 11)
    );
    assert_eq!(
        fault_of("struct A { [1] a: u8 = f::<A, ro; }"),
        (DslFault::ExpectedExpression, 10)
    );
}

#[test]
fn groups_can_be_nested_deep() {
    let text = format!("{}1{}", "(".repeat(200), ")".repeat(200));
    assert_eq!(tokenize(&text).unwrap().len(), 401);
}

#[test]
fn mapping_longer_than_a_frame_is_generated() {
    let text = "struct A { [0x2000] a: u64, ro, pdo; [0x2001] b: bool, ro, pdo; tpdo[1] { a, b }; }";
    let table = generate(&OdDefinition::parse_text(text).unwrap()).unwrap().table;
    assert_eq!(table.tpdos[0].mappings, vec![0x2000_0040, 0x2001_0001]);
}

#[test]
fn literals_of_each_type() {
    assert_eq!(eval_literal(DataType::U16, "0x1234", None), Some(vec![0x34, 0x12]));
    assert_eq!(eval_literal(DataType::I16, "-2", None), Some(vec![0xFE, 0xFF]));
    assert_eq!(eval_literal(DataType::U8, "256", None), None);
    assert_eq!(eval_literal(DataType::Boolean, "true", None), Some(vec![1]));
    assert_eq!(
        eval_literal(DataType::Real32, "1.5", Some(0x3FC0_0000)),
        Some(vec![0, 0, 0xC0, 0x3F])
    );
    assert_eq!(eval_literal(DataType::Real32, "1.5", None), None);
    assert_eq!(read_string("\"abc\"").unwrap(), vec!['a', 'b', 'c']);
    assert_eq!(read_string("\"a\\\"\\n\"").unwrap(), vec!['a', '"', '\n']);
    assert_eq!(read_string("r\"a\\\"").unwrap(), vec!['a', '\\']);
    assert_eq!(read_string("abc"), None);
}

#[test]
fn expressions_are_printed_with_spaces() {
    let text: Vec<char> = "-  5".chars().collect();
    assert_eq!(print_expr(&text).unwrap(), "- 5");
    let text: Vec<char> = "1 +".chars().collect();
    assert!(print_expr(&text).is_none());
}

#[test]
fn names_of_variants_and_constants() {
    assert_eq!(to_camel_case("device_type"), "DeviceType");
    assert_eq!(to_camel_case("\u{df}_x"), "\u{df}X");
    assert_eq!(to_screaming_snake("device_type"), "DEVICE_TYPE");
    assert_eq!(to_screaming_snake("a\u{c9}b"), "A_\u{c9}B");
    let text: Vec<char> = "Gr\u{f6}\u{df}e (1)".chars().collect();
    assert_eq!(sanitize_name(&text).iter().collect::<String>(), "gr\u{f6}\u{df}e__1_");
    assert_eq!(sanitize_name(&[]).iter().collect::<String>(), "_unnamed");
    assert_eq!(sanitize_name(&['1']).iter().collect::<String>(), "_1");
}

#[test]
fn eds_entries_come_in_order() {
    let (entries, _) = parse_eds_content(
        "[2001]\nParameterName=b\nObjectType=0x7\nDataType=0x5\nAccessType=rw\n\
         [2000]\nParameterName=a\nObjectType=0x7\nDataType=0x5\nAccessType=rw\n",
    )
    .unwrap();
    assert_eq!(entries.len(), 2);
    assert_eq!((entries[0].index, entries[1].index), (0x2000, 0x2001));
}

#[test]
fn keywords_name_nothing() {
    assert_eq!(fault_of("struct type { }"), (DslFault::ExpectedIdent, 1));
    assert_eq!(fault_of("struct A { [1] self: u8, ro; }"), (DslFault::ExpectedIdent, 6));
    assert_eq!(fault_of("struct A { [1] a: dyn, ro; }"), (DslFault::ExpectedIdent, 8));
    assert_eq!(fault_of("struct A { tpdo[1] { yield }; }"), (DslFault::ExpectedIdent, 8));
    assert_eq!(
        fault_of("struct A { match }"),
        (DslFault::ExpectedOpen(Delim::Bracket), 3)
    );
    assert!(OdDefinition::parse_text("struct A { [1] r#type: u8, ro; }").is_ok());
    let def = OdDefinition::parse_text("struct A { [1] a: u8 = 1, const; }").unwrap();
    assert_eq!(def.entries[0].name, "a");
}

#[test]
fn visibility_of_a_definition() {
    let within = |scope: &str| Visibility::Restricted(String::from(scope));
    for (text, vis) in [
        ("", Visibility::Inherited),
        ("pub", Visibility::Public),
        ("pub(crate)", within("crate ")),
        ("pub(self)", within("self ")),
        ("pub(super)", within("super ")),
        ("pub(in crate::a::b)", within("in crate :: a :: b ")),
        ("pub(in ::a)", within("in :: a ")),
        ("pub(in super::super)", within("in super :: super ")),
    ] {
        let def = OdDefinition::parse_text(&format!("{} struct A {{ }}", text)).unwrap();
        assert_eq!(def.vis, vis);
        let def = EdsDefinition::parse_text(&format!("{} struct A = \"a.eds\";", text)).unwrap();
        assert_eq!(def.vis, vis);
    }
    assert_eq!(fault_of("pub(other) struct A { }"), (DslFault::ExpectedWord, 1));
    assert_eq!(fault_of("pub(crate::a) struct A { }"), (DslFault::ExpectedWord, 1));
    assert_eq!(fault_of("pub(in) struct A { }"), (DslFault::ExpectedIdent, 3));
    assert_eq!(fault_of("pub(in a::) struct A { }"), (DslFault::ExpectedIdent, 6));
    assert_eq!(
        fault_of("pub(in a b) struct A { }"),
        (DslFault::ExpectedClose(Delim::Paren), 4)
    );
}

#[test]
fn eds_definitions_that_are_not_accepted() {
    let e = EdsDefinition::parse_text("struct A").err().unwrap();
    assert_eq!((e.fault, e.at), (DslFault::ExpectedPunct('='), 2));
    let def = EdsDefinition::parse_text("pub struct A = \"a.eds\";").unwrap();
    assert_eq!(def.vis, Visibility::Public);
    assert_eq!((def.name.as_str(), def.file_path.as_str()), ("A", "a.eds"));
}

#[test]
fn types_by_name() {
    assert_eq!(type_to_datatype("bool"), Some("Boolean"));
    assert_eq!(type_to_datatype("i24"), Some("I24"));
    assert_eq!(type_to_datatype("visible_string"), Some("VisibleString"));
    assert_eq!(type_to_datatype("u7"), None);
    assert_eq!(type_size("u24"), Some(3));
    assert_eq!(type_size("f64"), Some(8));
    assert_eq!(type_size("domain"), None);
}
