//! Runtime DCF/EDS parser: load configuration from text at runtime.
//!
//! A DCF (Device Configuration File) is an EDS with actual configured values.
//! This module parses DCF/EDS text and can apply the configured values to a
//! local `ObjectDictionary` (e.g. at startup).
//!
//! Real numbers in decimal notation are not converted here: `Dcf::parse` lists
//! them, and `Dcf::insert_reals` takes their bit patterns.

use crate::ini::{
    find_section, get_int_prop, get_prop, in_pdo_range, int_prop, is_pdo_index, object_of,
    parse_ini_sections, parse_section_index, prop, section_props, section_views, sections_of,
    PropView, Section, SectionView,
};
use crate::od::{ObjectDictionary, OdContents, OdError};
use crate::text::{
    append_decimal, append_hex_filled, append_str, chars_of, contains, contains_text, has_hex_mark,
    int_value, is_text, number, parse_int, parse_number, string_of, strip_hex_mark, trim, trimmed,
    unquote, unquoted, utf8_of,
};
use vstd::prelude::*;
use vstd::slice::slice_subrange;
use vstd::utf8::encode_utf8;

verus! {

/// A configured value.
#[derive(Debug, Clone)]
pub enum DcfValue {
    /// The value as it is stored in the dictionary.
    Bytes(Vec<u8>),
    /// A 32-bit real number in decimal notation.
    Real32(String),
    /// A 64-bit real number in decimal notation.
    Real64(String),
}

/// What a configured value says.
#[verifier::ext_equal]
pub enum ValueView {
    Bytes(Seq<u8>),
    Real32(Seq<char>),
    Real64(Seq<char>),
}

impl View for DcfValue {
    type V = ValueView;

    open spec fn view(&self) -> ValueView {
        match self {
            DcfValue::Bytes(b) => ValueView::Bytes(b@),
            DcfValue::Real32(t) => ValueView::Real32(t@),
            DcfValue::Real64(t) => ValueView::Real64(t@),
        }
    }
}

/// The lowest `width` bytes of a number, least significant first.
pub open spec fn low_bytes(n: int, width: nat) -> Seq<u8>
    decreases width,
{
    if width == 0 {
        Seq::empty()
    } else {
        seq![(n % 256) as u8] + low_bytes(n / 256, (width - 1) as nat)
    }
}

/// The bytes that pairs of hexadecimal digits stand for, of which the last may
/// be a single one, if all are numbers.
pub open spec fn hex_pairs(s: Seq<char>) -> Option<Seq<u8>>
    decreases s.len(),
{
    if s.len() == 0 {
        Some(Seq::empty())
    } else {
        let n: int = if s.len() < 2 {
            1
        } else {
            2
        };
        match (number(s.take(n), 16, 0xFF), hex_pairs(s.skip(n))) {
            (Some(b), Some(rest)) => Some(seq![b as u8] + rest),
            _ => None,
        }
    }
}

/// A number as `width` bytes, if it is one.
pub open spec fn int_bytes(v: Seq<char>, width: nat) -> Option<ValueView> {
    match int_value(v) {
        Some(n) => Some(ValueView::Bytes(low_bytes(n, width))),
        None => None,
    }
}

/// The bits of a real number in hexadecimal.
pub open spec fn bit_pattern(hex: Seq<char>, width: nat) -> Option<ValueView> {
    match number(hex, 16, if width == 4 {
        u32::MAX as int
    } else {
        u64::MAX as int
    }) {
        Some(n) => Some(ValueView::Bytes(low_bytes(n, width))),
        None => None,
    }
}

/// What a text means as a value of a CiA 301 data type.
pub open spec fn value_of(text: Seq<char>, data_type: u16) -> Option<ValueView> {
    let v = unquoted(trimmed(text));
    if data_type == 0x0001 {
        Some(
            ValueView::Bytes(
                seq![
                    if v == "0"@ || v == "false"@ {
                        0u8
                    } else {
                        1u8
                    },
                ],
            ),
        )
    } else if data_type == 0x0002 || data_type == 0x0005 {
        int_bytes(v, 1)
    } else if data_type == 0x0003 || data_type == 0x0006 {
        int_bytes(v, 2)
    } else if data_type == 0x0004 || data_type == 0x0007 {
        int_bytes(v, 4)
    } else if data_type == 0x0008 {
        if has_hex_mark(v) {
            bit_pattern(v.skip(2), 4)
        } else {
            Some(ValueView::Real32(v))
        }
    } else if data_type == 0x0009 {
        Some(ValueView::Bytes(encode_utf8(v)))
    } else if data_type == 0x000A || data_type == 0x000F {
        if has_hex_mark(v) {
            match hex_pairs(v.skip(2)) {
                Some(b) => Some(ValueView::Bytes(b)),
                None => None,
            }
        } else {
            Some(ValueView::Bytes(encode_utf8(v)))
        }
    } else if data_type == 0x0011 {
        if has_hex_mark(v) {
            bit_pattern(v.skip(2), 8)
        } else {
            Some(ValueView::Real64(v))
        }
    } else if data_type == 0x0015 || data_type == 0x001B {
        int_bytes(v, 8)
    } else {
        None
    }
}

/// The lowest bytes of a number.
pub fn to_low_bytes(n: u64, width: usize) -> (r: Vec<u8>)
    ensures
        r@ == low_bytes(n as int, width as nat),
{
    let mut r: Vec<u8> = Vec::new();
    let mut left: u64 = n;
    let mut i: usize = 0;
    assert(r@ + low_bytes(n as int, width as nat) =~= low_bytes(n as int, width as nat));
    while i < width
        invariant
            i <= width,
            low_bytes(n as int, width as nat) == r@ + low_bytes(left as int, (width - i) as nat),
        decreases width - i,
    {
        let ghost before = r@;
        r.push((left % 256) as u8);
        assert(before + (seq![(left % 256) as u8] + low_bytes(
            left as int / 256,
            (width - i - 1) as nat,
        )) =~= r@ + low_bytes(left as int / 256, (width - i - 1) as nat));
        left = left / 256;
        i += 1;
    }
    assert(r@ + Seq::<u8>::empty() =~= r@);
    r
}

fn parse_hex_pairs(s: &[char]) -> (r: Option<Vec<u8>>)
    ensures
        match r {
            Some(b) => hex_pairs(s@) == Some(b@),
            None => hex_pairs(s@) is None,
        },
{
    let mut out: Vec<u8> = Vec::new();
    let mut i: usize = 0;
    assert(s@.skip(0) =~= s@);
    while i < s.len()
        invariant
            i <= s@.len(),
            hex_pairs(s@) == (match hex_pairs(s@.skip(i as int)) {
                Some(rest) => Some(out@ + rest),
                None => None,
            }),
        decreases s@.len() - i,
    {
        let n: usize = if s.len() - i < 2 {
            1
        } else {
            2
        };
        let part = slice_subrange(s, i, i + n);
        let ghost here = s@.skip(i as int);
        assert(part@ =~= here.take(n as int));
        assert(here.skip(n as int) =~= s@.skip(i + n));
        match parse_number(part, 16, 0xFF) {
            Some(b) => {
                let ghost before = out@;
                out.push(b as u8);
                proof {
                    if hex_pairs(s@.skip(i + n)) is Some {
                        let rest = hex_pairs(s@.skip(i + n))->0;
                        assert(before + (seq![b as u8] + rest) =~= out@ + rest);
                    }
                }
            },
            None => {
                return None;
            },
        }
        i += n;
    }
    assert(out@ + Seq::<u8>::empty() =~= out@);
    Some(out)
}

fn serialize_int(v: &[char], width: usize) -> (r: Option<DcfValue>)
    ensures
        match r {
            Some(d) => int_bytes(v@, width as nat) == Some(d@),
            None => int_bytes(v@, width as nat) is None,
        },
{
    match parse_int(v) {
        Some(n) => Some(DcfValue::Bytes(to_low_bytes(n, width))),
        None => None,
    }
}

/// Serialize a text value to LE bytes based on CiA 301 data type code.
pub fn serialize_value(value: &str, data_type: u16) -> (r: Option<DcfValue>)
    ensures
        match r {
            Some(d) => value_of(value@, data_type) == Some(d@),
            None => value_of(value@, data_type) is None,
        },
{
    let chars = chars_of(value);
    serialize_chars(chars.as_slice(), data_type)
}

fn serialize_chars(value: &[char], data_type: u16) -> (r: Option<DcfValue>)
    ensures
        match r {
            Some(d) => value_of(value@, data_type) == Some(d@),
            None => value_of(value@, data_type) is None,
        },
{
    let v = unquote(trim(value));
    if data_type == 0x0001 {
        let zero = is_text(v, "0") || is_text(v, "false");
        let b: u8 = if zero {
            0
        } else {
            1
        };
        let bytes: Vec<u8> = vec![b];
        assert(bytes@ =~= seq![b]);
        Some(DcfValue::Bytes(bytes))
    } else if data_type == 0x0002 || data_type == 0x0005 {
        serialize_int(v, 1)
    } else if data_type == 0x0003 || data_type == 0x0006 {
        serialize_int(v, 2)
    } else if data_type == 0x0004 || data_type == 0x0007 {
        serialize_int(v, 4)
    } else if data_type == 0x0008 {
        match strip_hex_mark(v) {
            Some(hex) => match parse_number(hex, 16, u32::MAX as u64) {
                Some(n) => Some(DcfValue::Bytes(to_low_bytes(n, 4))),
                None => None,
            },
            None => Some(DcfValue::Real32(string_of(v))),
        }
    } else if data_type == 0x0009 {
        Some(DcfValue::Bytes(utf8_of(v)))
    } else if data_type == 0x000A || data_type == 0x000F {
        match strip_hex_mark(v) {
            Some(hex) => match parse_hex_pairs(hex) {
                Some(b) => Some(DcfValue::Bytes(b)),
                None => None,
            },
            None => Some(DcfValue::Bytes(utf8_of(v))),
        }
    } else if data_type == 0x0011 {
        match strip_hex_mark(v) {
            Some(hex) => match parse_number(hex, 16, u64::MAX) {
                Some(n) => Some(DcfValue::Bytes(to_low_bytes(n, 8))),
                None => None,
            },
            None => Some(DcfValue::Real64(string_of(v))),
        }
    } else if data_type == 0x0015 || data_type == 0x001B {
        serialize_int(v, 8)
    } else {
        None
    }
}

// ---- Entries ----

/// What a section configures.
#[verifier::ext_equal]
pub struct ItemView {
    pub index: u16,
    pub subindex: u8,
    pub value: ValueView,
    pub name: Seq<char>,
}

/// The value that a section configures: `ParameterValue` in a DCF, else
/// `DefaultValue`. Empty values and those that depend on the node ID are none.
pub open spec fn configured_text(props: Seq<PropView>) -> Option<Seq<char>> {
    let text = match prop(props, "ParameterValue"@) {
        Some(v) => Some(v),
        None => prop(props, "DefaultValue"@),
    };
    match text {
        Some(v) => {
            let t = trimmed(v);
            if t.len() == 0 || contains(t, "$NODEID"@) || contains(t, "$nodeid"@) {
                None
            } else {
                Some(t)
            }
        },
        None => None,
    }
}

/// What a section configures, if anything: PDO parameters and the numbers of
/// entries of records are left to the stack.
pub open spec fn item_of(section: SectionView) -> Option<ItemView> {
    let props = section.props;
    match (object_of(section.name), int_prop(props, "DataType"@), configured_text(props)) {
        (Some((index, sub)), Some(data_type), Some(text)) if !in_pdo_range(index) && sub != Some(
            0u8,
        ) => match value_of(text, (data_type % 0x1_0000) as u16) {
            Some(value) => Some(
                ItemView {
                    index,
                    subindex: match sub {
                        Some(s) => s,
                        None => 0,
                    },
                    value,
                    name: match prop(props, "ParameterName"@) {
                        Some(n) => n,
                        None => Seq::empty(),
                    },
                },
            ),
            None => None,
        },
        _ => None,
    }
}

/// What sections configure, in order.
pub open spec fn items_of(sections: Seq<SectionView>) -> Seq<ItemView>
    decreases sections.len(),
{
    if sections.len() == 0 {
        Seq::empty()
    } else {
        match item_of(sections.last()) {
            Some(item) => items_of(sections.drop_last()).push(item),
            None => items_of(sections.drop_last()),
        }
    }
}

/// A single configured OD entry from a DCF file.
#[derive(Debug, Clone)]
pub struct DcfEntry {
    pub index: u16,
    pub subindex: u8,
    pub data: Vec<u8>,
    pub name: String,
}

/// What an entry says.
#[verifier::ext_equal]
pub struct EntryView {
    pub index: u16,
    pub subindex: u8,
    pub data: Seq<u8>,
    pub name: Seq<char>,
}

impl View for DcfEntry {
    type V = EntryView;

    open spec fn view(&self) -> EntryView {
        EntryView {
            index: self.index,
            subindex: self.subindex,
            data: self.data@,
            name: self.name@,
        }
    }
}

/// A configured entry whose value is a real number in decimal notation.
#[derive(Debug, Clone)]
pub struct DcfReal {
    pub index: u16,
    pub subindex: u8,
    /// The number.
    pub text: String,
    /// Whether it is stored in 64 bits, else in 32.
    pub wide: bool,
    pub name: String,
    /// How many of the other entries stand before it.
    pub at: usize,
}

/// What such an entry says.
#[verifier::ext_equal]
pub struct RealView {
    pub index: u16,
    pub subindex: u8,
    pub text: Seq<char>,
    pub wide: bool,
    pub name: Seq<char>,
    pub at: nat,
}

impl View for DcfReal {
    type V = RealView;

    open spec fn view(&self) -> RealView {
        RealView {
            index: self.index,
            subindex: self.subindex,
            text: self.text@,
            wide: self.wide,
            name: self.name@,
            at: self.at as nat,
        }
    }
}

/// What entries say, one by one.
pub open spec fn entry_views(entries: Seq<DcfEntry>) -> Seq<EntryView> {
    entries.map_values(|e: DcfEntry| e@)
}

/// What real entries say, one by one.
pub open spec fn real_views(reals: Seq<DcfReal>) -> Seq<RealView> {
    reals.map_values(|e: DcfReal| e@)
}

/// The items whose bytes are known.
pub open spec fn byte_entries(items: Seq<ItemView>) -> Seq<EntryView>
    decreases items.len(),
{
    if items.len() == 0 {
        Seq::empty()
    } else {
        let i = items.last();
        match i.value {
            ValueView::Bytes(data) => byte_entries(items.drop_last()).push(
                EntryView { index: i.index, subindex: i.subindex, data, name: i.name },
            ),
            _ => byte_entries(items.drop_last()),
        }
    }
}

/// The items that are real numbers in decimal notation, and their places among
/// the others.
pub open spec fn real_entries(items: Seq<ItemView>) -> Seq<RealView>
    decreases items.len(),
{
    if items.len() == 0 {
        Seq::empty()
    } else {
        let i = items.last();
        let front = real_entries(items.drop_last());
        let at = byte_entries(items.drop_last()).len();
        match i.value {
            ValueView::Bytes(_) => front,
            ValueView::Real32(text) => front.push(
                RealView {
                    index: i.index,
                    subindex: i.subindex,
                    text,
                    wide: false,
                    name: i.name,
                    at,
                },
            ),
            ValueView::Real64(text) => front.push(
                RealView {
                    index: i.index,
                    subindex: i.subindex,
                    text,
                    wide: true,
                    name: i.name,
                    at,
                },
            ),
        }
    }
}

/// Parsed DCF/EDS configuration.
#[derive(Debug, Clone)]
pub struct Dcf {
    /// Node ID from [DeviceComissioning], if present.
    pub node_id: Option<u8>,
    /// Baud rate index from [DeviceComissioning], if present.
    pub baud_rate: Option<u32>,
    /// Configured entries (index, subindex, serialized value).
    pub entries: Vec<DcfEntry>,
    /// Configured entries whose value is a real number in decimal notation.
    pub reals: Vec<DcfReal>,
}

/// Errors from DCF parsing or application.
#[derive(Debug)]
pub enum DcfError {
    /// Failed to parse a value in the DCF.
    ParseError(String),
    /// OD write failed for an entry.
    OdError { index: u16, subindex: u8, error: OdError },
}

/// The name of a dictionary error.
pub open spec fn error_name(e: OdError) -> Seq<char> {
    match e {
        OdError::NotFound => "NotFound"@,
        OdError::ReadOnly => "ReadOnly"@,
        OdError::WriteOnly => "WriteOnly"@,
        OdError::DataTypeMismatch => "DataTypeMismatch"@,
        OdError::ValueTooLong => "ValueTooLong"@,
        OdError::ValueRange => "ValueRange"@,
        OdError::HardwareError => "HardwareError"@,
    }
}

impl DcfError {
    /// The error in words.
    pub fn message(&self) -> (r: String)
        ensures
            match self {
                DcfError::ParseError(msg) => r@ == "DCF parse error: "@ + msg@,
                DcfError::OdError { index, subindex, error } => r@ == "OD write failed at 0x"@
                    + crate::text::zero_filled(crate::text::hex(*index as nat), 4) + ":"@
                    + crate::text::decimal(*subindex as nat) + ": "@ + error_name(*error),
            },
    {
        let mut out: Vec<char> = Vec::new();
        match self {
            DcfError::ParseError(msg) => {
                append_str(&mut out, "DCF parse error: ");
                append_str(&mut out, msg.as_str());
                assert(out@ =~= "DCF parse error: "@ + msg@);
            },
            DcfError::OdError { index, subindex, error } => {
                append_str(&mut out, "OD write failed at 0x");
                append_hex_filled(&mut out, *index as u64, 4);
                append_str(&mut out, ":");
                append_decimal(&mut out, *subindex as u64);
                append_str(&mut out, ": ");
                let name = match error {
                    OdError::NotFound => "NotFound",
                    OdError::ReadOnly => "ReadOnly",
                    OdError::WriteOnly => "WriteOnly",
                    OdError::DataTypeMismatch => "DataTypeMismatch",
                    OdError::ValueTooLong => "ValueTooLong",
                    OdError::ValueRange => "ValueRange",
                    OdError::HardwareError => "HardwareError",
                };
                append_str(&mut out, name);
                assert(out@ =~= "OD write failed at 0x"@ + crate::text::zero_filled(
                    crate::text::hex(*index as nat),
                    4,
                ) + ":"@ + crate::text::decimal(*subindex as nat) + ": "@ + error_name(*error));
            },
        }
        string_of(out.as_slice())
    }
}

/// A dictionary after entries were written to it, and the number of writes
/// that succeeded.
pub open spec fn applied<OD: OdContents>(od: OD, entries: Seq<EntryView>) -> (OD, int)
    decreases entries.len(),
{
    if entries.len() == 0 {
        (od, 0)
    } else {
        let (before, count) = applied(od, entries.drop_last());
        let e = entries.last();
        (
            before.after_write(e.index, e.subindex, e.data),
            if before.write_result(e.index, e.subindex, e.data) is Ok {
                count + 1
            } else {
                count
            },
        )
    }
}

/// The entry that a section configures.
fn section_item(section: &Section) -> (r: Option<(u16, u8, DcfValue, String)>)
    ensures
        match r {
            Some(i) => item_of(section@) == Some(
                ItemView { index: i.0, subindex: i.1, value: i.2@, name: i.3@ },
            ),
            None => item_of(section@) is None,
        },
{
    let (index, sub) = match parse_section_index(section.name.as_slice()) {
        Some(o) => o,
        None => {
            return None;
        },
    };
    if is_pdo_index(index) || sub == Some(0u8) {
        return None;
    }
    let data_type: u16 = match get_int_prop(&section.props, "DataType") {
        Some(v) => (v % 0x1_0000) as u16,
        None => {
            return None;
        },
    };
    let text = match get_prop(&section.props, "ParameterValue") {
        Some(v) => v,
        None => match get_prop(&section.props, "DefaultValue") {
            Some(v) => v,
            None => {
                return None;
            },
        },
    };
    let t = trim(text.as_slice());
    if t.len() == 0 || contains_text(t, "$NODEID") || contains_text(t, "$nodeid") {
        return None;
    }
    match serialize_chars(t, data_type) {
        Some(value) => {
            let name = match get_prop(&section.props, "ParameterName") {
                Some(n) => string_of(n.as_slice()),
                None => String::new(),
            };
            let subindex: u8 = match sub {
                Some(s) => s,
                None => 0,
            };
            Some((index, subindex, value, name))
        },
        None => None,
    }
}

/// The node ID that a file commissions a device with, if it says one.
pub open spec fn commissioned_node(sections: Seq<SectionView>) -> Option<u8> {
    match section_props(sections, "DeviceComissioning"@) {
        Some(props) => match int_prop(props, "NodeID"@) {
            Some(n) => Some((n % 0x100) as u8),
            None => None,
        },
        None => None,
    }
}

/// The baud rate that a file commissions a device with, if it says one.
pub open spec fn commissioned_rate(sections: Seq<SectionView>) -> Option<u32> {
    match section_props(sections, "DeviceComissioning"@) {
        Some(props) => match int_prop(props, "BaudRate"@) {
            Some(n) => Some((n % 0x1_0000_0000) as u32),
            None => None,
        },
        None => None,
    }
}

impl Dcf {
    /// Parse a DCF or EDS file content.
    ///
    /// For DCF files, uses `ParameterValue` for configured values.
    /// For EDS files, falls back to `DefaultValue`.
    pub fn parse(content: &str) -> (r: Result<Self, DcfError>)
        ensures
            r matches Ok(dcf) && ({
                let sections = sections_of(content@);
                let items = items_of(sections);
                &&& entry_views(dcf.entries@) == byte_entries(items)
                &&& real_views(dcf.reals@) == real_entries(items)
                &&& dcf.node_id == commissioned_node(sections)
                &&& dcf.baud_rate == commissioned_rate(sections)
            }),
    {
        let chars = chars_of(content);
        let sections = parse_ini_sections(chars.as_slice());
        let ghost all = section_views(sections@);
        let mut node_id: Option<u8> = None;
        let mut baud_rate: Option<u32> = None;
        let name = chars_of("DeviceComissioning");
        if let Some(s) = find_section(&sections, name.as_slice()) {
            if let Some(n) = get_int_prop(&s.props, "NodeID") {
                node_id = Some((n % 0x100) as u8);
            }
            if let Some(n) = get_int_prop(&s.props, "BaudRate") {
                baud_rate = Some((n % 0x1_0000_0000) as u32);
            }
        }
        let mut entries: Vec<DcfEntry> = Vec::new();
        let mut reals: Vec<DcfReal> = Vec::new();
        let mut i: usize = 0;
        assert(all.take(0) =~= Seq::<SectionView>::empty());
        assert(entry_views(entries@) =~= Seq::<EntryView>::empty());
        assert(real_views(reals@) =~= Seq::<RealView>::empty());
        while i < sections.len()
            invariant
                i <= sections@.len(),
                all == section_views(sections@),
                entry_views(entries@) == byte_entries(items_of(all.take(i as int))),
                real_views(reals@) == real_entries(items_of(all.take(i as int))),
            decreases sections@.len() - i,
        {
            assert(all.take(i + 1).drop_last() =~= all.take(i as int));
            assert(all[i as int] == sections@[i as int]@);
            let ghost items = items_of(all.take(i as int));
            let ghost before = entries@;
            let ghost reals_before = reals@;
            let at: usize = entries.len();
            assert(at == byte_entries(items).len());
            if let Some((index, subindex, value, name)) = section_item(&sections[i]) {
                let ghost item = ItemView { index, subindex, value: value@, name: name@ };
                assert(items.push(item).drop_last() =~= items);
                match value {
                    DcfValue::Bytes(data) => {
                        let e = DcfEntry { index, subindex, data, name };
                        entries.push(e);
                        assert(entry_views(entries@) =~= entry_views(before).push(e@));
                    },
                    DcfValue::Real32(text) => {
                        let e = DcfReal { index, subindex, text, wide: false, name, at };
                        reals.push(e);
                        assert(real_views(reals@) =~= real_views(reals_before).push(e@));
                    },
                    DcfValue::Real64(text) => {
                        let e = DcfReal { index, subindex, text, wide: true, name, at };
                        reals.push(e);
                        assert(real_views(reals@) =~= real_views(reals_before).push(e@));
                    },
                }
            }
            i += 1;
        }
        assert(all.take(i as int) =~= all);
        Ok(Dcf { node_id, baud_rate, entries, reals })
    }

    /// Apply configured values to a local ObjectDictionary.
    ///
    /// Skips entries that fail to write (e.g. read-only). Returns the count of
    /// entries successfully applied.
    pub fn apply<OD: ObjectDictionary>(&self, od: &mut OD) -> (count: usize)
        ensures
            final(od).contents() == applied(old(od).contents(), entry_views(self.entries@)).0,
            count == applied(old(od).contents(), entry_views(self.entries@)).1,
    {
        let ghost all = entry_views(self.entries@);
        let mut count: usize = 0;
        let mut i: usize = 0;
        assert(all.take(0) =~= Seq::<EntryView>::empty());
        while i < self.entries.len()
            invariant
                i <= self.entries@.len(),
                count <= i,
                all == entry_views(self.entries@),
                od.contents() == applied(old(od).contents(), all.take(i as int)).0,
                count == applied(old(od).contents(), all.take(i as int)).1,
            decreases self.entries@.len() - i,
        {
            assert(all.take(i + 1).drop_last() =~= all.take(i as int));
            let e = &self.entries[i];
            assert(all[i as int] == e@);
            if od.write(e.index, e.subindex, e.data.as_slice()).is_ok() {
                count += 1;
            }
            i += 1;
        }
        assert(all.take(i as int) =~= all);
        count
    }

    /// Apply configured values to a local ObjectDictionary, failing on first error.
    pub fn apply_strict<OD: ObjectDictionary>(&self, od: &mut OD) -> (r: Result<usize, DcfError>)
        ensures
            ({
                let all = entry_views(self.entries@);
                match r {
                    Ok(count) => {
                        &&& count == all.len()
                        &&& applied(old(od).contents(), all) == (final(od).contents(), all.len() as int)
                    },
                    Err(e) => exists|n: int|
                        {
                            &&& 0 <= n < all.len()
                            &&& #[trigger] applied(old(od).contents(), all.take(n)).1 == n
                            &&& first_failure(applied(old(od).contents(), all.take(n)).0, all[n], e)
                            &&& final(od).contents() == applied(old(od).contents(), all.take(n + 1)).0
                        },
                }
            }),
    {
        let ghost all = entry_views(self.entries@);
        let mut i: usize = 0;
        assert(all.take(0) =~= Seq::<EntryView>::empty());
        while i < self.entries.len()
            invariant
                i <= self.entries@.len(),
                all == entry_views(self.entries@),
                applied(old(od).contents(), all.take(i as int)) == (od.contents(), i as int),
            decreases self.entries@.len() - i,
        {
            assert(all.take(i + 1).drop_last() =~= all.take(i as int));
            let e = &self.entries[i];
            assert(all[i as int] == e@);
            let ghost here = od.contents();
            match od.write(e.index, e.subindex, e.data.as_slice()) {
                Ok(()) => {},
                Err(error) => {
                    let failure = DcfError::OdError { index: e.index, subindex: e.subindex, error };
                    assert(applied(old(od).contents(), all.take(i as int)).1 == i);
                    assert(first_failure(here, all[i as int], failure));
                    return Err(failure);
                },
            }
            i += 1;
        }
        assert(all.take(i as int) =~= all);
        Ok(self.entries.len())
    }
}

/// An error reports that an entry cannot be written to a dictionary.
pub open spec fn first_failure<OD: OdContents>(od: OD, entry: EntryView, e: DcfError) -> bool {
    e matches DcfError::OdError { index, subindex, error } && index == entry.index && subindex
        == entry.subindex && od.write_result(entry.index, entry.subindex, entry.data) == Err::<
        (),
        OdError,
    >(error)
}

// ---- Real numbers ----

/// The entry of a real number with the given bits.
pub open spec fn real_entry(r: RealView, bits: u64) -> EntryView {
    EntryView {
        index: r.index,
        subindex: r.subindex,
        data: low_bytes(
            bits as int,
            if r.wide {
                8
            } else {
                4
            },
        ),
        name: r.name,
    }
}

/// Entries after real numbers were inserted at their places. A real without
/// bits was no number, and is left out.
pub open spec fn merged(entries: Seq<EntryView>, reals: Seq<RealView>, bits: Seq<Option<u64>>) -> Seq<
    EntryView,
>
    decreases reals.len(),
{
    if reals.len() == 0 {
        entries
    } else {
        let r = reals.last();
        let more = match bits[reals.len() - 1] {
            Some(b) if r.at <= entries.len() => entries.insert(r.at as int, real_entry(r, b)),
            _ => entries,
        };
        merged(more, reals.drop_last(), bits)
    }
}

/// The entries that items stand for, given the bits of the real numbers.
pub open spec fn resolved(items: Seq<ItemView>, bits: Seq<Option<u64>>) -> Seq<EntryView>
    decreases items.len(),
{
    if items.len() == 0 {
        Seq::empty()
    } else {
        let front = resolved(items.drop_last(), bits);
        let i = items.last();
        match i.value {
            ValueView::Bytes(data) => front.push(
                EntryView { index: i.index, subindex: i.subindex, data, name: i.name },
            ),
            _ => match bits[real_entries(items).len() - 1] {
                Some(b) => front.push(real_entry(real_entries(items).last(), b)),
                None => front,
            },
        }
    }
}

proof fn lemma_reals_stand_among_entries(items: Seq<ItemView>, k: int)
    requires
        0 <= k < real_entries(items).len(),
    ensures
        real_entries(items)[k].at <= byte_entries(items).len(),
    decreases items.len(),
{
    let front = items.drop_last();
    if items.len() > 0 && k < real_entries(front).len() {
        lemma_reals_stand_among_entries(front, k);
    }
}

proof fn lemma_merged_push(
    entries: Seq<EntryView>,
    x: EntryView,
    reals: Seq<RealView>,
    bits: Seq<Option<u64>>,
)
    requires
        forall|k: int| 0 <= k < reals.len() ==> (#[trigger] reals[k]).at <= entries.len(),
    ensures
        merged(entries.push(x), reals, bits) == merged(entries, reals, bits).push(x),
    decreases reals.len(),
{
    if reals.len() > 0 {
        let r = reals.last();
        let rest = reals.drop_last();
        assert(r.at <= entries.len());
        assert forall|k: int| 0 <= k < rest.len() implies (#[trigger] rest[k]).at
            <= entries.len() by {
            assert(reals[k].at <= entries.len());
        }
        match bits[reals.len() - 1] {
            Some(b) => {
                let y = real_entry(r, b);
                assert(entries.push(x).insert(r.at as int, y) =~= entries.insert(
                    r.at as int,
                    y,
                ).push(x));
                lemma_merged_push(entries.insert(r.at as int, y), x, rest, bits);
            },
            None => {
                lemma_merged_push(entries, x, rest, bits);
            },
        }
    }
}

/// Inserting the real numbers that were listed gives the entries of the file
/// in the order of the file.
pub proof fn lemma_reals_go_in_place(items: Seq<ItemView>, bits: Seq<Option<u64>>)
    ensures
        merged(byte_entries(items), real_entries(items), bits) == resolved(items, bits),
    decreases items.len(),
{
    if items.len() > 0 {
        let front = items.drop_last();
        lemma_reals_go_in_place(front, bits);
        let entries = byte_entries(front);
        let reals = real_entries(front);
        assert forall|k: int| 0 <= k < reals.len() implies (#[trigger] reals[k]).at
            <= entries.len() by {
            lemma_reals_stand_among_entries(front, k);
        }
        match items.last().value {
            ValueView::Bytes(data) => {
                lemma_merged_push(entries, byte_entries(items).last(), reals, bits);
            },
            _ => {
                let r = real_entries(items).last();
                assert(real_entries(items).drop_last() =~= reals);
                if let Some(b) = bits[real_entries(items).len() - 1] {
                    let y = real_entry(r, b);
                    assert(entries.insert(r.at as int, y) =~= entries.push(y));
                    lemma_merged_push(entries, y, reals, bits);
                }
            },
        }
    }
}

impl Dcf {
    /// Insert the entries whose values are real numbers in decimal notation,
    /// given the bits of each, or `None` where the text is no number.
    pub fn insert_reals(&mut self, bits: &Vec<Option<u64>>)
        requires
            bits@.len() == old(self).reals@.len(),
        ensures
            entry_views(final(self).entries@) == merged(
                entry_views(old(self).entries@),
                real_views(old(self).reals@),
                bits@,
            ),
            final(self).reals@.len() == 0,
            final(self).node_id == old(self).node_id,
            final(self).baud_rate == old(self).baud_rate,
    {
        let ghost goal = merged(entry_views(self.entries@), real_views(self.reals@), bits@);
        while self.reals.len() > 0
            invariant
                self.reals@.len() <= bits@.len(),
                self.node_id == old(self).node_id,
                self.baud_rate == old(self).baud_rate,
                goal == merged(entry_views(self.entries@), real_views(self.reals@), bits@),
            decreases self.reals@.len(),
        {
            let k: usize = self.reals.len() - 1;
            let ghost reals = self.reals@;
            let ghost entries = self.entries@;
            if let Some(r) = self.reals.pop() {
                assert(real_views(reals).drop_last() =~= real_views(self.reals@));
                assert(real_views(reals).last() == r@);
                if let Some(b) = bits[k] {
                    if r.at <= self.entries.len() {
                        let e = DcfEntry {
                            index: r.index,
                            subindex: r.subindex,
                            data: to_low_bytes(
                                b,
                                if r.wide {
                                    8
                                } else {
                                    4
                                },
                            ),
                            name: r.name,
                        };
                        self.entries.insert(r.at, e);
                        assert(entry_views(self.entries@) =~= entry_views(entries).insert(
                            r.at as int,
                            e@,
                        ));
                    }
                }
            }
        }
    }
}

// ---- Configuring a remote node ----

/// How far a remote node is configured: the entries that were offered to it,
/// and those of them that it took.
#[verifier::ext_equal]
pub struct RemoteView {
    pub offered: nat,
    pub written: nat,
}

impl RemoteView {
    /// The progress after the node took the next entry or refused it. A refused
    /// entry is skipped.
    pub open spec fn answered(self, accepted: bool) -> RemoteView {
        RemoteView {
            offered: self.offered + 1,
            written: if accepted {
                self.written + 1
            } else {
                self.written
            },
        }
    }

    /// The progress after several answers.
    pub open spec fn answers(self, accepted: Seq<bool>) -> RemoteView
        decreases accepted.len(),
    {
        if accepted.len() == 0 {
            self
        } else {
            self.answers(accepted.drop_last()).answered(accepted.last())
        }
    }
}

/// Writes configured values to a remote node, one after another: write
/// `pending()` via SDO and report whether the node took it, until nothing is
/// pending. Entries that fail are skipped.
#[derive(Clone, Copy, Debug)]
pub struct RemoteConfig {
    offered: usize,
    written: usize,
}

impl View for RemoteConfig {
    type V = RemoteView;

    closed spec fn view(&self) -> RemoteView {
        RemoteView { offered: self.offered as nat, written: self.written as nat }
    }
}

impl RemoteConfig {
    #[verifier::type_invariant]
    spec fn consistent(self) -> bool {
        self.written <= self.offered
    }

    pub fn new() -> (r: Self)
        ensures
            r@ == (RemoteView { offered: 0, written: 0 }),
    {
        RemoteConfig { offered: 0, written: 0 }
    }

    /// The entry to write next.
    pub fn pending<'a>(&self, dcf: &'a Dcf) -> (r: Option<&'a DcfEntry>)
        ensures
            r == (if self@.offered < dcf.entries@.len() {
                Some(&dcf.entries@[self@.offered as int])
            } else {
                None
            }),
    {
        if self.offered < dcf.entries.len() {
            Some(&dcf.entries[self.offered])
        } else {
            None
        }
    }

    /// Report whether the node took the pending entry.
    pub fn answered(&mut self, accepted: bool)
        requires
            old(self)@.offered < usize::MAX,
        ensures
            final(self)@ == old(self)@.answered(accepted),
    {
        proof {
            use_type_invariant(&*self);
        }
        let offered: usize = self.offered + 1;
        let written: usize = if accepted {
            self.written + 1
        } else {
            self.written
        };
        *self = RemoteConfig { offered, written };
    }

    /// The number of entries successfully written.
    pub fn written(&self) -> (r: usize)
        ensures
            r == self@.written,
    {
        self.written
    }
}

/// Every entry is offered once, in the order of the file, whatever became of
/// those before it; as many are counted as were taken.
pub proof fn lemma_remote_config(accepted: Seq<bool>)
    ensures
        (RemoteView { offered: 0, written: 0 }).answers(accepted).offered == accepted.len(),
        (RemoteView { offered: 0, written: 0 }).answers(accepted).written == accepted.filter(
            |a: bool| a,
        ).len(),
    decreases accepted.len(),
{
    reveal(Seq::filter);
    if accepted.len() > 0 {
        lemma_remote_config(accepted.drop_last());
    }
}

} // verus!
