//! From EDS files to definitions.

use crate::datatypes::DataType;
use crate::dictionary::definition::{
    entry_views, field_views, is_variable_length, is_variable_length_type, pdo_views, sub_views,
    text_view, AccessKind, ArrayDef, ArrayView, CobIdSpec, DefinitionView, EntryKind, FieldView,
    KindView, MappingKind, OdDefinition, OdEntry, OdEntryView, PdoDef, PdoDefView, PdoDirection,
    PdoField, SubEntry, SubView, VarDef, VarView, Visibility, VisibilityView,
};
use crate::dictionary::eds_export::{insert_sorted, sorted};
use crate::dictionary::names::{sanitize_name, sanitized};
use crate::ini::{
    find_section, get_int_prop, get_prop, in_pdo_range, int_prop, is_pdo_index, lower_text,
    lowered, object_of, parse_ini_sections, parse_section_index, prop, prop_views, section_props,
    section_views, sections_of, Prop, PropView, Section, SectionView,
};
use crate::text::{
    append_chars, append_hex, append_hex_filled, append_str, chars_of, contains, contains_text,
    find, find_text, has_hex_mark, hex, int_value, is_text, number, parse_int, parse_number,
    same_but_case, same_ignoring_case, string_of, strip_hex_mark, trim, trimmed, unquote, unquoted,
    zero_filled,
};
use vstd::prelude::*;
use vstd::slice::slice_subrange;

verus! {

// ---- Expressions ----

/// The text of the tokens of the expression that a text parses to with `syn`,
/// as `quote` prints them, if it is an expression.
pub uninterp spec fn printed(text: Seq<char>) -> Option<Seq<char>>;

/// Calls `syn::parse_str` for an expression, and prints the tokens that
/// `quote::ToTokens` makes of it. The result depends on the text alone, as
/// `proc_macro2` without its `proc-macro` feature splits and prints text by
/// itself.
#[verifier::external_body]
fn parse_and_print(text: &str) -> (r: Option<String>)
    ensures
        text_view(r) == printed(text@),
{
    let expr = syn::parse_str::<syn::Expr>(text).ok()?;
    Some(quote::ToTokens::to_token_stream(&expr).to_string())
}

/// Print an expression.
pub fn print_expr(text: &[char]) -> (r: Option<String>)
    ensures
        text_view(r) == printed(text@),
{
    let s = string_of(text);
    parse_and_print(s.as_str())
}

// ---- Values ----

/// The name of the type with a code.
pub open spec fn type_named(code: u16) -> Option<Seq<char>> {
    if code == 0x0001 {
        Some("bool"@)
    } else if code == 0x0002 {
        Some("i8"@)
    } else if code == 0x0003 {
        Some("i16"@)
    } else if code == 0x0004 {
        Some("i32"@)
    } else if code == 0x0005 {
        Some("u8"@)
    } else if code == 0x0006 {
        Some("u16"@)
    } else if code == 0x0007 {
        Some("u32"@)
    } else if code == 0x0008 {
        Some("f32"@)
    } else if code == 0x0009 {
        Some("visible_string"@)
    } else if code == 0x000A {
        Some("octet_string"@)
    } else if code == 0x000F {
        Some("domain"@)
    } else if code == 0x0010 {
        Some("i24"@)
    } else if code == 0x0011 {
        Some("f64"@)
    } else if code == 0x0015 {
        Some("i64"@)
    } else if code == 0x0016 {
        Some("u24"@)
    } else if code == 0x001B {
        Some("u64"@)
    } else {
        None
    }
}

fn datatype_to_rust(code: u16) -> (r: Option<&'static str>)
    ensures
        match r {
            Some(n) => type_named(code) == Some(n@),
            None => type_named(code) is None,
        },
{
    if code == 0x0001 {
        Some("bool")
    } else if code == 0x0002 {
        Some("i8")
    } else if code == 0x0003 {
        Some("i16")
    } else if code == 0x0004 {
        Some("i32")
    } else if code == 0x0005 {
        Some("u8")
    } else if code == 0x0006 {
        Some("u16")
    } else if code == 0x0007 {
        Some("u32")
    } else if code == 0x0008 {
        Some("f32")
    } else if code == 0x0009 {
        Some("visible_string")
    } else if code == 0x000A {
        Some("octet_string")
    } else if code == 0x000F {
        Some("domain")
    } else if code == 0x0010 {
        Some("i24")
    } else if code == 0x0011 {
        Some("f64")
    } else if code == 0x0015 {
        Some("i64")
    } else if code == 0x0016 {
        Some("u24")
    } else if code == 0x001B {
        Some("u64")
    } else {
        None
    }
}

/// The text of zero for a type.
pub open spec fn zero_text(code: u16) -> Seq<char> {
    if code == 0x0008 {
        "0.0f32"@
    } else if code == 0x0011 {
        "0.0f64"@
    } else {
        "0"@
    }
}

/// A default of a real type: a hexadecimal number is its bit pattern.
pub open spec fn real_text(v: Seq<char>, double: bool) -> Seq<char> {
    let max: int = if double {
        0xFFFF_FFFF_FFFF_FFFF
    } else {
        0xFFFF_FFFF
    };
    if has_hex_mark(v) && number(v.skip(2), 16, max) is Some {
        (if double {
            "f64::from_bits(0x"@
        } else {
            "f32::from_bits(0x"@
        }) + v.skip(2) + ")"@
    } else {
        v + (if double {
            "f64"@
        } else {
            "f32"@
        })
    }
}

/// The expression for the default of a fixed-size value. What depends on the
/// node ID is left at zero.
pub open spec fn normalized(value: Seq<char>, code: u16) -> Seq<char> {
    let v = trimmed(value);
    if v.len() == 0 || contains(v, "$NODEID"@) || contains(v, "$nodeid"@) {
        zero_text(code)
    } else if v[0] == '"' && v.last() == '"' {
        v
    } else if code == 0x0008 {
        real_text(v, false)
    } else if code == 0x0011 {
        real_text(v, true)
    } else if has_hex_mark(v) {
        "0x"@ + v.skip(2)
    } else {
        v
    }
}

fn write_real(v: &[char], double: bool) -> (r: Vec<char>)
    ensures
        r@ == real_text(v@, double),
{
    let max: u64 = if double {
        0xFFFF_FFFF_FFFF_FFFF
    } else {
        0xFFFF_FFFF
    };
    if let Some(digits) = strip_hex_mark(v) {
        if parse_number(digits, 16, max).is_some() {
            let mut out = if double {
                chars_of("f64::from_bits(0x")
            } else {
                chars_of("f32::from_bits(0x")
            };
            append_chars(&mut out, digits);
            append_str(&mut out, ")");
            return out;
        }
    }
    let mut out: Vec<char> = Vec::new();
    append_chars(&mut out, v);
    assert(out@ =~= v@);
    if double {
        append_str(&mut out, "f64");
    } else {
        append_str(&mut out, "f32");
    }
    out
}

fn normalize_default(value: &[char], code: u16) -> (r: Vec<char>)
    ensures
        r@ == normalized(value@, code),
{
    let v = trim(value);
    let len: usize = v.len();
    if len == 0 || contains_text(v, "$NODEID") || contains_text(v, "$nodeid") {
        return if code == 0x0008 {
            chars_of("0.0f32")
        } else if code == 0x0011 {
            chars_of("0.0f64")
        } else {
            chars_of("0")
        };
    }
    if v[0] == '"' && v[len - 1] == '"' {
        let mut out: Vec<char> = Vec::new();
        append_chars(&mut out, v);
        assert(out@ =~= v@);
        return out;
    }
    if code == 0x0008 {
        return write_real(v, false);
    }
    if code == 0x0011 {
        return write_real(v, true);
    }
    match strip_hex_mark(v) {
        Some(digits) => {
            let mut out = chars_of("0x");
            append_chars(&mut out, digits);
            out
        },
        None => {
            let mut out: Vec<char> = Vec::new();
            append_chars(&mut out, v);
            assert(out@ =~= v@);
            out
        },
    }
}

/// The default of a variable. A string keeps its default, other variable-length
/// values have none, and what is no expression is zero.
pub open spec fn default_of(text: Seq<char>, code: u16, ty: Seq<char>) -> Option<Seq<char>> {
    if is_variable_length(ty) {
        let s = unquoted(trimmed(text));
        if ty == "visible_string"@ && s.len() > 0 {
            printed("\""@ + s + "\""@)
        } else {
            None
        }
    } else {
        match printed(normalized(text, code)) {
            Some(t) => Some(t),
            None => printed("0"@),
        }
    }
}

fn parse_default(text: &[char], code: u16, ty: &str) -> (r: Option<String>)
    ensures
        text_view(r) == default_of(text@, code, ty@),
{
    if is_variable_length_type(ty) {
        let t = chars_of(ty);
        if !is_text(t.as_slice(), "visible_string") {
            return None;
        }
        let s = unquote(trim(text));
        if s.len() == 0 {
            return None;
        }
        let mut quoted = chars_of("\"");
        append_chars(&mut quoted, s);
        append_str(&mut quoted, "\"");
        print_expr(quoted.as_slice())
    } else {
        let n = normalize_default(text, code);
        match print_expr(n.as_slice()) {
            Some(t) => Some(t),
            None => {
                let zero = chars_of("0");
                print_expr(zero.as_slice())
            },
        }
    }
}

/// The access that a word stands for. The suffixes of `rwr` and `rww` only say
/// how an object can be mapped.
pub open spec fn access_of(word: Seq<char>) -> AccessKind {
    let l = lowered(word);
    if l == "rw"@ || l == "rwr"@ || l == "rww"@ {
        AccessKind::Rw
    } else if l == "wo"@ {
        AccessKind::Wo
    } else {
        AccessKind::Ro
    }
}

fn parse_access(word: &[char]) -> (r: AccessKind)
    ensures
        r == access_of(word@),
{
    let l = lower_text(word);
    let s = l.as_slice();
    if is_text(s, "rw") || is_text(s, "rwr") || is_text(s, "rww") {
        AccessKind::Rw
    } else if is_text(s, "wo") {
        AccessKind::Wo
    } else {
        AccessKind::Ro
    }
}

/// The capacity that is given for an index, if there is one: the last one.
pub open spec fn override_for(overrides: Seq<(u16, usize)>, index: u16, n: int) -> Option<usize>
    decreases n,
{
    if n <= 0 || n > overrides.len() {
        None
    } else if overrides[n - 1].0 == index {
        Some(overrides[n - 1].1)
    } else {
        override_for(overrides, index, n - 1)
    }
}

fn find_override(overrides: &Vec<(u16, usize)>, index: u16) -> (r: Option<usize>)
    ensures
        r == override_for(overrides@, index, overrides@.len() as int),
{
    let mut n: usize = overrides.len();
    while n > 0
        invariant
            n <= overrides@.len(),
            override_for(overrides@, index, overrides@.len() as int) == override_for(
                overrides@,
                index,
                n as int,
            ),
        decreases n,
    {
        if overrides[n - 1].0 == index {
            return Some(overrides[n - 1].1);
        }
        n -= 1;
    }
    None
}

/// The capacity of a variable-length variable: as given, else by its type.
pub open spec fn capacity_of(overrides: Seq<(u16, usize)>, index: u16, ty: Seq<char>) -> Option<
    usize,
> {
    if is_variable_length(ty) {
        match override_for(overrides, index, overrides.len() as int) {
            Some(n) => Some(n),
            None => if ty == "visible_string"@ {
                Some(64usize)
            } else if ty == "octet_string"@ {
                Some(256usize)
            } else {
                Some(512usize)
            },
        }
    } else {
        None
    }
}

fn find_capacity(overrides: &Vec<(u16, usize)>, index: u16, ty: &str) -> (r: Option<usize>)
    ensures
        r == capacity_of(overrides@, index, ty@),
{
    if !is_variable_length_type(ty) {
        return None;
    }
    match find_override(overrides, index) {
        Some(n) => Some(n),
        None => {
            let t = chars_of(ty);
            if is_text(t.as_slice(), "visible_string") {
                Some(64)
            } else if is_text(t.as_slice(), "octet_string") {
                Some(256)
            } else {
                Some(512)
            }
        },
    }
}

/// The variable that a section describes: it needs a name and a known type.
pub open spec fn variable_of(
    index: u16,
    subindex: u8,
    props: Seq<PropView>,
    overrides: Seq<(u16, usize)>,
) -> Option<SubView> {
    match (prop(props, "ParameterName"@), int_prop(props, "DataType"@)) {
        (Some(name), Some(code)) => match type_named((code % 0x1_0000) as u16) {
            Some(ty) => Some(
                SubView {
                    subindex,
                    name: sanitized(name),
                    var: VarView {
                        ty,
                        capacity: capacity_of(overrides, index, ty),
                        default_value: default_of(
                            match prop(props, "DefaultValue"@) {
                                Some(t) => t,
                                None => "0"@,
                            },
                            (code % 0x1_0000) as u16,
                            ty,
                        ),
                        real_bits: None,
                        access: access_of(
                            match prop(props, "AccessType"@) {
                                Some(t) => t,
                                None => "ro"@,
                            },
                        ),
                        pdo_mappable: int_prop(props, "PDOMapping"@) matches Some(v) && v != 0,
                    },
                },
            ),
            None => None,
        },
        _ => None,
    }
}

fn parse_var_entry(
    index: u16,
    subindex: u8,
    props: &Vec<Prop>,
    overrides: &Vec<(u16, usize)>,
) -> (r: Option<SubEntry>)
    ensures
        match r {
            Some(e) => variable_of(index, subindex, prop_views(props@), overrides@) == Some(e@),
            None => variable_of(index, subindex, prop_views(props@), overrides@) is None,
        },
{
    let name = match get_prop(props, "ParameterName") {
        Some(n) => n,
        None => {
            return None;
        },
    };
    let code: u16 = match get_int_prop(props, "DataType") {
        Some(c) => (c % 0x1_0000) as u16,
        None => {
            return None;
        },
    };
    let ty = match datatype_to_rust(code) {
        Some(t) => t,
        None => {
            return None;
        },
    };
    let default_value = match get_prop(props, "DefaultValue") {
        Some(t) => parse_default(t.as_slice(), code, ty),
        None => {
            let zero = chars_of("0");
            parse_default(zero.as_slice(), code, ty)
        },
    };
    let access = match get_prop(props, "AccessType") {
        Some(t) => parse_access(t.as_slice()),
        None => {
            let ro = chars_of("ro");
            parse_access(ro.as_slice())
        },
    };
    let pdo_mappable = match get_int_prop(props, "PDOMapping") {
        Some(v) => v != 0,
        None => false,
    };
    let ident = sanitize_name(name.as_slice());
    Some(
        SubEntry {
            subindex,
            name: string_of(ident.as_slice()),
            var: VarDef {
                ty: ty.to_string(),
                capacity: find_capacity(overrides, index, ty),
                default_value,
                real_bits: None,
                access,
                pdo_mappable,
            },
        },
    )
}

// ---- Addresses ----

/// The objects that sections describe.
pub open spec fn addresses_of(sections: Seq<SectionView>) -> Seq<Option<(u16, Option<u8>)>> {
    sections.map_values(|s: SectionView| object_of(s.name))
}

fn list_addresses(sections: &Vec<Section>) -> (r: Vec<Option<(u16, Option<u8>)>>)
    ensures
        r@ == addresses_of(section_views(sections@)),
{
    let ghost goal = addresses_of(section_views(sections@));
    let mut r: Vec<Option<(u16, Option<u8>)>> = Vec::new();
    let mut i: usize = 0;
    while i < sections.len()
        invariant
            i <= sections@.len(),
            goal == addresses_of(section_views(sections@)),
            r@ == goal.take(i as int),
        decreases sections@.len() - i,
    {
        assert(section_views(sections@)[i as int] == sections@[i as int]@);
        r.push(parse_section_index(sections[i].name.as_slice()));
        i += 1;
        assert(r@ =~= goal.take(i as int));
    }
    assert(goal.take(i as int) =~= goal);
    r
}

/// The first section from `from` on that describes an object.
pub open spec fn section_for(
    addresses: Seq<Option<(u16, Option<u8>)>>,
    address: (u16, Option<u8>),
    from: int,
) -> Option<int>
    decreases addresses.len() - from,
{
    if from < 0 || from >= addresses.len() {
        None
    } else if addresses[from] == Some(address) {
        Some(from)
    } else {
        section_for(addresses, address, from + 1)
    }
}

fn same_address(a: Option<(u16, Option<u8>)>, index: u16, sub: Option<u8>) -> (r: bool)
    ensures
        r == (a == Some((index, sub))),
{
    match a {
        Some((i, s)) => i == index && match (s, sub) {
            (Some(x), Some(y)) => x == y,
            (None, None) => true,
            _ => false,
        },
        None => false,
    }
}

fn find_address(addresses: &Vec<Option<(u16, Option<u8>)>>, index: u16, sub: Option<u8>) -> (r:
    Option<usize>)
    ensures
        match r {
            Some(i) => i < addresses@.len() && section_for(addresses@, (index, sub), 0) == Some(
                i as int,
            ),
            None => section_for(addresses@, (index, sub), 0) is None,
        },
{
    let mut i: usize = 0;
    while i < addresses.len()
        invariant
            i <= addresses@.len(),
            section_for(addresses@, (index, sub), 0) == section_for(
                addresses@,
                (index, sub),
                i as int,
            ),
        decreases addresses@.len() - i,
    {
        if same_address(addresses[i], index, sub) {
            return Some(i);
        }
        i += 1;
    }
    None
}

/// The first section describes the same object as an earlier one, and that
/// earlier one.
pub open spec fn duplicate(addresses: Seq<Option<(u16, Option<u8>)>>, n: int) -> Option<(int, int)>
    decreases n,
{
    if n <= 0 || n > addresses.len() {
        None
    } else {
        match duplicate(addresses, n - 1) {
            Some(d) => Some(d),
            None => match addresses[n - 1] {
                Some(a) => match section_for(addresses, a, 0) {
                    Some(j) if j < n - 1 => Some((j, n - 1)),
                    _ => None,
                },
                None => None,
            },
        }
    }
}

/// The complaint about two sections for one object.
pub open spec fn duplicate_message(sections: Seq<SectionView>, j: int, i: int) -> Seq<char> {
    let address = object_of(sections[i].name)->0;
    let a = "duplicate EDS object section for OD address 0x"@ + zero_filled(
        hex(address.0 as nat),
        4,
    );
    let b = match address.1 {
        Some(sub) => a + ":"@ + zero_filled(hex(sub as nat), 2),
        None => a,
    };
    b + ": ["@ + sections[j].name + "] and ["@ + sections[i].name + "]"@
}

proof fn lemma_duplicate_prefix(addresses: Seq<Option<(u16, Option<u8>)>>, n: int, m: int)
    requires
        0 <= n <= m <= addresses.len(),
        duplicate(addresses, n) is Some,
    ensures
        duplicate(addresses, m) == duplicate(addresses, n),
    decreases m - n,
{
    if n < m {
        lemma_duplicate_prefix(addresses, n, m - 1);
    }
}

/// Reject a file with two sections for one object.
fn validate_unique_object_sections(
    sections: &Vec<Section>,
    addresses: &Vec<Option<(u16, Option<u8>)>>,
) -> (r: Option<String>)
    requires
        addresses@ == addresses_of(section_views(sections@)),
    ensures
        match duplicate(addresses@, addresses@.len() as int) {
            Some((j, i)) => r matches Some(m) && m@ == duplicate_message(
                section_views(sections@),
                j,
                i,
            ),
            None => r is None,
        },
{
    let ghost views = section_views(sections@);
    let mut i: usize = 0;
    while i < sections.len()
        invariant
            i <= sections@.len(),
            views == section_views(sections@),
            addresses@ == addresses_of(views),
            duplicate(addresses@, i as int) is None,
        decreases sections@.len() - i,
    {
        if let Some((index, sub)) = addresses[i] {
            if let Some(j) = find_address(addresses, index, sub) {
                if j < i {
                    assert(views[i as int] == sections@[i as int]@);
                    assert(views[j as int] == sections@[j as int]@);
                    assert(addresses@[i as int] == object_of(views[i as int].name));
                    proof {
                        lemma_duplicate_prefix(addresses@, i + 1, addresses@.len() as int);
                    }
                    let mut out = chars_of("duplicate EDS object section for OD address 0x");
                    append_hex_filled(&mut out, index as u64, 4);
                    if let Some(s) = sub {
                        append_str(&mut out, ":");
                        append_hex_filled(&mut out, s as u64, 2);
                    }
                    append_str(&mut out, ": [");
                    append_chars(&mut out, sections[j].name.as_slice());
                    append_str(&mut out, "] and [");
                    append_chars(&mut out, sections[i].name.as_slice());
                    append_str(&mut out, "]");
                    return Some(string_of(out.as_slice()));
                }
            }
        }
        i += 1;
    }
    None
}

// ---- Objects ----

/// The type of an object: that of its section, which is VAR if it does not say.
pub open spec fn object_type(sections: Seq<SectionView>, index: u16) -> Option<int> {
    match section_for(addresses_of(sections), (index, None), 0) {
        Some(i) => match int_prop(sections[i].props, "ObjectType"@) {
            Some(t) => Some(t),
            None => Some(7),
        },
        None => None,
    }
}

/// The variable that is at an address.
pub open spec fn variable_at(
    sections: Seq<SectionView>,
    overrides: Seq<(u16, usize)>,
    index: u16,
    sub: Option<u8>,
) -> Option<SubView> {
    match section_for(addresses_of(sections), (index, sub), 0) {
        Some(i) => variable_of(
            index,
            match sub {
                Some(s) => s,
                None => 0,
            },
            sections[i].props,
            overrides,
        ),
        None => None,
    }
}

fn read_variable(
    sections: &Vec<Section>,
    addresses: &Vec<Option<(u16, Option<u8>)>>,
    overrides: &Vec<(u16, usize)>,
    index: u16,
    sub: Option<u8>,
) -> (r: Option<SubEntry>)
    requires
        addresses@ == addresses_of(section_views(sections@)),
    ensures
        match r {
            Some(e) => variable_at(section_views(sections@), overrides@, index, sub) == Some(e@),
            None => variable_at(section_views(sections@), overrides@, index, sub) is None,
        },
{
    match find_address(addresses, index, sub) {
        Some(i) => {
            assert(section_views(sections@)[i as int] == sections@[i as int]@);
            let subindex: u8 = match sub {
                Some(s) => s,
                None => 0,
            };
            parse_var_entry(index, subindex, &sections[i].props, overrides)
        },
        None => None,
    }
}

/// The name of an object: that of its section, else one made of its index.
pub open spec fn object_name(sections: Seq<SectionView>, index: u16) -> Seq<char> {
    let unnamed = "obj_"@ + lowered(zero_filled(hex(index as nat), 4));
    match section_for(addresses_of(sections), (index, None), 0) {
        Some(i) => match prop(sections[i].props, "ParameterName"@) {
            Some(n) => n,
            None => unnamed,
        },
        None => unnamed,
    }
}

fn read_object_name(
    sections: &Vec<Section>,
    addresses: &Vec<Option<(u16, Option<u8>)>>,
    index: u16,
) -> (r: Vec<char>)
    requires
        addresses@ == addresses_of(section_views(sections@)),
    ensures
        r@ == object_name(section_views(sections@), index),
{
    if let Some(i) = find_address(addresses, index, None) {
        assert(section_views(sections@)[i as int] == sections@[i as int]@);
        if let Some(n) = get_prop(&sections[i].props, "ParameterName") {
            let mut out: Vec<char> = Vec::new();
            append_chars(&mut out, n.as_slice());
            assert(out@ =~= n@);
            return out;
        }
    }
    let mut digits: Vec<char> = Vec::new();
    append_hex_filled(&mut digits, index as u64, 4);
    assert(digits@ =~= zero_filled(hex(index as nat), 4));
    let low = lower_text(digits.as_slice());
    let mut out = chars_of("obj_");
    append_chars(&mut out, low.as_slice());
    out
}

/// The members of an object with subindices from 1 up to `n`, in order. Their
/// names are prefixed with that of the object.
pub open spec fn members(
    sections: Seq<SectionView>,
    overrides: Seq<(u16, usize)>,
    index: u16,
    n: int,
) -> Seq<SubView>
    decreases n,
{
    if n <= 0 {
        Seq::empty()
    } else {
        let front = members(sections, overrides, index, n - 1);
        match variable_at(sections, overrides, index, Some(n as u8)) {
            Some(v) => front.push(
                SubView {
                    name: sanitized(object_name(sections, index)) + "_"@ + v.name,
                    ..v
                },
            ),
            None => front,
        }
    }
}

fn read_members(
    sections: &Vec<Section>,
    addresses: &Vec<Option<(u16, Option<u8>)>>,
    overrides: &Vec<(u16, usize)>,
    index: u16,
    prefix: &Vec<char>,
) -> (r: Vec<SubEntry>)
    requires
        addresses@ == addresses_of(section_views(sections@)),
        prefix@ == sanitized(object_name(section_views(sections@), index)),
    ensures
        sub_views(r@) == members(section_views(sections@), overrides@, index, 255),
{
    let ghost views = section_views(sections@);
    let mut out: Vec<SubEntry> = Vec::new();
    let mut n: u8 = 0;
    assert(sub_views(out@) =~= Seq::<SubView>::empty());
    while n < 255
        invariant
            views == section_views(sections@),
            addresses@ == addresses_of(views),
            prefix@ == sanitized(object_name(views, index)),
            sub_views(out@) == members(views, overrides@, index, n as int),
        decreases 255 - n,
    {
        let ghost before = out@;
        n += 1;
        if let Some(e) = read_variable(sections, addresses, overrides, index, Some(n)) {
            let mut name: Vec<char> = Vec::new();
            append_chars(&mut name, prefix.as_slice());
            assert(name@ =~= prefix@);
            append_str(&mut name, "_");
            append_str(&mut name, e.name.as_str());
            let member = SubEntry {
                subindex: e.subindex,
                name: string_of(name.as_slice()),
                var: e.var,
            };
            out.push(member);
            assert(sub_views(out@) =~= sub_views(before).push(member@));
        }
    }
    out
}

/// The text of a default is one for zero.
pub open spec fn is_zero(text: Seq<char>) -> bool {
    ||| text == "0"@
    ||| text == "0x00"@
    ||| text == "0i32"@
    ||| text == "0u32"@
    ||| text == "0.0f32"@
    ||| text == "0.0f64"@
    ||| text == "false"@
}

/// The members of an object all are zero by default.
pub open spec fn all_zero(subs: Seq<SubView>) -> bool {
    forall|i: int|
        0 <= i < subs.len() ==> match (#[trigger] subs[i]).var.default_value {
            Some(t) => is_zero(t),
            None => true,
        }
}

fn check_zero(subs: &Vec<SubEntry>) -> (r: bool)
    ensures
        r == all_zero(sub_views(subs@)),
{
    let ghost views = sub_views(subs@);
    let mut i: usize = 0;
    while i < subs.len()
        invariant
            i <= subs@.len(),
            views == sub_views(subs@),
            forall|j: int|
                0 <= j < i ==> match (#[trigger] views[j]).var.default_value {
                    Some(t) => is_zero(t),
                    None => true,
                },
        decreases subs@.len() - i,
    {
        assert(views[i as int] == subs@[i as int]@);
        if let Some(t) = &subs[i].var.default_value {
            let c = chars_of(t.as_str());
            let s = c.as_slice();
            if !(is_text(s, "0") || is_text(s, "0x00") || is_text(s, "0i32") || is_text(s, "0u32")
                || is_text(s, "0.0f32") || is_text(s, "0.0f64") || is_text(s, "false")) {
                return false;
            }
        }
        i += 1;
    }
    true
}

/// A record or array that members make up. Only arrays of at least four
/// elements that are zero by default are kept as arrays; others are kept as
/// records, for the sake of their defaults.
pub open spec fn compound(
    sections: Seq<SectionView>,
    index: u16,
    subs: Seq<SubView>,
) -> OdEntryView {
    OdEntryView {
        index,
        name: sanitized(object_name(sections, index)),
        kind: if object_type(sections, index) == Some(8int) && subs.len() >= 4 && all_zero(subs) {
            KindView::Array(
                ArrayView {
                    element_type: subs[0].var.ty,
                    count: subs.len() as usize,
                    access: subs[0].var.access,
                    pdo_mappable: subs[0].var.pdo_mappable,
                },
            )
        } else {
            KindView::Record(subs)
        },
    }
}

/// The entries at an index: a variable, and a record or array of its members.
pub open spec fn entries_at(
    sections: Seq<SectionView>,
    overrides: Seq<(u16, usize)>,
    index: u16,
) -> Seq<OdEntryView> {
    let var = if object_type(sections, index) == Some(7int) {
        match variable_at(sections, overrides, index, None) {
            Some(v) => seq![OdEntryView { index, name: v.name, kind: KindView::Var(v.var) }],
            None => Seq::empty(),
        }
    } else {
        Seq::empty()
    };
    let subs = members(sections, overrides, index, 255);
    if subs.len() > 0 {
        var.push(compound(sections, index, subs))
    } else {
        var
    }
}

fn read_object_type(
    sections: &Vec<Section>,
    addresses: &Vec<Option<(u16, Option<u8>)>>,
    index: u16,
) -> (r: Option<u64>)
    requires
        addresses@ == addresses_of(section_views(sections@)),
    ensures
        match r {
            Some(t) => object_type(section_views(sections@), index) == Some(t as int),
            None => object_type(section_views(sections@), index) is None,
        },
{
    match find_address(addresses, index, None) {
        Some(i) => {
            assert(section_views(sections@)[i as int] == sections@[i as int]@);
            match get_int_prop(&sections[i].props, "ObjectType") {
                Some(t) => Some(t),
                None => Some(7),
            }
        },
        None => None,
    }
}

fn read_entries(
    sections: &Vec<Section>,
    addresses: &Vec<Option<(u16, Option<u8>)>>,
    overrides: &Vec<(u16, usize)>,
    index: u16,
    out: &mut Vec<OdEntry>,
)
    requires
        addresses@ == addresses_of(section_views(sections@)),
    ensures
        entry_views(final(out)@) == entry_views(old(out)@) + entries_at(
            section_views(sections@),
            overrides@,
            index,
        ),
{
    let ghost views = section_views(sections@);
    let ghost before = entry_views(out@);
    let ty = read_object_type(sections, addresses, index);
    let is_var = match ty {
        Some(t) => t == 7,
        None => false,
    };
    let is_array = match ty {
        Some(t) => t == 8,
        None => false,
    };
    let ghost var = if object_type(views, index) == Some(7int) {
        match variable_at(views, overrides@, index, None) {
            Some(v) => seq![OdEntryView { index, name: v.name, kind: KindView::Var(v.var) }],
            None => Seq::empty(),
        }
    } else {
        Seq::empty()
    };
    assert(entry_views(out@) =~= before + Seq::<OdEntryView>::empty());
    if is_var {
        if let Some(e) = read_variable(sections, addresses, overrides, index, None) {
            let entry = OdEntry { index, name: e.name, kind: EntryKind::Var(e.var) };
            out.push(entry);
            assert(entry_views(out@) =~= before + seq![entry@]);
        }
    }
    assert(entry_views(out@) == before + var);
    let name = read_object_name(sections, addresses, index);
    let prefix = sanitize_name(name.as_slice());
    let subs = read_members(sections, addresses, overrides, index, &prefix);
    let ghost sv = sub_views(subs@);
    if subs.len() > 0 {
        let ghost here = out@;
        let name = string_of(prefix.as_slice());
        assert(sv[0] == subs@[0]@);
        let kind = if is_array && subs.len() >= 4 && check_zero(&subs) {
            EntryKind::Array(
                ArrayDef {
                    element_type: subs[0].var.ty.clone(),
                    count: subs.len(),
                    access: subs[0].var.access,
                    pdo_mappable: subs[0].var.pdo_mappable,
                },
            )
        } else {
            EntryKind::Record(subs)
        };
        let entry = OdEntry { index, name, kind };
        out.push(entry);
        assert(entry@ =~= compound(views, index, sv));
        assert(entry_views(out@) =~= entry_views(here).push(entry@));
        assert(entry_views(out@) =~= before + var.push(entry@));
    }
}

/// The indices of the objects that the first `n` sections describe, but for the
/// parameters of PDOs.
pub open spec fn object_indices(addresses: Seq<Option<(u16, Option<u8>)>>, n: int) -> Seq<u16>
    decreases n,
{
    if n <= 0 || n > addresses.len() {
        Seq::empty()
    } else {
        match addresses[n - 1] {
            Some((index, _)) if !in_pdo_range(index) => object_indices(addresses, n - 1).push(
                index,
            ),
            _ => object_indices(addresses, n - 1),
        }
    }
}

/// The entries at the first `n` of some indices.
pub open spec fn entries_of(
    sections: Seq<SectionView>,
    overrides: Seq<(u16, usize)>,
    indices: Seq<u16>,
    n: int,
) -> Seq<OdEntryView>
    decreases n,
{
    if n <= 0 || n > indices.len() {
        Seq::empty()
    } else {
        entries_of(sections, overrides, indices, n - 1) + entries_at(
            sections,
            overrides,
            indices[n - 1],
        )
    }
}

/// The entries of a file in ascending order of their indices.
pub open spec fn all_entries(sections: Seq<SectionView>, overrides: Seq<(u16, usize)>) -> Seq<
    OdEntryView,
> {
    let addresses = addresses_of(sections);
    let indices = sorted(object_indices(addresses, addresses.len() as int));
    entries_of(sections, overrides, indices, indices.len() as int)
}

fn read_all_entries(
    sections: &Vec<Section>,
    addresses: &Vec<Option<(u16, Option<u8>)>>,
    overrides: &Vec<(u16, usize)>,
) -> (r: Vec<OdEntry>)
    requires
        addresses@ == addresses_of(section_views(sections@)),
    ensures
        entry_views(r@) == all_entries(section_views(sections@), overrides@),
{
    let ghost views = section_views(sections@);
    let mut indices: Vec<u16> = Vec::new();
    let mut i: usize = 0;
    while i < addresses.len()
        invariant
            i <= addresses@.len(),
            indices@ == sorted(object_indices(addresses@, i as int)),
        decreases addresses@.len() - i,
    {
        if let Some((index, _)) = addresses[i] {
            if !is_pdo_index(index) {
                let ghost front = object_indices(addresses@, i as int);
                assert(front.push(index).drop_last() =~= front);
                insert_sorted(&mut indices, index);
            }
        }
        i += 1;
    }
    let mut out: Vec<OdEntry> = Vec::new();
    let mut k: usize = 0;
    assert(entry_views(out@) =~= Seq::<OdEntryView>::empty());
    while k < indices.len()
        invariant
            k <= indices@.len(),
            views == section_views(sections@),
            addresses@ == addresses_of(views),
            entry_views(out@) == entries_of(views, overrides@, indices@, k as int),
        decreases indices@.len() - k,
    {
        read_entries(sections, addresses, overrides, indices[k], &mut out);
        k += 1;
    }
    out
}

// ---- PDOs ----

/// Where a mapped object is: the entry, and the member of a record.
pub open spec fn locate(entries: Seq<OdEntryView>, index: u16, sub: u8, from: int) -> Option<
    (int, Option<int>),
>
    decreases entries.len() - from,
{
    if from < 0 || from >= entries.len() {
        None
    } else {
        let e = entries[from];
        match e.kind {
            KindView::Var(_) if e.index == index && sub == 0 => Some((from, None)),
            KindView::Record(subs) if e.index == index && member_at(subs, sub, 0) is Some => Some(
                (from, member_at(subs, sub, 0)),
            ),
            _ => locate(entries, index, sub, from + 1),
        }
    }
}

/// The first member from `from` on with a subindex.
pub open spec fn member_at(subs: Seq<SubView>, sub: u8, from: int) -> Option<int>
    decreases subs.len() - from,
{
    if from < 0 || from >= subs.len() {
        None
    } else if subs[from].subindex == sub {
        Some(from)
    } else {
        member_at(subs, sub, from + 1)
    }
}

/// A variable marked as mappable.
pub open spec fn marked_var(v: VarView) -> VarView {
    VarView { pdo_mappable: true, ..v }
}

/// Entries with one variable marked as mappable.
pub open spec fn marked(entries: Seq<OdEntryView>, i: int, k: Option<int>) -> Seq<OdEntryView> {
    let e = entries[i];
    entries.update(
        i,
        OdEntryView {
            kind: match (e.kind, k) {
                (KindView::Record(subs), Some(k)) => KindView::Record(
                    subs.update(k, SubView { var: marked_var(subs[k].var), ..subs[k] }),
                ),
                (KindView::Var(v), _) => KindView::Var(marked_var(v)),
                (kind, _) => kind,
            },
            ..e
        },
    )
}

/// The name and type of the variable at a place.
pub open spec fn variable_in(entries: Seq<OdEntryView>, i: int, k: Option<int>) -> (
    Seq<char>,
    Seq<char>,
) {
    match (entries[i].kind, k) {
        (KindView::Record(subs), Some(k)) => (subs[k].name, subs[k].var.ty),
        (KindView::Var(v), _) => (entries[i].name, v.ty),
        _ => (""@, ""@),
    }
}

/// What a mapping value refers to, with the entry marked as mappable. A value
/// keeps its declared length. One for no object is dropped, unless it fills a
/// gap: the types themselves can be mapped for that.
pub open spec fn mapped_field(entries: Seq<OdEntryView>, value: u32) -> (
    Seq<OdEntryView>,
    Option<FieldView>,
) {
    let index = (value / 0x1_0000) as u16;
    let sub = (value / 0x100 % 0x100) as u8;
    match locate(entries, index, sub, 0) {
        Some((i, k)) => (
            marked(entries, i, k),
            if is_variable_length(variable_in(entries, i, k).1) {
                Some(FieldView::Named(variable_in(entries, i, k).0))
            } else {
                Some(FieldView::Raw(value))
            },
        ),
        None => (
            entries,
            if 0x0001 <= index <= 0x001F && sub == 0 {
                Some(FieldView::Raw(value))
            } else {
                None
            },
        ),
    }
}

fn find_member(subs: &Vec<SubEntry>, sub: u8) -> (r: Option<usize>)
    ensures
        match r {
            Some(k) => k < subs@.len() && member_at(sub_views(subs@), sub, 0) == Some(k as int),
            None => member_at(sub_views(subs@), sub, 0) is None,
        },
{
    let ghost all = sub_views(subs@);
    let mut k: usize = 0;
    while k < subs.len()
        invariant
            k <= subs@.len(),
            all == sub_views(subs@),
            member_at(all, sub, 0) == member_at(all, sub, k as int),
        decreases subs@.len() - k,
    {
        assert(all[k as int] == subs@[k as int]@);
        if subs[k].subindex == sub {
            return Some(k);
        }
        k += 1;
    }
    None
}

fn mark_entry(e: &mut OdEntry, k: Option<usize>)
    requires
        match (old(e)@.kind, k) {
            (KindView::Record(subs), Some(k)) => k < subs.len(),
            _ => true,
        },
    ensures
        final(e)@ == marked(
            seq![old(e)@],
            0,
            match k {
                Some(k) => Some(k as int),
                None => None,
            },
        )[0],
{
    let ghost before = e@;
    match &mut e.kind {
        EntryKind::Var(v) => {
            v.pdo_mappable = true;
        },
        EntryKind::Record(subs) => {
            if let Some(k) = k {
                let ghost sv = sub_views(subs@);
                assert(sv[k as int] == subs@[k as int]@);
                subs[k].var.pdo_mappable = true;
                assert(sub_views(subs@) =~= sv.update(
                    k as int,
                    SubView { var: marked_var(sv[k as int].var), ..sv[k as int] },
                ));
            }
        },
        EntryKind::Array(_) => {},
    }
    assert(e@ =~= marked(
        seq![before],
        0,
        match k {
            Some(k) => Some(k as int),
            None => None,
        },
    )[0]);
}

/// Find the object that a mapping value refers to, and mark it as mappable.
fn resolve_mapping(value: u32, entries: &mut Vec<OdEntry>) -> (r: Option<PdoField>)
    ensures
        ({
            let (after, field) = mapped_field(entry_views(old(entries)@), value);
            &&& entry_views(final(entries)@) == after
            &&& match r {
                Some(f) => field == Some(f@),
                None => field is None,
            }
        }),
{
    let index: u16 = (value / 0x1_0000) as u16;
    let sub: u8 = (value / 0x100 % 0x100) as u8;
    let ghost before = entry_views(entries@);
    let mut i: usize = 0;
    while i < entries.len()
        invariant
            i <= entries@.len(),
            entries@ == old(entries)@,
            before == entry_views(entries@),
            before == entry_views(old(entries)@),
            index == (value / 0x1_0000) as u16,
            sub == (value / 0x100 % 0x100) as u8,
            locate(before, index, sub, 0) == locate(before, index, sub, i as int),
        decreases entries@.len() - i,
    {
        assert(before[i as int] == entries@[i as int]@);
        let mut found: Option<(Option<usize>, String, String)> = None;
        if entries[i].index == index {
            match &entries[i].kind {
                EntryKind::Var(v) => {
                    if sub == 0 {
                        found = Some((None, entries[i].name.clone(), v.ty.clone()));
                    }
                },
                EntryKind::Record(subs) => {
                    if let Some(k) = find_member(subs, sub) {
                        assert(sub_views(subs@)[k as int] == subs@[k as int]@);
                        found = Some((Some(k), subs[k].name.clone(), subs[k].var.ty.clone()));
                    }
                },
                EntryKind::Array(_) => {},
            }
        }
        if let Some((k, name, ty)) = found {
            let ghost kk = match k {
                Some(k) => Some(k as int),
                None => None,
            };
            assert(locate(before, index, sub, i as int) == Some((i as int, kk)));
            assert((name@, ty@) == variable_in(before, i as int, kk));
            mark_entry(&mut entries[i], k);
            assert(marked(seq![before[i as int]], 0, kk)[0] == marked(
                before,
                i as int,
                kk,
            )[i as int]);
            assert(entry_views(entries@) =~= marked(before, i as int, kk));
            return if is_variable_length_type(ty.as_str()) {
                Some(PdoField::Named(name))
            } else {
                Some(PdoField::Raw(value))
            };
        }
        i += 1;
    }
    if 0x0001 <= index && index <= 0x001F && sub == 0 {
        Some(PdoField::Raw(value))
    } else {
        None
    }
}

/// The name of the section of a sub-object.
pub open spec fn sub_section(index: u16, sub: nat) -> Seq<char> {
    zero_filled(hex(index as nat), 4) + "sub"@ + hex(sub)
}

fn sub_section_name(index: u16, sub: u64) -> (r: Vec<char>)
    ensures
        r@ == sub_section(index, sub as nat),
{
    let mut out: Vec<char> = Vec::new();
    append_hex_filled(&mut out, index as u64, 4);
    assert(out@ =~= zero_filled(hex(index as nat), 4));
    append_str(&mut out, "sub");
    append_hex(&mut out, sub);
    out
}

/// A property of a sub-object.
pub open spec fn sub_prop(
    sections: Seq<SectionView>,
    index: u16,
    sub: nat,
    key: Seq<char>,
) -> Option<Seq<char>> {
    match section_props(sections, sub_section(index, sub)) {
        Some(props) => prop(props, key),
        None => None,
    }
}

/// The default of a sub-object as a number.
pub open spec fn sub_default(sections: Seq<SectionView>, index: u16, sub: nat) -> Option<int> {
    match sub_prop(sections, index, sub, "DefaultValue"@) {
        Some(t) => int_value(t),
        None => None,
    }
}

fn read_sub_prop<'a>(sections: &'a Vec<Section>, index: u16, sub: u64, key: &str) -> (r: Option<
    &'a Vec<char>,
>)
    ensures
        match r {
            Some(v) => sub_prop(section_views(sections@), index, sub as nat, key@) == Some(v@),
            None => sub_prop(section_views(sections@), index, sub as nat, key@) is None,
        },
{
    let name = sub_section_name(index, sub);
    match find_section(sections, name.as_slice()) {
        Some(s) => get_prop(&s.props, key),
        None => None,
    }
}

fn read_sub_default(sections: &Vec<Section>, index: u16, sub: u64) -> (r: Option<u64>)
    ensures
        match r {
            Some(v) => sub_default(section_views(sections@), index, sub as nat) == Some(v as int),
            None => sub_default(section_views(sections@), index, sub as nat) is None,
        },
{
    match read_sub_prop(sections, index, sub, "DefaultValue") {
        Some(t) => parse_int(t.as_slice()),
        None => None,
    }
}

/// The first part of a text between plus signs, from `from` on, that is not
/// `$NODEID`.
pub open spec fn base_part(text: Seq<char>) -> Option<Seq<char>>
    decreases text.len(),
{
    let (head, rest) = match find(text, seq!['+'], 0) {
        Some(n) if 0 <= n < text.len() => (text.take(n), Some(text.skip(n + 1))),
        _ => (text, None),
    };
    if !same_but_case(trimmed(head), "$NODEID"@) {
        Some(trimmed(head))
    } else {
        match rest {
            Some(r) if r.len() < text.len() => base_part(r),
            _ => None,
        }
    }
}

/// A text contains `$NODEID`, whatever its case.
pub open spec fn node_relative(text: Seq<char>) -> bool {
    contains(lowered(text), "$nodeid"@)
}

/// The COB-ID that a text stands for: relative to the node ID where it says
/// so, in either order of the operands.
pub open spec fn cob_of(text: Seq<char>) -> Option<CobIdSpec> {
    let v = trimmed(text);
    if node_relative(v) {
        match base_part(v) {
            Some(base) => match int_value(base) {
                Some(n) => Some(CobIdSpec::NodeRelative((n % 0x1_0000_0000) as u32)),
                None => None,
            },
            None => None,
        }
    } else {
        match int_value(v) {
            Some(n) => Some(CobIdSpec::Absolute((n % 0x1_0000_0000) as u32)),
            None => None,
        }
    }
}

fn find_base(text: &[char]) -> (r: Option<&[char]>)
    ensures
        match r {
            Some(b) => base_part(text@) == Some(b@),
            None => base_part(text@) is None,
        },
    decreases text@.len(),
{
    let plus: [char; 1] = ['+'];
    assert(plus@ =~= seq!['+']);
    let node = chars_of("$NODEID");
    match find_text(text, plus.as_slice()) {
        Some(n) => {
            let len: usize = text.len();
            let head = slice_subrange(text, 0, n);
            let rest = slice_subrange(text, n + 1, len);
            assert(head@ =~= text@.take(n as int));
            assert(rest@ =~= text@.skip(n + 1));
            let t = trim(head);
            if same_ignoring_case(t, node.as_slice()) {
                find_base(rest)
            } else {
                Some(t)
            }
        },
        None => {
            let t = trim(text);
            if same_ignoring_case(t, node.as_slice()) {
                None
            } else {
                Some(t)
            }
        },
    }
}

/// Parse a PDO COB-ID value.
fn parse_pdo_cob_id(value: &[char]) -> (r: Option<CobIdSpec>)
    ensures
        r == cob_of(value@),
{
    let v = trim(value);
    let low = lower_text(v);
    if contains_text(low.as_slice(), "$nodeid") {
        match find_base(v) {
            Some(base) => match parse_int(base) {
                Some(n) => Some(CobIdSpec::NodeRelative((n % 0x1_0000_0000) as u32)),
                None => None,
            },
            None => None,
        }
    } else {
        match parse_int(v) {
            Some(n) => Some(CobIdSpec::Absolute((n % 0x1_0000_0000) as u32)),
            None => None,
        }
    }
}

/// The kind of a mapping by the access to its record: `ro` and `const` mean
/// immutable. Without a record the mapping stays mutable, so that a PDO with
/// communication parameters only can be mapped at runtime.
pub open spec fn mapping_kind(access: Option<Seq<char>>) -> MappingKind {
    match access {
        Some(a) if lowered(a) == "ro"@ || lowered(a) == "const"@ => MappingKind::Immutable,
        _ => MappingKind::Mutable,
    }
}

fn mapping_kind_from_access(access: Option<&Vec<char>>) -> (r: MappingKind)
    ensures
        r == mapping_kind(
            match access {
                Some(a) => Some(a@),
                None => None,
            },
        ),
{
    match access {
        Some(a) => {
            let l = lower_text(a.as_slice());
            if is_text(l.as_slice(), "ro") || is_text(l.as_slice(), "const") {
                MappingKind::Immutable
            } else {
                MappingKind::Mutable
            }
        },
        None => MappingKind::Mutable,
    }
}

/// The mapped objects of the first `n` rows of a mapping record, and the
/// entries with these objects marked.
pub open spec fn mapping_rows(
    sections: Seq<SectionView>,
    index: u16,
    entries: Seq<OdEntryView>,
    n: int,
) -> (Seq<OdEntryView>, Seq<FieldView>)
    decreases n,
{
    if n <= 0 {
        (entries, Seq::empty())
    } else {
        let (before, fields) = mapping_rows(sections, index, entries, n - 1);
        match sub_default(sections, index, n as nat) {
            Some(v) if v != 0 => {
                let (after, field) = mapped_field(before, (v % 0x1_0000_0000) as u32);
                (
                    after,
                    match field {
                        Some(f) => fields.push(f),
                        None => fields,
                    },
                )
            },
            _ => (before, fields),
        }
    }
}

/// A number, or another one where there is none, cut to a range.
pub open spec fn number_or(v: Option<int>, otherwise: int, span: int) -> int {
    match v {
        Some(v) => v % span,
        None => otherwise,
    }
}

/// The index of the first communication parameter record of a direction.
pub open spec fn comm_start(direction: PdoDirection) -> int {
    match direction {
        PdoDirection::Tpdo => 0x1800,
        PdoDirection::Rpdo => 0x1400,
    }
}

/// A PDO that a file describes, and the entries with its mapped objects marked.
/// A PDO is there if its communication parameters are.
pub open spec fn pdo_at(
    sections: Seq<SectionView>,
    entries: Seq<OdEntryView>,
    direction: PdoDirection,
    n: u16,
) -> Option<(Seq<OdEntryView>, PdoDefView)> {
    let comm = (comm_start(direction) + n) as u16;
    let map = (comm_start(direction) + 0x200 + n) as u16;
    if section_props(sections, zero_filled(hex(comm as nat), 4)) is None {
        None
    } else {
        let count = number_or(sub_default(sections, map, 0), 0, 0x100);
        let (after, mappings) = mapping_rows(sections, map, entries, count);
        Some(
            (
                after,
                PdoDefView {
                    direction,
                    number: (n + 1) as u16,
                    cob_id: match sub_prop(sections, comm, 1, "DefaultValue"@) {
                        Some(t) => cob_of(t),
                        None => None,
                    },
                    transmission_type: number_or(sub_default(sections, comm, 2), 255, 0x100) as u8,
                    inhibit_time: if direction == PdoDirection::Tpdo {
                        number_or(sub_default(sections, comm, 3), 0, 0x1_0000) as u16
                    } else {
                        0
                    },
                    event_timer: number_or(sub_default(sections, comm, 5), 0, 0x1_0000) as u16,
                    mapping: mapping_kind(sub_prop(sections, map, 0, "AccessType"@)),
                    mappings,
                },
            ),
        )
    }
}

/// The first `n` PDOs of a direction, after some others, and the entries with
/// their mapped objects marked.
pub open spec fn pdos_of(
    sections: Seq<SectionView>,
    start: (Seq<OdEntryView>, Seq<PdoDefView>),
    direction: PdoDirection,
    n: int,
) -> (Seq<OdEntryView>, Seq<PdoDefView>)
    decreases n,
{
    if n <= 0 {
        start
    } else {
        let before = pdos_of(sections, start, direction, n - 1);
        match pdo_at(sections, before.0, direction, (n - 1) as u16) {
            Some((after, pdo)) => (after, before.1.push(pdo)),
            None => before,
        }
    }
}

fn read_number(v: Option<u64>, otherwise: u64, span: u64) -> (r: u64)
    requires
        span > 0,
    ensures
        r == number_or(
            match v {
                Some(v) => Some(v as int),
                None => None,
            },
            otherwise as int,
            span as int,
        ),
        v is Some ==> r < span,
        v is None ==> r == otherwise,
{
    match v {
        Some(v) => v % span,
        None => otherwise,
    }
}

fn read_rows(sections: &Vec<Section>, index: u16, count: u64, entries: &mut Vec<OdEntry>) -> (r: Vec<
    PdoField,
>)
    ensures
        (entry_views(final(entries)@), field_views(r@)) == mapping_rows(
            section_views(sections@),
            index,
            entry_views(old(entries)@),
            count as int,
        ),
{
    let ghost views = section_views(sections@);
    let ghost start = entry_views(entries@);
    let mut out: Vec<PdoField> = Vec::new();
    let mut n: u64 = 0;
    assert(field_views(out@) =~= Seq::<FieldView>::empty());
    while n < count
        invariant
            n <= count,
            views == section_views(sections@),
            (entry_views(entries@), field_views(out@)) == mapping_rows(
                views,
                index,
                start,
                n as int,
            ),
        decreases count - n,
    {
        let ghost before = out@;
        n += 1;
        if let Some(v) = read_sub_default(sections, index, n) {
            if v != 0 {
                if let Some(f) = resolve_mapping((v % 0x1_0000_0000) as u32, entries) {
                    out.push(f);
                    assert(field_views(out@) =~= field_views(before).push(f@));
                }
            }
        }
    }
    out
}

fn read_pdo(sections: &Vec<Section>, direction: PdoDirection, n: u16, entries: &mut Vec<OdEntry>) -> (r:
    Option<PdoDef>)
    requires
        n < 512,
    ensures
        match r {
            Some(p) => pdo_at(
                section_views(sections@),
                entry_views(old(entries)@),
                direction,
                n,
            ) == Some((entry_views(final(entries)@), p@)),
            None => pdo_at(section_views(sections@), entry_views(old(entries)@), direction, n)
                is None && entry_views(final(entries)@) == entry_views(old(entries)@),
        },
{
    let tpdo = match direction {
        PdoDirection::Tpdo => true,
        PdoDirection::Rpdo => false,
    };
    let base: u16 = if tpdo {
        0x1800
    } else {
        0x1400
    };
    let comm: u16 = base + n;
    let map: u16 = base + 0x200 + n;
    let mut key: Vec<char> = Vec::new();
    append_hex_filled(&mut key, comm as u64, 4);
    assert(key@ =~= zero_filled(hex(comm as nat), 4));
    if find_section(sections, key.as_slice()).is_none() {
        return None;
    }
    let cob_id = match read_sub_prop(sections, comm, 1, "DefaultValue") {
        Some(t) => parse_pdo_cob_id(t.as_slice()),
        None => None,
    };
    let transmission_type: u64 = read_number(read_sub_default(sections, comm, 2), 255, 0x100);
    let inhibit_time: u64 = if tpdo {
        read_number(read_sub_default(sections, comm, 3), 0, 0x1_0000)
    } else {
        0
    };
    let event_timer: u64 = read_number(read_sub_default(sections, comm, 5), 0, 0x1_0000);
    let map_count: u64 = read_number(read_sub_default(sections, map, 0), 0, 0x100);
    let mapping = mapping_kind_from_access(read_sub_prop(sections, map, 0, "AccessType"));
    let mappings = read_rows(sections, map, map_count, entries);
    Some(
        PdoDef {
            direction,
            number: n + 1,
            cob_id,
            transmission_type: transmission_type as u8,
            inhibit_time: inhibit_time as u16,
            event_timer: event_timer as u16,
            mapping,
            mappings,
        },
    )
}

fn read_pdos(
    sections: &Vec<Section>,
    direction: PdoDirection,
    entries: &mut Vec<OdEntry>,
    pdos: &mut Vec<PdoDef>,
)
    ensures
        (entry_views(final(entries)@), pdo_views(final(pdos)@)) == pdos_of(
            section_views(sections@),
            (entry_views(old(entries)@), pdo_views(old(pdos)@)),
            direction,
            512,
        ),
{
    let ghost views = section_views(sections@);
    let ghost start = (entry_views(entries@), pdo_views(pdos@));
    let mut n: u16 = 0;
    while n < 512
        invariant
            n <= 512,
            views == section_views(sections@),
            (entry_views(entries@), pdo_views(pdos@)) == pdos_of(
                views,
                start,
                direction,
                n as int,
            ),
        decreases 512 - n,
    {
        let ghost before = pdos@;
        if let Some(p) = read_pdo(sections, direction, n, entries) {
            pdos.push(p);
            assert(pdo_views(pdos@) =~= pdo_views(before).push(p@));
        }
        n += 1;
    }
}

/// The PDOs of a file, and the entries with the mapped objects marked: first
/// those for transmission, then those for reception, up to 512 of each.
pub open spec fn all_pdos(sections: Seq<SectionView>, entries: Seq<OdEntryView>) -> (
    Seq<OdEntryView>,
    Seq<PdoDefView>,
) {
    pdos_of(
        sections,
        pdos_of(sections, (entries, Seq::empty()), PdoDirection::Tpdo, 512),
        PdoDirection::Rpdo,
        512,
    )
}

/// Extract PDO definitions from the communication and mapping sections, and
/// mark the entries that they map as mappable.
fn extract_pdos(sections: &Vec<Section>, entries: &mut Vec<OdEntry>) -> (r: Vec<PdoDef>)
    ensures
        (entry_views(final(entries)@), pdo_views(r@)) == all_pdos(
            section_views(sections@),
            entry_views(old(entries)@),
        ),
{
    let mut pdos: Vec<PdoDef> = Vec::new();
    assert(pdo_views(pdos@) =~= Seq::<PdoDefView>::empty());
    read_pdos(sections, PdoDirection::Tpdo, entries, &mut pdos);
    read_pdos(sections, PdoDirection::Rpdo, entries, &mut pdos);
    pdos
}

// ---- The file ----

/// The entries and PDOs that a file describes, or the complaint about it.
pub open spec fn eds_content(content: Seq<char>, overrides: Seq<(u16, usize)>) -> Result<
    (Seq<OdEntryView>, Seq<PdoDefView>),
    Seq<char>,
> {
    let sections = sections_of(content);
    let addresses = addresses_of(sections);
    match duplicate(addresses, addresses.len() as int) {
        Some((j, i)) => Err(duplicate_message(sections, j, i)),
        None => Ok(all_pdos(sections, all_entries(sections, overrides))),
    }
}

/// What the parsed content says.
pub open spec fn content_view(r: Result<(Vec<OdEntry>, Vec<PdoDef>), String>) -> Result<
    (Seq<OdEntryView>, Seq<PdoDefView>),
    Seq<char>,
> {
    match r {
        Ok((entries, pdos)) => Ok((entry_views(entries@), pdo_views(pdos@))),
        Err(m) => Err(m@),
    }
}

/// Parse EDS file content into entries and PDO definitions.
pub fn parse_eds_content(content: &str) -> (r: Result<(Vec<OdEntry>, Vec<PdoDef>), String>)
    ensures
        content_view(r) == eds_content(content@, Seq::empty()),
{
    let none: Vec<(u16, usize)> = Vec::new();
    parse_eds_content_with_overrides(content, &none)
}

/// Parse EDS file content, with capacities given for some variable-length
/// objects.
pub fn parse_eds_content_with_overrides(
    content: &str,
    capacity_overrides: &Vec<(u16, usize)>,
) -> (r: Result<(Vec<OdEntry>, Vec<PdoDef>), String>)
    ensures
        content_view(r) == eds_content(content@, capacity_overrides@),
{
    let chars = chars_of(content);
    let sections = parse_ini_sections(chars.as_slice());
    let addresses = list_addresses(&sections);
    if let Some(message) = validate_unique_object_sections(&sections, &addresses) {
        return Err(message);
    }
    let mut entries = read_all_entries(&sections, &addresses, capacity_overrides);
    let pdos = extract_pdos(&sections, &mut entries);
    Ok((entries, pdos))
}

/// The definition of an object dictionary by an EDS file.
#[derive(Debug)]
pub struct EdsDefinition {
    pub vis: Visibility,
    pub name: String,
    pub file_path: String,
    /// Per-index capacity overrides for variable-length types.
    pub capacity_overrides: Vec<(u16, usize)>,
}

#[verifier::ext_equal]
pub struct EdsDefinitionView {
    pub vis: VisibilityView,
    pub name: Seq<char>,
    pub file_path: Seq<char>,
    pub capacity_overrides: Seq<(u16, usize)>,
}

impl View for EdsDefinition {
    type V = EdsDefinitionView;

    open spec fn view(&self) -> EdsDefinitionView {
        EdsDefinitionView {
            vis: self.vis@,
            name: self.name@,
            file_path: self.file_path@,
            capacity_overrides: self.capacity_overrides@,
        }
    }
}

/// The definition that an EDS file amounts to, or the complaint about it.
pub open spec fn eds_definition(def: EdsDefinitionView, content: Seq<char>) -> Result<
    DefinitionView,
    Seq<char>,
> {
    match eds_content(content, def.capacity_overrides) {
        Ok((entries, pdos)) => Ok(
            DefinitionView {
                vis: def.vis,
                name: def.name,
                entries,
                pdos,
                sdo_servers: Seq::empty(),
                export_eds_path: None,
                use_alloc: false,
                validate_write_fn: None,
            },
        ),
        Err(m) => Err("EDS parse error: "@ + m),
    }
}

/// Turn the content of an EDS file into a definition.
pub fn parse_eds_to_od(def: &EdsDefinition, content: &str) -> (r: Result<OdDefinition, String>)
    ensures
        match r {
            Ok(od) => eds_definition(def@, content@) == Ok::<DefinitionView, Seq<char>>(od@),
            Err(m) => eds_definition(def@, content@) == Err::<DefinitionView, Seq<char>>(m@),
        },
{
    match parse_eds_content_with_overrides(content, &def.capacity_overrides) {
        Ok((entries, pdos)) => {
            let od = OdDefinition {
                vis: def.vis.copied(),
                name: def.name.clone(),
                entries,
                pdos,
                sdo_servers: Vec::new(),
                export_eds_path: None,
                use_alloc: false,
                validate_write_fn: None,
            };
            Ok(od)
        },
        Err(m) => {
            let mut out = chars_of("EDS parse error: ");
            append_str(&mut out, m.as_str());
            Err(string_of(out.as_slice()))
        },
    }
}

} // verus!
