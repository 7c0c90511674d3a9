//! What EDS files say: what is written to a file is read back from it.

use crate::dictionary::definition::{
    data_type_of, AccessKind, ArrayView, DefinitionView, KindView, MappingKind, OdEntryView,
    PdoDefView, PdoDirection, SdoServerDef, SubView, VarView,
};
use crate::dictionary::definition_laws::{
    lemma_eds_sections_are_distinct, lemma_fixed_hex, lemma_hex_length, lemma_section_for,
};
use crate::dictionary::eds_export::{
    access_word, between, cob_text, comm_row, eds_at, eds_code, eds_objects, eds_objects_of,
    eds_text, entry_indices, hex_text,
    mapping_access, mapping_param, mapping_rows, max_sub, pdo_cob, plain, preamble, record_at,
    record_indices, record_name, server_row, sorted, with_comm_record, with_compound,
    with_elements, with_entries, with_entry, with_head, with_index_list, with_index_rows,
    with_line, with_mapping_rows, with_members, with_object, with_param, with_pdo, with_pdos,
    with_record_head, with_server, with_servers, with_sub_head, EdsView, ParamView,
};
use crate::dictionary::eds_parser::{
    access_of, addresses_of, capacity_of, default_of, eds_content, object_type, section_for,
    type_named, variable_at, variable_of,
};
use crate::dictionary::mapping::{mapped_objects, variables, ErrorView, FlatView};
use crate::dictionary::names::sanitized;
use crate::pdo::config::PdoMapping;
use crate::ini::{
    int_prop, lower, lowered, object_of, prop, prop_from, sections_of, sub_number, PropView,
    Reading, SectionView,
};
use crate::text::{
    digit_value, digits, digits_value, find, hex, int_value, is_space, lemma_digits_roundtrip,
    number, same_but_case, stands_at, trimmed, trimmed_end, trimmed_start, zero_filled,
};
use vstd::prelude::*;

verus! {

// ---- Searching for a character ----

proof fn lemma_char_stands(s: Seq<char>, c: char, i: int)
    ensures
        stands_at(s, seq![c], i) <==> 0 <= i < s.len() && s[i] == c,
{
    if 0 <= i < s.len() {
        assert(s.subrange(i, i + 1) =~= seq![s[i]]);
        assert(seq![s[i]] == seq![c] ==> seq![s[i]][0] == seq![c][0]);
    }
}

/// The first occurrence of a character is found.
pub proof fn lemma_find_char(s: Seq<char>, c: char, from: int, i: int)
    requires
        0 <= from <= i < s.len(),
        s[i] == c,
        forall|j: int| from <= j < i ==> s[j] != c,
    ensures
        find(s, seq![c], from) == Some(i),
    decreases i - from,
{
    lemma_char_stands(s, c, from);
    if from < i {
        lemma_find_char(s, c, from + 1, i);
    }
}

/// A character that does not occur is not found.
pub proof fn lemma_find_no_char(s: Seq<char>, c: char, from: int)
    requires
        0 <= from <= s.len(),
        forall|j: int| from <= j < s.len() ==> s[j] != c,
    ensures
        find(s, seq![c], from) is None,
    decreases s.len() - from,
{
    lemma_char_stands(s, c, from);
    if from < s.len() {
        lemma_find_no_char(s, c, from + 1);
    } else {
        assert(find(s, seq![c], from + 1) is None);
    }
}

// ---- Lines ----

/// A text is on one line.
pub open spec fn single_line(s: Seq<char>) -> bool {
    forall|i: int| 0 <= i < s.len() ==> s[i] != '\n'
}

/// A text neither begins nor ends with white space.
pub open spec fn tight(s: Seq<char>) -> bool {
    s.len() > 0 ==> !is_space(s[0]) && !is_space(s.last())
}

/// A text is made of complete lines.
pub open spec fn complete(s: Seq<char>) -> bool {
    s.len() > 0 ==> s.last() == '\n'
}

/// How far a file is read after a text.
#[verifier::opaque]
pub open spec fn read(text: Seq<char>) -> Reading {
    Reading::start().lines(text)
}

/// White space around a text is all that is removed.
pub proof fn lemma_tight_is_trimmed(s: Seq<char>)
    requires
        tight(s),
    ensures
        trimmed(s) == s,
{
}

/// The lines of a text after complete lines are read after those.
pub proof fn lemma_lines_append(r: Reading, a: Seq<char>, b: Seq<char>)
    requires
        complete(a),
    ensures
        r.lines(a + b) == r.lines(a).lines(b),
    decreases a.len(),
{
    if a.len() == 0 {
        lemma_find_no_char(a, '\n', 0);
        assert(r.line(a) == r);
        assert(a + b =~= b);
    } else {
        let i = first_newline(a, 0);
        lemma_first_newline(a, 0);
        lemma_find_char(a, '\n', 0, i);
        lemma_find_char(a + b, '\n', 0, i);
        assert((a + b).take(i) =~= a.take(i));
        assert((a + b).skip(i + 1) =~= a.skip(i + 1) + b);
        lemma_lines_append(r.line(a.take(i)), a.skip(i + 1), b);
    }
}

spec fn first_newline(s: Seq<char>, from: int) -> int
    decreases s.len() - from,
{
    if from < 0 || from >= s.len() || s[from] == '\n' {
        from
    } else {
        first_newline(s, from + 1)
    }
}

proof fn lemma_first_newline(s: Seq<char>, from: int)
    requires
        0 <= from < s.len(),
        s.last() == '\n',
    ensures
        from <= first_newline(s, from) < s.len(),
        s[first_newline(s, from)] == '\n',
        forall|j: int| from <= j < first_newline(s, from) ==> s[j] != '\n',
    decreases s.len() - from,
{
    if s[from] != '\n' {
        lemma_first_newline(s, from + 1);
    }
}

/// A line that is written is read.
pub proof fn lemma_line_is_read(out: Seq<char>, key: Seq<char>, value: Seq<char>)
    requires
        complete(out),
        single_line(key + value),
    ensures
        read(with_line(out, key, value)) == read(out).line(key + value),
        complete(with_line(out, key, value)),
{
    reveal(read);
    reveal_strlit("\n");
    let l = key + value;
    let t = l + "\n"@;
    assert(with_line(out, key, value) =~= out + t);
    lemma_lines_append(Reading::start(), out, t);
    lemma_find_char(t, '\n', 0, l.len() as int);
    assert(t.take(l.len() as int) =~= l);
    assert(t.skip(l.len() as int + 1) =~= Seq::<char>::empty());
    lemma_find_no_char(Seq::<char>::empty(), '\n', 0);
    let r = read(out).line(l);
    assert(read(out).lines(t) == r.lines(Seq::empty()));
    assert(r.lines(Seq::empty()) == r.line(Seq::empty()));
    assert(r.line(Seq::empty()) == r);
}

/// What a line with a key and a value says.
pub proof fn lemma_prop_line(r: Reading, key: Seq<char>, value: Seq<char>)
    requires
        key.len() > 0,
        tight(key),
        tight(value),
        key[0] != ';',
        key[0] != '[',
        forall|i: int| 0 <= i < key.len() ==> key[i] != '=',
    ensures
        r.line(key + seq!['='] + value) == (Reading {
            props: r.props.push(PropView { key, value }),
            ..r
        }),
{
    let l = key + seq!['='] + value;
    assert(l[0] == key[0]);
    assert(l.last() == if value.len() > 0 {
        value.last()
    } else {
        '='
    });
    lemma_tight_is_trimmed(l);
    lemma_find_char(l, '=', 0, key.len() as int);
    assert(l.take(key.len() as int) =~= key);
    assert(l.skip(key.len() as int + 1) =~= value);
    lemma_tight_is_trimmed(key);
    lemma_tight_is_trimmed(value);
}

/// What the head of a section says.
pub proof fn lemma_head_line(r: Reading, name: Seq<char>)
    ensures
        r.line(seq!['['] + name + seq![']']) == (Reading {
            done: r.finished(),
            name,
            props: if r.name.len() > 0 {
                Seq::empty()
            } else {
                r.props
            },
        }),
{
    let l = seq!['['] + name + seq![']'];
    assert(l.last() == ']');
    lemma_tight_is_trimmed(l);
    assert(l.subrange(1, l.len() - 1) =~= name);
}

// ---- Numbers in names and values ----

/// Hexadecimal digits only.
pub open spec fn all_hex(s: Seq<char>) -> bool {
    forall|i: int| 0 <= i < s.len() ==> digit_value(#[trigger] s[i], 16) is Some
}

pub proof fn lemma_hex_digits(n: nat)
    ensures
        all_hex(hex(n)),
        hex(n).len() > 0,
    decreases n,
{
    lemma_digits_roundtrip(n, 16);
    lemma_value_means_hex(hex(n));
}

proof fn lemma_value_means_hex(s: Seq<char>)
    requires
        digits_value(s, 16) is Some,
    ensures
        all_hex(s),
    decreases s.len(),
{
    if s.len() > 0 {
        lemma_value_means_hex(s.drop_last());
        assert forall|i: int| 0 <= i < s.len() implies digit_value(#[trigger] s[i], 16) is Some by {
            if i < s.len() - 1 {
                assert(s[i] == s.drop_last()[i]);
            }
        }
    }
}

/// A number of up to 16 bits that is written with four hexadecimal digits, and
/// is read in whatever case.
pub proof fn lemma_four_digits(n: nat)
    requires
        n < 0x1_0000,
    ensures
        zero_filled(hex(n), 4).len() == 4,
        all_hex(zero_filled(hex(n), 4)),
        number(zero_filled(hex(n), 4), 16, 0xFFFF) == Some(n as int),
        number(zero_filled(hex(n), 4), 16, u64::MAX as int) == Some(n as int),
        number(lowered(zero_filled(hex(n), 4)), 16, 0xFFFF) == Some(n as int),
{
    lemma_hex_length(n);
    lemma_fixed_hex(n, 4);
    let s = zero_filled(hex(n), 4);
    crate::dictionary::definition_laws::lemma_lowered_value(s);
    lemma_value_means_hex(s);
    assert(digit_value(s[0], 16) is Some);
    assert(lowered(s)[0] == lower(s[0]));
}

proof fn lemma_hex_has_no_sub(s: Seq<char>, from: int)
    requires
        0 <= from,
        all_hex(s),
    ensures
        find(lowered(s), "sub"@, from) is None,
    decreases s.len() + 1 - from,
{
    reveal_strlit("sub");
    let l = lowered(s);
    if from <= s.len() {
        if stands_at(l, "sub"@, from) {
            assert(l.subrange(from, from + 3)[0] == 's');
            assert(l[from] == lower(s[from]));
            assert(digit_value(s[from], 16) is Some);
        }
        lemma_hex_has_no_sub(s, from + 1);
    }
}

/// The head of the section of an object names the object.
pub proof fn lemma_object_name(index: u16)
    requires
        index >= 0x1000,
    ensures
        object_of(zero_filled(hex(index as nat), 4)) == Some((index, None::<u8>)),
{
    lemma_four_digits(index as nat);
    lemma_hex_has_no_sub(zero_filled(hex(index as nat), 4), 0);
}

proof fn lemma_sub_is_found(s: Seq<char>, tail: Seq<char>, from: int)
    requires
        0 <= from <= s.len(),
        all_hex(s),
    ensures
        find(lowered(s + "sub"@ + tail), "sub"@, from) == Some(s.len() as int),
    decreases s.len() - from,
{
    reveal_strlit("sub");
    let l = lowered(s + "sub"@ + tail);
    if from < s.len() {
        if stands_at(l, "sub"@, from) {
            assert(l.subrange(from, from + 3)[0] == 's');
            assert(l[from] == lower(s[from]));
            assert(digit_value(s[from], 16) is Some);
        }
        lemma_sub_is_found(s, tail, from + 1);
    } else {
        assert(l.subrange(from, from + 3) =~= "sub"@);
    }
}

/// The head of the section of a sub-object names the sub-object.
pub proof fn lemma_sub_object_name(index: u16, sub: u8)
    ensures
        object_of(zero_filled(hex(index as nat), 4) + "sub"@ + hex(sub as nat)) == Some(
            (index, Some(sub)),
        ),
{
    reveal_strlit("sub");
    let idx = zero_filled(hex(index as nat), 4);
    let tail = hex(sub as nat);
    let l = lowered(idx + "sub"@ + tail);
    lemma_four_digits(index as nat);
    lemma_sub_is_found(idx, tail, 0);
    assert(l.take(4) =~= lowered(idx));
    assert(l.skip(7) =~= lowered(tail));
    lemma_digits_roundtrip(sub as nat, 16);
    lemma_hex_digits(sub as nat);
    crate::dictionary::definition_laws::lemma_lowered_value(tail);
    assert(lowered(tail)[0] == lower(tail[0]));
    assert(digit_value(tail[0], 16) is Some);
}

// ---- Types and access ----

/// The type of an imported variable is the one whose CiA 301 code the file
/// states, and every type can be imported.
pub proof fn lemma_imported_type_has_its_code(code: u16)
    ensures
        match type_named(code) {
            Some(ty) => data_type_of(ty) matches Some(t) && t.spec_code() == code,
            None => forall|t: crate::datatypes::DataType| t.spec_code() != code,
        },
{
    lemma_type_names();
}

/// A type that is exported is imported under the same name.
pub proof fn lemma_type_roundtrip(ty: Seq<char>)
    requires
        data_type_of(ty) is Some,
    ensures
        type_named(eds_code(ty)) == Some(ty),
{
    lemma_type_names();
}

proof fn lemma_type_names()
    ensures
        "bool"@ =~= seq!['b', 'o', 'o', 'l'],
        "i8"@ =~= seq!['i', '8'],
        "i16"@ =~= seq!['i', '1', '6'],
        "i24"@ =~= seq!['i', '2', '4'],
        "i32"@ =~= seq!['i', '3', '2'],
        "i64"@ =~= seq!['i', '6', '4'],
        "u8"@ =~= seq!['u', '8'],
        "u16"@ =~= seq!['u', '1', '6'],
        "u24"@ =~= seq!['u', '2', '4'],
        "u32"@ =~= seq!['u', '3', '2'],
        "u64"@ =~= seq!['u', '6', '4'],
        "f32"@ =~= seq!['f', '3', '2'],
        "f64"@ =~= seq!['f', '6', '4'],
        "visible_string"@.len() == 14,
        "octet_string"@.len() == 12,
        "domain"@.len() == 6,
{
    reveal_strlit("bool");
    reveal_strlit("i8");
    reveal_strlit("i16");
    reveal_strlit("i24");
    reveal_strlit("i32");
    reveal_strlit("i64");
    reveal_strlit("u8");
    reveal_strlit("u16");
    reveal_strlit("u24");
    reveal_strlit("u32");
    reveal_strlit("u64");
    reveal_strlit("f32");
    reveal_strlit("f64");
    reveal_strlit("visible_string");
    reveal_strlit("octet_string");
    reveal_strlit("domain");
}

/// An access that is exported is imported again. A constant is read-only to the
/// importer, which knows no constants.
pub proof fn lemma_access_roundtrip(access: AccessKind)
    ensures
        access_of(access_word(access)) == (if access == AccessKind::Const {
            AccessKind::Ro
        } else {
            access
        }),
{
    reveal_strlit("ro");
    reveal_strlit("rw");
    reveal_strlit("wo");
    reveal_strlit("const");
    reveal_strlit("rwr");
    reveal_strlit("rww");
    assert(lowered("ro"@) =~= "ro"@);
    assert(lowered("rw"@) =~= "rw"@);
    assert(lowered("wo"@) =~= "wo"@);
    assert("ro"@[1] != "rw"@[1]);
    assert("wo"@[0] != "rw"@[0]);
    assert("ro"@[0] != "wo"@[0]);
    assert(lowered("const"@).len() == 5);
}

// ---- Sections of objects ----

/// A key of a property.
pub open spec fn is_key(key: Seq<char>) -> bool {
    &&& key.len() > 0
    &&& tight(key)
    &&& key[0] != ';'
    &&& key[0] != '['
    &&& forall|i: int| 0 <= i < key.len() ==> key[i] != '=' && key[i] != '\n'
}

/// A property that is written is read.
pub proof fn lemma_written_prop(
    out: Seq<char>,
    front: Seq<char>,
    back: Seq<char>,
    key: Seq<char>,
    value: Seq<char>,
)
    requires
        complete(out),
        is_key(key),
        tight(value),
        single_line(value),
        front + back == key + seq!['='] + value,
    ensures
        read(with_line(out, front, back)) == (Reading {
            props: read(out).props.push(PropView { key, value }),
            ..read(out)
        }),
        complete(with_line(out, front, back)),
{
    let l = key + seq!['='] + value;
    assert(single_line(l));
    lemma_line_is_read(out, front, back);
    lemma_prop_line(read(out), key, value);
}

/// An empty line says nothing.
pub proof fn lemma_empty_line(out: Seq<char>)
    requires
        complete(out),
    ensures
        read(with_line(out, ""@, ""@)) == read(out),
        complete(with_line(out, ""@, ""@)),
{
    reveal_strlit("");
    assert(""@ + ""@ =~= Seq::<char>::empty());
    lemma_line_is_read(out, ""@, ""@);
}

/// A text with the head of a section appended.
pub open spec fn with_section(out: Seq<char>, name: Seq<char>) -> Seq<char> {
    out + seq!['['] + name + seq![']', '\n']
}

/// The head of a section that is written is read.
pub proof fn lemma_written_head(out: Seq<char>, name: Seq<char>)
    requires
        complete(out),
        single_line(name),
    ensures
        read(with_section(out, name)) == (Reading {
            done: read(out).finished(),
            name,
            props: if read(out).name.len() > 0 {
                Seq::empty()
            } else {
                read(out).props
            },
        }),
        complete(with_section(out, name)),
{
    reveal_strlit("\n");
    reveal_strlit("");
    let l = seq!['['] + name + seq![']'];
    assert(l + ""@ =~= l);
    assert(with_section(out, name) =~= with_line(out, l, ""@));
    lemma_line_is_read(out, l, ""@);
    lemma_head_line(read(out), name);
}

pub proof fn lemma_heads(out: Seq<char>, index: u16, sub: u8)
    ensures
        with_head(out, index) == with_section(out, zero_filled(hex(index as nat), 4)),
        with_sub_head(out, index, sub as int) == with_section(
            out,
            zero_filled(hex(index as nat), 4) + "sub"@ + hex(sub as nat),
        ),
        single_line(zero_filled(hex(index as nat), 4)),
        single_line(zero_filled(hex(index as nat), 4) + "sub"@ + hex(sub as nat)),
{
    reveal_strlit("[");
    reveal_strlit("]\n");
    reveal_strlit("sub");
    let idx = zero_filled(hex(index as nat), 4);
    assert(with_head(out, index) =~= with_section(out, idx));
    assert(with_sub_head(out, index, sub as int) =~= with_section(
        out,
        idx + "sub"@ + hex(sub as nat),
    ));
    lemma_four_digits(index as nat);
    lemma_hex_digits(sub as nat);
    lemma_hex_is_tight(idx);
    lemma_hex_is_tight(hex(sub as nat));
}

/// The names of the sections of objects stand on a line.
pub proof fn lemma_section_names(index: u16, sub: u8)
    ensures
        single_line(zero_filled(hex(index as nat), 4)),
        single_line(zero_filled(hex(index as nat), 4) + "sub"@ + hex(sub as nat)),
        zero_filled(hex(index as nat), 4).len() == 4,
{
    lemma_heads(Seq::empty(), index, sub);
    lemma_four_digits(index as nat);
}

pub proof fn lemma_hex_is_tight(s: Seq<char>)
    requires
        all_hex(s),
    ensures
        single_line(s),
        tight(s),
{
    assert forall|i: int| 0 <= i < s.len() implies s[i] != '\n' && !is_space(s[i]) by {
        assert(digit_value(s[i], 16) is Some);
    }
}

/// What the section of an object says, as it is written.
pub open spec fn object_props(o: EdsView) -> Seq<PropView> {
    seq![
        PropView { key: "ParameterName"@, value: o.name },
        PropView { key: "ObjectType"@, value: "0x7"@ },
        PropView { key: "DataType"@, value: "0x"@ + zero_filled(hex(eds_code(o.ty) as nat), 4) },
        PropView { key: "AccessType"@, value: access_word(o.access) },
        PropView { key: "DefaultValue"@, value: plain(o.default_value) },
        PropView {
            key: "PDOMapping"@,
            value: if o.pdo_mappable {
                "1"@
            } else {
                "0"@
            },
        },
    ]
}

/// The name and the default of an object can stand on a line.
pub open spec fn can_be_written(o: EdsView) -> bool {
    &&& single_line(o.name)
    &&& tight(o.name)
    &&& single_line(plain(o.default_value))
    &&& tight(plain(o.default_value))
}

pub proof fn lemma_words()
    ensures
        "ParameterName="@ =~= "ParameterName"@ + seq!['='],
        "DataType=0x"@ =~= "DataType"@ + seq!['='] + "0x"@,
        "ObjectType=0x7"@ =~= "ObjectType"@ + seq!['='] + "0x7"@,
        "AccessType="@ =~= "AccessType"@ + seq!['='],
        "DefaultValue="@ =~= "DefaultValue"@ + seq!['='],
        "PDOMapping="@ =~= "PDOMapping"@ + seq!['='],
        is_key("ParameterName"@),
        is_key("ObjectType"@),
        is_key("DataType"@),
        is_key("AccessType"@),
        is_key("DefaultValue"@),
        is_key("PDOMapping"@),
        ""@.len() == 0,
        "0"@ =~= seq!['0'],
        "1"@ =~= seq!['1'],
        "0x"@ =~= seq!['0', 'x'],
        "0x7"@ =~= seq!['0', 'x', '7'],
{
    reveal_strlit("ParameterName=");
    reveal_strlit("ParameterName");
    reveal_strlit("ObjectType=0x7");
    reveal_strlit("ObjectType");
    reveal_strlit("DataType=0x");
    reveal_strlit("DataType");
    reveal_strlit("AccessType=");
    reveal_strlit("AccessType");
    reveal_strlit("DefaultValue=");
    reveal_strlit("DefaultValue");
    reveal_strlit("PDOMapping=");
    reveal_strlit("PDOMapping");
    reveal_strlit("");
    reveal_strlit("0");
    reveal_strlit("1");
    reveal_strlit("0x");
    reveal_strlit("0x7");
}

proof fn lemma_access_words(access: AccessKind)
    ensures
        single_line(access_word(access)),
        tight(access_word(access)),
{
    reveal_strlit("ro");
    reveal_strlit("rw");
    reveal_strlit("wo");
    reveal_strlit("const");
}

/// The properties of an object are read as they were written.
#[verifier::spinoff_prover]
#[verifier::rlimit(40)]
proof fn lemma_object_is_read(out: Seq<char>, o: EdsView)
    requires
        complete(out),
        can_be_written(o),
    ensures
        read(with_object(out, Some(o))) == (Reading {
            props: read(out).props + object_props(o),
            ..read(out)
        }),
        complete(with_object(out, Some(o))),
{
    lemma_words();
    lemma_access_words(o.access);
    let code = zero_filled(hex(eds_code(o.ty) as nat), 4);
    lemma_four_digits(eds_code(o.ty) as nat);
    lemma_hex_is_tight(code);
    let mappable = if o.pdo_mappable {
        "1"@
    } else {
        "0"@
    };
    let a = with_line(out, "ParameterName="@, o.name);
    lemma_written_prop(out, "ParameterName="@, o.name, "ParameterName"@, o.name);
    let b = with_line(a, "ObjectType=0x7"@, ""@);
    assert("ObjectType=0x7"@ + ""@ =~= "ObjectType"@ + seq!['='] + "0x7"@);
    lemma_written_prop(a, "ObjectType=0x7"@, ""@, "ObjectType"@, "0x7"@);
    let c = with_line(b, "DataType=0x"@, code);
    assert("DataType=0x"@ + code =~= "DataType"@ + seq!['='] + ("0x"@ + code));
    lemma_written_prop(b, "DataType=0x"@, code, "DataType"@, "0x"@ + code);
    let d = with_line(c, "AccessType="@, access_word(o.access));
    lemma_written_prop(
        c,
        "AccessType="@,
        access_word(o.access),
        "AccessType"@,
        access_word(o.access),
    );
    let e = with_line(d, "DefaultValue="@, plain(o.default_value));
    lemma_written_prop(
        d,
        "DefaultValue="@,
        plain(o.default_value),
        "DefaultValue"@,
        plain(o.default_value),
    );
    let f = with_line(e, "PDOMapping="@, mappable);
    lemma_written_prop(e, "PDOMapping="@, mappable, "PDOMapping"@, mappable);
    lemma_empty_line(f);
    assert(read(f).props =~= read(out).props + object_props(o));
}

/// What is to be written about a variable: its address, name, type, access and
/// default, where it has one.
pub open spec fn told(index: u16, subindex: u8, name: Seq<char>, var: VarView) -> EdsView {
    EdsView {
        index,
        subindex,
        name,
        ty: var.ty,
        default_value: match var.default_value {
            Some(t) => t,
            None => Seq::empty(),
        },
        access: var.access,
        pdo_mappable: var.pdo_mappable,
    }
}

/// The variable that an importer makes of what is written about an object.
pub open spec fn imported(o: EdsView, overrides: Seq<(u16, usize)>) -> SubView {
    SubView {
        subindex: o.subindex,
        name: sanitized(o.name),
        var: VarView {
            ty: o.ty,
            capacity: capacity_of(overrides, o.index, o.ty),
            default_value: default_of(plain(o.default_value), eds_code(o.ty), o.ty),
            real_bits: None,
            access: if o.access == AccessKind::Const {
                AccessKind::Ro
            } else {
                o.access
            },
            pdo_mappable: o.pdo_mappable,
        },
    }
}

pub proof fn lemma_keys_differ()
    ensures
        !same_but_case("ParameterName"@, "DataType"@),
        !same_but_case("ObjectType"@, "DataType"@),
        !same_but_case("ParameterName"@, "ObjectType"@),
        !same_but_case("ParameterName"@, "AccessType"@),
        !same_but_case("ObjectType"@, "AccessType"@),
        !same_but_case("DataType"@, "AccessType"@),
        !same_but_case("ParameterName"@, "DefaultValue"@),
        !same_but_case("ObjectType"@, "DefaultValue"@),
        !same_but_case("DataType"@, "DefaultValue"@),
        !same_but_case("AccessType"@, "DefaultValue"@),
        !same_but_case("ParameterName"@, "PDOMapping"@),
        !same_but_case("ObjectType"@, "PDOMapping"@),
        !same_but_case("DataType"@, "PDOMapping"@),
        !same_but_case("AccessType"@, "PDOMapping"@),
        !same_but_case("DefaultValue"@, "PDOMapping"@),
{
    reveal_strlit("ParameterName");
    reveal_strlit("ObjectType");
    reveal_strlit("DataType");
    reveal_strlit("AccessType");
    reveal_strlit("DefaultValue");
    reveal_strlit("PDOMapping");
    assert(crate::text::folded("ObjectType"@[0]) != crate::text::folded("AccessType"@[0]));
    assert(crate::text::folded("ObjectType"@[0]) != crate::text::folded("PDOMapping"@[0]));
    assert(crate::text::folded("AccessType"@[0]) != crate::text::folded("PDOMapping"@[0]));
}

proof fn lemma_object_props(o: EdsView)
    ensures
        prop(object_props(o), "ParameterName"@) == Some(o.name),
        prop(object_props(o), "ObjectType"@) == Some("0x7"@),
        prop(object_props(o), "DataType"@) == Some(
            "0x"@ + zero_filled(hex(eds_code(o.ty) as nat), 4),
        ),
        prop(object_props(o), "AccessType"@) == Some(access_word(o.access)),
        prop(object_props(o), "DefaultValue"@) == Some(plain(o.default_value)),
        prop(object_props(o), "PDOMapping"@) == Some(
            if o.pdo_mappable {
                "1"@
            } else {
                "0"@
            },
        ),
{
    lemma_keys_differ();
    reveal_with_fuel(prop_from, 7);
}

proof fn lemma_small_numbers()
    ensures
        int_value("0"@) == Some(0int),
        int_value("1"@) == Some(1int),
        int_value("0x7"@) == Some(7int),
{
    lemma_words();
    reveal_with_fuel(digits_value, 3);
    lemma_tight_is_trimmed("0"@);
    lemma_tight_is_trimmed("1"@);
    lemma_tight_is_trimmed("0x7"@);
    assert("0x7"@.skip(2) =~= seq!['7']);
    assert(seq!['7'].drop_last() =~= Seq::<char>::empty());
    assert("0"@.drop_last() =~= Seq::<char>::empty());
    assert("1"@.drop_last() =~= Seq::<char>::empty());
}

/// A number after the mark of hexadecimal numbers is read as that number.
pub proof fn lemma_hex_value(n: nat)
    requires
        n < 0x1_0000,
    ensures
        int_value("0x"@ + zero_filled(hex(n), 4)) == Some(n as int),
        single_line("0x"@ + zero_filled(hex(n), 4)),
        tight("0x"@ + zero_filled(hex(n), 4)),
{
    lemma_words();
    let s = zero_filled(hex(n), 4);
    lemma_four_digits(n);
    lemma_hex_is_tight(s);
    let t = "0x"@ + s;
    lemma_tight_is_trimmed(t);
    assert(t.skip(2) =~= s);
}

/// The importer makes of the section of an object the object that was exported:
/// with its type, access and default, and mappable if it was.
pub proof fn lemma_object_roundtrip(o: EdsView, overrides: Seq<(u16, usize)>)
    requires
        data_type_of(o.ty) is Some,
    ensures
        variable_of(o.index, o.subindex, object_props(o), overrides) == Some(imported(o, overrides)),
        int_prop(object_props(o), "ObjectType"@) == Some(7int),
{
    lemma_object_props(o);
    lemma_small_numbers();
    lemma_hex_value(eds_code(o.ty) as nat);
    lemma_type_roundtrip(o.ty);
    lemma_access_roundtrip(o.access);
}

// ---- Files ----

/// A text is another one, or goes on with the head of a section behind it.
pub open spec fn goes_on(a: Seq<char>, b: Seq<char>) -> bool {
    b == a || exists|name: Seq<char>|
        single_line(name) && (#[trigger] with_section(a, name)).is_prefix_of(b)
}

proof fn lemma_prefix_trans(a: Seq<char>, b: Seq<char>, c: Seq<char>)
    requires
        a.is_prefix_of(b),
        b.is_prefix_of(c),
    ensures
        a.is_prefix_of(c),
{
    assert(c.subrange(0, a.len() as int) =~= b.subrange(0, a.len() as int));
}

proof fn lemma_prefix_of_sum(a: Seq<char>, b: Seq<char>)
    ensures
        a.is_prefix_of(a + b),
{
    assert((a + b).subrange(0, a.len() as int) =~= a);
}

pub proof fn lemma_goes_on_trans(a: Seq<char>, b: Seq<char>, c: Seq<char>)
    requires
        goes_on(a, b),
        goes_on(b, c),
    ensures
        goes_on(a, c),
{
    if b != a && c != b {
        let n = choose|name: Seq<char>|
            single_line(name) && (#[trigger] with_section(a, name)).is_prefix_of(b);
        let m = choose|name: Seq<char>|
            single_line(name) && (#[trigger] with_section(b, name)).is_prefix_of(c);
        lemma_prefix_of_sum(b, seq!['['] + m + seq![']', '\n']);
        assert(with_section(b, m) =~= b + (seq!['['] + m + seq![']', '\n']));
        lemma_prefix_trans(b, with_section(b, m), c);
        lemma_prefix_trans(with_section(a, n), b, c);
    }
}

proof fn lemma_line_keeps_done(r: Reading, line: Seq<char>)
    ensures
        r.done.is_prefix_of(r.line(line).done),
{
    assert(r.done.subrange(0, r.done.len() as int) =~= r.done);
    assert(r.finished().subrange(0, r.done.len() as int) =~= r.done);
}

proof fn lemma_lines_keep_done(r: Reading, text: Seq<char>)
    ensures
        r.done.is_prefix_of(r.lines(text).done),
    decreases text.len(),
{
    match find(text, seq!['\n'], 0) {
        Some(n) if 0 <= n < text.len() => {
            let next = r.line(text.take(n));
            lemma_line_keeps_done(r, text.take(n));
            lemma_lines_keep_done(next, text.skip(n + 1));
            let end = next.lines(text.skip(n + 1));
            assert(end.done.subrange(0, r.done.len() as int) =~= next.done.subrange(
                0,
                r.done.len() as int,
            ));
        },
        _ => {
            lemma_line_keeps_done(r, text);
        },
    }
}

/// A file that goes on with another section has all sections before that one.
pub proof fn lemma_sections_stay(a: Seq<char>, b: Seq<char>)
    requires
        complete(a),
        goes_on(a, b),
    ensures
        read(a).finished().is_prefix_of(sections_of(b)),
{
    reveal(read);
    let kept = read(a).finished();
    if b == a {
        assert(kept.subrange(0, kept.len() as int) =~= kept);
    } else {
        let name = choose|name: Seq<char>|
            single_line(name) && (#[trigger] with_section(a, name)).is_prefix_of(b);
        let s = with_section(a, name);
        lemma_written_head(a, name);
        let rest = b.skip(s.len() as int);
        assert(s + rest =~= b);
        lemma_lines_append(Reading::start(), s, rest);
        lemma_lines_keep_done(read(s), rest);
        let end = read(s).lines(rest);
        assert(end.finished().subrange(0, kept.len() as int) =~= kept);
    }
}

proof fn lemma_line_extends(out: Seq<char>, key: Seq<char>, value: Seq<char>)
    ensures
        out.is_prefix_of(with_line(out, key, value)),
        complete(with_line(out, key, value)),
{
    reveal_strlit("\n");
    lemma_prefix_of_sum(out, key + value + "\n"@);
    assert(with_line(out, key, value) =~= out + (key + value + "\n"@));
}

proof fn lemma_head_extends(out: Seq<char>, index: u16, sub: u8)
    ensures
        goes_on(out, with_head(out, index)),
        goes_on(out, with_sub_head(out, index, sub as int)),
        complete(with_head(out, index)),
        complete(with_sub_head(out, index, sub as int)),
        exists|name: Seq<char>|
            single_line(name) && #[trigger] with_section(out, name) == with_head(out, index),
{
    lemma_heads(out, index, sub);
    let a = zero_filled(hex(index as nat), 4);
    let b = a + "sub"@ + hex(sub as nat);
    assert(with_section(out, a).subrange(0, with_section(out, a).len() as int) =~= with_section(
        out,
        a,
    ));
    assert(with_section(out, b).subrange(0, with_section(out, b).len() as int) =~= with_section(
        out,
        b,
    ));
    assert(with_section(out, a).is_prefix_of(with_head(out, index)));
    assert(with_section(out, b).is_prefix_of(with_sub_head(out, index, sub as int)));
}

proof fn lemma_goes_on_further(a: Seq<char>, b: Seq<char>, c: Seq<char>)
    requires
        goes_on(a, b),
        b != a,
        b.is_prefix_of(c),
    ensures
        goes_on(a, c),
{
    let n = choose|name: Seq<char>|
        single_line(name) && (#[trigger] with_section(a, name)).is_prefix_of(b);
    lemma_prefix_trans(with_section(a, n), b, c);
}

proof fn lemma_object_extends(out: Seq<char>, o: Option<EdsView>)
    requires
        complete(out),
    ensures
        out.is_prefix_of(with_object(out, o)),
        complete(with_object(out, o)),
{
    assert(out.subrange(0, out.len() as int) =~= out);
    match o {
        Some(o) => {
            let a = with_line(out, "ParameterName="@, o.name);
            let b = with_line(a, "ObjectType=0x7"@, ""@);
            let c = with_line(b, "DataType=0x"@, zero_filled(hex(eds_code(o.ty) as nat), 4));
            let d = with_line(c, "AccessType="@, access_word(o.access));
            let e = with_line(d, "DefaultValue="@, plain(o.default_value));
            let m = if o.pdo_mappable {
                "1"@
            } else {
                "0"@
            };
            let f = with_line(e, "PDOMapping="@, m);
            lemma_line_extends(out, "ParameterName="@, o.name);
            lemma_line_extends(a, "ObjectType=0x7"@, ""@);
            lemma_line_extends(b, "DataType=0x"@, zero_filled(hex(eds_code(o.ty) as nat), 4));
            lemma_line_extends(c, "AccessType="@, access_word(o.access));
            lemma_line_extends(d, "DefaultValue="@, plain(o.default_value));
            lemma_line_extends(e, "PDOMapping="@, m);
            lemma_line_extends(f, ""@, ""@);
            lemma_prefix_trans(out, a, b);
            lemma_prefix_trans(out, b, c);
            lemma_prefix_trans(out, c, d);
            lemma_prefix_trans(out, d, e);
            lemma_prefix_trans(out, e, f);
            lemma_prefix_trans(out, f, with_line(f, ""@, ""@));
        },
        None => {},
    }
}

/// The section of an object behind other sections.
proof fn lemma_section_goes_on(out: Seq<char>, index: u16, sub: u8, o: Option<EdsView>)
    requires
        complete(out),
    ensures
        goes_on(out, with_object(with_head(out, index), o)),
        goes_on(out, with_object(with_sub_head(out, index, sub as int), o)),
        complete(with_object(with_head(out, index), o)),
        complete(with_object(with_sub_head(out, index, sub as int), o)),
{
    lemma_head_extends(out, index, sub);
    let h = with_head(out, index);
    let g = with_sub_head(out, index, sub as int);
    lemma_heads(out, index, sub);
    assert(h.len() > out.len() && g.len() > out.len());
    lemma_object_extends(h, o);
    lemma_object_extends(g, o);
    lemma_goes_on_further(out, h, with_object(h, o));
    lemma_goes_on_further(out, g, with_object(g, o));
}

proof fn lemma_compound_goes_on(
    out: Seq<char>,
    index: u16,
    name: Seq<char>,
    object_type: Seq<char>,
    sub_number: nat,
    highest: nat,
)
    requires
        complete(out),
    ensures
        goes_on(out, with_compound(out, index, name, object_type, sub_number, highest)),
        complete(with_compound(out, index, name, object_type, sub_number, highest)),
{
    let a = with_head(out, index);
    lemma_head_extends(out, index, 0);
    lemma_heads(out, index, 0);
    let b = with_line(a, "ParameterName="@, name);
    lemma_line_extends(a, "ParameterName="@, name);
    let c = with_line(b, "ObjectType="@, object_type);
    lemma_line_extends(b, "ObjectType="@, object_type);
    let d = with_line(c, "SubNumber="@, crate::text::decimal(sub_number));
    lemma_line_extends(c, "SubNumber="@, crate::text::decimal(sub_number));
    let e = with_line(d, ""@, ""@);
    lemma_line_extends(d, ""@, ""@);
    let f = with_sub_head(e, index, 0);
    lemma_heads(e, index, 0);
    let name0 = zero_filled(hex(index as nat), 4) + "sub"@ + hex(0);
    assert(with_section(e, name0) =~= e + (seq!['['] + name0 + seq![']', '\n']));
    lemma_prefix_of_sum(e, seq!['['] + name0 + seq![']', '\n']);
    let g = with_line(f, "ParameterName=Number of Entries"@, ""@);
    lemma_line_extends(f, "ParameterName=Number of Entries"@, ""@);
    let h = with_line(g, "ObjectType=0x7"@, ""@);
    lemma_line_extends(g, "ObjectType=0x7"@, ""@);
    let i = with_line(h, "DataType=0x0005"@, ""@);
    lemma_line_extends(h, "DataType=0x0005"@, ""@);
    let j = with_line(i, "AccessType=ro"@, ""@);
    lemma_line_extends(i, "AccessType=ro"@, ""@);
    let k = with_line(j, "DefaultValue="@, crate::text::decimal(highest));
    lemma_line_extends(j, "DefaultValue="@, crate::text::decimal(highest));
    let l = with_line(k, "PDOMapping=0"@, ""@);
    lemma_line_extends(k, "PDOMapping=0"@, ""@);
    let m = with_line(l, ""@, ""@);
    lemma_line_extends(l, ""@, ""@);
    lemma_prefix_trans(a, b, c);
    lemma_prefix_trans(a, c, d);
    lemma_prefix_trans(a, d, e);
    lemma_prefix_trans(a, e, f);
    lemma_prefix_trans(a, f, g);
    lemma_prefix_trans(a, g, h);
    lemma_prefix_trans(a, h, i);
    lemma_prefix_trans(a, i, j);
    lemma_prefix_trans(a, j, k);
    lemma_prefix_trans(a, k, l);
    lemma_prefix_trans(a, l, m);
    assert(a.len() > out.len());
    lemma_goes_on_further(out, a, m);
}

proof fn lemma_members_go_on(
    out: Seq<char>,
    index: u16,
    subs: Seq<SubView>,
    flat: Seq<EdsView>,
    k: int,
    n: int,
)
    requires
        complete(out),
        0 <= k <= n <= subs.len(),
    ensures
        goes_on(with_members(out, index, subs, flat, k), with_members(out, index, subs, flat, n)),
        complete(with_members(out, index, subs, flat, n)),
    decreases n,
{
    if n > 0 {
        let m = if k < n {
            k
        } else {
            n - 1
        };
        lemma_members_go_on(out, index, subs, flat, m, n - 1);
        let before = with_members(out, index, subs, flat, n - 1);
        let sub = subs[n - 1].subindex;
        lemma_section_goes_on(before, index, sub, eds_at(flat, index, sub, 0));
        if k < n {
            lemma_goes_on_trans(
                with_members(out, index, subs, flat, k),
                before,
                with_members(out, index, subs, flat, n),
            );
        }
    }
}

proof fn lemma_elements_go_on(out: Seq<char>, index: u16, flat: Seq<EdsView>, n: int)
    requires
        complete(out),
        0 <= n,
    ensures
        goes_on(out, with_elements(out, index, flat, n)),
        complete(with_elements(out, index, flat, n)),
    decreases n,
{
    lemma_more_elements_go_on(out, index, flat, 0, n);
}

proof fn lemma_more_elements_go_on(out: Seq<char>, index: u16, flat: Seq<EdsView>, k: int, n: int)
    requires
        complete(out),
        0 <= k <= n,
    ensures
        goes_on(with_elements(out, index, flat, k), with_elements(out, index, flat, n)),
        complete(with_elements(out, index, flat, n)),
    decreases n,
{
    if n > 0 {
        let m = if k < n {
            k
        } else {
            n - 1
        };
        lemma_more_elements_go_on(out, index, flat, m, n - 1);
        let before = with_elements(out, index, flat, n - 1);
        lemma_wide_section_goes_on(before, index, n, eds_at(flat, index, (n % 0x100) as u8, 0));
        if k < n {
            lemma_goes_on_trans(
                with_elements(out, index, flat, k),
                before,
                with_elements(out, index, flat, n),
            );
        }
    }
}

proof fn lemma_wide_section_goes_on(out: Seq<char>, index: u16, sub: int, o: Option<EdsView>)
    requires
        complete(out),
        0 <= sub,
    ensures
        goes_on(out, with_object(with_sub_head(out, index, sub), o)),
        complete(with_object(with_sub_head(out, index, sub), o)),
{
    reveal_strlit("[");
    reveal_strlit("]\n");
    reveal_strlit("sub");
    let idx = zero_filled(hex(index as nat), 4);
    let name = idx + "sub"@ + hex(sub as nat);
    lemma_four_digits(index as nat);
    lemma_hex_digits(sub as nat);
    lemma_hex_is_tight(idx);
    lemma_hex_is_tight(hex(sub as nat));
    assert(single_line(name));
    let g = with_sub_head(out, index, sub);
    assert(g =~= with_section(out, name));
    assert(g.subrange(0, g.len() as int) =~= g);
    assert(with_section(out, name).is_prefix_of(g));
    lemma_object_extends(g, o);
    assert(g.len() > out.len());
    lemma_goes_on_further(out, g, with_object(g, o));
}

proof fn lemma_entry_goes_on(out: Seq<char>, e: OdEntryView, flat: Seq<EdsView>)
    requires
        complete(out),
    ensures
        goes_on(out, with_entry(out, e, flat)),
        complete(with_entry(out, e, flat)),
{
    reveal(with_entry);
    match e.kind {
        KindView::Var(_) => {
            lemma_section_goes_on(out, e.index, 0, eds_at(flat, e.index, 0, 0));
        },
        KindView::Record(subs) => {
            let c = with_compound(
                out,
                e.index,
                e.name,
                "0x9"@,
                subs.len() + 1,
                max_sub(subs, subs.len() as int) as nat,
            );
            lemma_compound_goes_on(
                out,
                e.index,
                e.name,
                "0x9"@,
                subs.len() + 1,
                max_sub(subs, subs.len() as int) as nat,
            );
            lemma_members_go_on(c, e.index, subs, flat, 0, subs.len() as int);
            lemma_goes_on_trans(out, c, with_entry(out, e, flat));
        },
        KindView::Array(a) => {
            let c = with_compound(out, e.index, e.name, "0x8"@, a.count as nat + 1, a.count as nat);
            lemma_compound_goes_on(
                out,
                e.index,
                e.name,
                "0x8"@,
                a.count as nat + 1,
                a.count as nat,
            );
            lemma_elements_go_on(c, e.index, flat, a.count as int);
            lemma_goes_on_trans(out, c, with_entry(out, e, flat));
        },
    }
}

proof fn lemma_entries_go_on(
    out: Seq<char>,
    entries: Seq<OdEntryView>,
    flat: Seq<EdsView>,
    k: int,
    n: int,
)
    requires
        complete(out),
        0 <= k <= n <= entries.len(),
    ensures
        goes_on(with_entries(out, entries, flat, k), with_entries(out, entries, flat, n)),
        complete(with_entries(out, entries, flat, n)),
    decreases n,
{
    if n > 0 {
        let m = if k < n {
            k
        } else {
            n - 1
        };
        lemma_entries_go_on(out, entries, flat, m, n - 1);
        let before = with_entries(out, entries, flat, n - 1);
        lemma_entry_goes_on(before, entries[n - 1], flat);
        if k < n {
            lemma_goes_on_trans(
                with_entries(out, entries, flat, k),
                before,
                with_entries(out, entries, flat, n),
            );
        }
    }
}

proof fn lemma_param_goes_on(out: Seq<char>, index: u16, p: ParamView)
    requires
        complete(out),
        0 <= p.sub,
    ensures
        goes_on(out, with_param(out, index, p)),
        complete(with_param(out, index, p)),
{
    let a = with_sub_head(out, index, p.sub);
    lemma_wide_section_goes_on(out, index, p.sub, None);
    let code = zero_filled(hex(p.code as nat), 4);
    let b = with_line(a, "ParameterName="@, p.name);
    lemma_line_extends(a, "ParameterName="@, p.name);
    let c = with_line(b, "ObjectType=0x7"@, ""@);
    lemma_line_extends(b, "ObjectType=0x7"@, ""@);
    let d = with_line(c, "DataType=0x"@, code);
    lemma_line_extends(c, "DataType=0x"@, code);
    let e = with_line(d, "AccessType="@, p.access);
    lemma_line_extends(d, "AccessType="@, p.access);
    let f = with_line(e, "DefaultValue="@, p.default_value);
    lemma_line_extends(e, "DefaultValue="@, p.default_value);
    let g = if p.limited {
        with_line(f, "HighLimit=64"@, ""@)
    } else {
        f
    };
    lemma_line_extends(f, "HighLimit=64"@, ""@);
    let h = with_line(g, "PDOMapping=0"@, ""@);
    lemma_line_extends(g, "PDOMapping=0"@, ""@);
    let i = with_line(h, ""@, ""@);
    lemma_line_extends(h, ""@, ""@);
    lemma_prefix_trans(a, b, c);
    lemma_prefix_trans(a, c, d);
    lemma_prefix_trans(a, d, e);
    lemma_prefix_trans(a, e, f);
    if p.limited {
        lemma_prefix_trans(a, f, g);
    }
    lemma_prefix_trans(a, g, h);
    lemma_prefix_trans(a, h, i);
    reveal_strlit("[");
    assert(a.len() > out.len());
    lemma_goes_on_further(out, a, i);
}

pub proof fn lemma_record_head_goes_on(out: Seq<char>, index: u16, name: Seq<char>, count: nat)
    requires
        complete(out),
    ensures
        goes_on(out, with_record_head(out, index, name, count)),
        complete(with_record_head(out, index, name, count)),
{
    let a = with_head(out, index);
    lemma_head_extends(out, index, 0);
    lemma_heads(out, index, 0);
    let b = with_line(a, "ParameterName="@, name);
    lemma_line_extends(a, "ParameterName="@, name);
    let c = with_line(b, "ObjectType=0x9"@, ""@);
    lemma_line_extends(b, "ObjectType=0x9"@, ""@);
    let d = with_line(c, "SubNumber="@, crate::text::decimal(count));
    lemma_line_extends(c, "SubNumber="@, crate::text::decimal(count));
    let e = with_line(d, ""@, ""@);
    lemma_line_extends(d, ""@, ""@);
    lemma_prefix_trans(a, b, c);
    lemma_prefix_trans(a, c, d);
    lemma_prefix_trans(a, d, e);
    assert(a.len() > out.len());
    lemma_goes_on_further(out, a, e);
}

/// The records of a PDO, parameter by parameter: what stands before each
/// parameter, and the parameter.
pub open spec fn comm_params(pdo: PdoDefView) -> Seq<ParamView> {
    let front = seq![
        ParamView {
            sub: 0,
            name: "Number of Entries"@,
            code: 0x0005,
            access: "ro"@,
            default_value: "5"@,
            limited: false,
        },
        comm_row(1, "COB-ID"@, 0x0007, cob_text(pdo_cob(pdo))),
        comm_row(2, "Transmission Type"@, 0x0005, hex_text(pdo.transmission_type as nat)),
    ];
    let timer = comm_row(5, "Event Timer"@, 0x0006, hex_text(pdo.event_timer as nat));
    if pdo.direction == PdoDirection::Tpdo {
        front.push(
            comm_row(3, "Inhibit Time"@, 0x0006, hex_text(pdo.inhibit_time as nat)),
        ).push(timer)
    } else {
        front.push(timer)
    }
}

/// The parameters of the mapping record of a PDO.
pub open spec fn map_params(pdo: PdoDefView, mapped: Seq<PdoMapping>) -> Seq<ParamView> {
    seq![
        ParamView {
            sub: 0,
            name: "Number of Mapped Objects"@,
            code: 0x0005,
            access: mapping_access(pdo.mapping),
            default_value: hex_text(mapped.len()),
            limited: pdo.mapping == MappingKind::Mutable,
        },
    ] + Seq::new(
        mapping_rows(pdo.mapping, mapped.len()),
        |i: int| mapping_param(i + 1, pdo.mapping, mapped),
    )
}

/// A text with the first `n` of some parameters appended.
pub open spec fn with_params(out: Seq<char>, index: u16, params: Seq<ParamView>, n: int) -> Seq<char>
    decreases n,
{
    if n <= 0 {
        out
    } else {
        with_param(with_params(out, index, params, n - 1), index, params[n - 1])
    }
}

pub proof fn lemma_params_go_on(out: Seq<char>, index: u16, params: Seq<ParamView>, k: int, n: int)
    requires
        complete(out),
        0 <= k <= n <= params.len(),
        forall|i: int| 0 <= i < params.len() ==> (#[trigger] params[i]).sub >= 0,
    ensures
        goes_on(with_params(out, index, params, k), with_params(out, index, params, n)),
        complete(with_params(out, index, params, n)),
    decreases n,
{
    if n > 0 {
        let m = if k < n {
            k
        } else {
            n - 1
        };
        lemma_params_go_on(out, index, params, m, n - 1);
        let before = with_params(out, index, params, n - 1);
        lemma_param_goes_on(before, index, params[n - 1]);
        if k < n {
            lemma_goes_on_trans(
                with_params(out, index, params, k),
                before,
                with_params(out, index, params, n),
            );
        }
    }
}

proof fn lemma_rows_are_params(
    out: Seq<char>,
    index: u16,
    pdo: PdoDefView,
    mapped: Seq<PdoMapping>,
    n: int,
)
    requires
        0 <= n <= mapping_rows(pdo.mapping, mapped.len()),
    ensures
        with_mapping_rows(
            with_params(out, index, map_params(pdo, mapped), 1),
            index,
            pdo.mapping,
            mapped,
            n,
        ) == with_params(out, index, map_params(pdo, mapped), n + 1),
    decreases n,
{
    if n > 0 {
        lemma_rows_are_params(out, index, pdo, mapped, n - 1);
        assert(map_params(pdo, mapped)[n] == mapping_param(n, pdo.mapping, mapped));
    }
}

/// The communication parameter record of a PDO.
pub open spec fn comm_index(pdo: PdoDefView) -> u16 {
    record_at(
        match pdo.direction {
            PdoDirection::Tpdo => 0x1800,
            PdoDirection::Rpdo => 0x1400,
        },
        pdo.number,
    )
}

/// The mapping parameter record of a PDO.
pub open spec fn map_index(pdo: PdoDefView) -> u16 {
    record_at(
        match pdo.direction {
            PdoDirection::Tpdo => 0x1A00,
            PdoDirection::Rpdo => 0x1600,
        },
        pdo.number,
    )
}

/// A text with the head of the communication record of a PDO appended.
pub open spec fn with_comm_head(out: Seq<char>, pdo: PdoDefView) -> Seq<char> {
    with_record_head(
        out,
        comm_index(pdo),
        record_name(pdo.direction, pdo.number, " Communication"@),
        if pdo.direction == PdoDirection::Tpdo {
            5
        } else {
            4
        },
    )
}

/// A text with the head of the mapping record of a PDO appended.
pub open spec fn with_map_head(out: Seq<char>, pdo: PdoDefView, mapped: Seq<PdoMapping>) -> Seq<char> {
    with_record_head(
        out,
        map_index(pdo),
        record_name(pdo.direction, pdo.number, " Mapping"@),
        mapping_rows(pdo.mapping, mapped.len()) + 1,
    )
}

/// A text with the communication record of a PDO appended.
pub open spec fn with_comm(out: Seq<char>, pdo: PdoDefView) -> Seq<char> {
    with_params(
        with_comm_head(out, pdo),
        comm_index(pdo),
        comm_params(pdo),
        comm_params(pdo).len() as int,
    )
}

proof fn lemma_params_step(out: Seq<char>, index: u16, params: Seq<ParamView>, n: int)
    requires
        0 < n,
    ensures
        with_params(out, index, params, n) == with_param(
            with_params(out, index, params, n - 1),
            index,
            params[n - 1],
        ),
        with_params(out, index, params, 0) == out,
{
}

#[verifier::spinoff_prover]
#[verifier::rlimit(60)]
proof fn lemma_comm_is_params(out: Seq<char>, pdo: PdoDefView)
    ensures
        with_comm(out, pdo) == with_comm_record(out, comm_index(pdo), pdo),
{
    let head = with_comm_head(out, pdo);
    let index = comm_index(pdo);
    let params = comm_params(pdo);
    lemma_params_step(head, index, params, 1);
    lemma_params_step(head, index, params, 2);
    lemma_params_step(head, index, params, 3);
    lemma_params_step(head, index, params, 4);
    lemma_params_step(head, index, params, 5);
}

pub proof fn lemma_pdo_is_params(out: Seq<char>, pdo: PdoDefView, mapped: Seq<PdoMapping>)
    ensures
        with_pdo(out, pdo, mapped) == with_params(
            with_map_head(with_comm(out, pdo), pdo, mapped),
            map_index(pdo),
            map_params(pdo, mapped),
            map_params(pdo, mapped).len() as int,
        ),
{
    reveal(with_pdo);
    lemma_comm_is_params(out, pdo);
    let map_head = with_map_head(with_comm(out, pdo), pdo, mapped);
    lemma_params_step(map_head, map_index(pdo), map_params(pdo, mapped), 1);
    lemma_rows_are_params(
        map_head,
        map_index(pdo),
        pdo,
        mapped,
        mapping_rows(pdo.mapping, mapped.len()) as int,
    );
}

pub proof fn lemma_pdo_goes_on(out: Seq<char>, pdo: PdoDefView, mapped: Seq<PdoMapping>)
    requires
        complete(out),
    ensures
        goes_on(out, with_pdo(out, pdo, mapped)),
        complete(with_pdo(out, pdo, mapped)),
        complete(with_comm_head(out, pdo)),
        complete(with_comm(out, pdo)),
        complete(with_map_head(with_comm(out, pdo), pdo, mapped)),
        goes_on(with_comm(out, pdo), with_pdo(out, pdo, mapped)),
{
    lemma_pdo_is_params(out, pdo, mapped);
    let head = with_comm_head(out, pdo);
    let comm = with_comm(out, pdo);
    let map_head = with_map_head(comm, pdo, mapped);
    lemma_record_head_goes_on(
        out,
        comm_index(pdo),
        record_name(pdo.direction, pdo.number, " Communication"@),
        if pdo.direction == PdoDirection::Tpdo {
            5
        } else {
            4
        },
    );
    lemma_params_go_on(
        head,
        comm_index(pdo),
        comm_params(pdo),
        0,
        comm_params(pdo).len() as int,
    );
    lemma_goes_on_trans(out, head, comm);
    lemma_record_head_goes_on(
        comm,
        map_index(pdo),
        record_name(pdo.direction, pdo.number, " Mapping"@),
        mapping_rows(pdo.mapping, mapped.len()) + 1,
    );
    lemma_params_go_on(
        map_head,
        map_index(pdo),
        map_params(pdo, mapped),
        0,
        map_params(pdo, mapped).len() as int,
    );
    lemma_goes_on_trans(comm, map_head, with_pdo(out, pdo, mapped));
    lemma_goes_on_trans(out, comm, with_pdo(out, pdo, mapped));
}

pub proof fn lemma_pdos_go_on(
    out: Seq<char>,
    pdos: Seq<PdoDefView>,
    flat: Seq<FlatView>,
    k: int,
    n: int,
)
    requires
        complete(out),
        0 <= k <= n <= pdos.len(),
        with_pdos(out, pdos, flat, n) is Ok,
    ensures
        with_pdos(out, pdos, flat, k) is Ok,
        goes_on(with_pdos(out, pdos, flat, k)->Ok_0, with_pdos(out, pdos, flat, n)->Ok_0),
        complete(with_pdos(out, pdos, flat, n)->Ok_0),
    decreases n,
{
    if n > 0 {
        let m = if k < n {
            k
        } else {
            n - 1
        };
        lemma_pdos_go_on(out, pdos, flat, m, n - 1);
        let before = with_pdos(out, pdos, flat, n - 1)->Ok_0;
        let mapped = mapped_objects(
            pdos[n - 1],
            flat,
            pdos[n - 1].mappings.len() as int,
        )->Ok_0;
        lemma_pdo_goes_on(before, pdos[n - 1], mapped);
        if k < n {
            lemma_goes_on_trans(
                with_pdos(out, pdos, flat, k)->Ok_0,
                before,
                with_pdos(out, pdos, flat, n)->Ok_0,
            );
        }
    }
}

pub proof fn lemma_server_goes_on(out: Seq<char>, s: SdoServerDef)
    requires
        complete(out),
    ensures
        goes_on(out, with_server(out, s)),
        complete(with_server(out, s)),
{
    reveal(with_server);
    let index = record_at(0x1200, s.number);
    let a = with_record_head(out, index, "SDO Server Parameter"@, 3);
    lemma_record_head_goes_on(out, index, "SDO Server Parameter"@, 3);
    let p0 = server_row(0, "Number of Entries"@, 0x0005, "2"@);
    let p1 = server_row(1, "COB-ID Client to Server"@, 0x0007, cob_text(s.cob_rx));
    let p2 = server_row(2, "COB-ID Server to Client"@, 0x0007, cob_text(s.cob_tx));
    let b = with_param(a, index, p0);
    lemma_param_goes_on(a, index, p0);
    let c = with_param(b, index, p1);
    lemma_param_goes_on(b, index, p1);
    let d = with_param(c, index, p2);
    lemma_param_goes_on(c, index, p2);
    lemma_goes_on_trans(out, a, b);
    lemma_goes_on_trans(out, b, c);
    lemma_goes_on_trans(out, c, d);
}

pub proof fn lemma_servers_go_on(out: Seq<char>, servers: Seq<SdoServerDef>, n: int)
    requires
        complete(out),
        0 <= n <= servers.len(),
    ensures
        goes_on(out, with_servers(out, servers, n)),
        complete(with_servers(out, servers, n)),
    decreases n,
{
    lemma_more_servers_go_on(out, servers, 0, n);
}

pub proof fn lemma_more_servers_go_on(out: Seq<char>, servers: Seq<SdoServerDef>, k: int, n: int)
    requires
        complete(out),
        0 <= k <= n <= servers.len(),
    ensures
        goes_on(with_servers(out, servers, k), with_servers(out, servers, n)),
        complete(with_servers(out, servers, n)),
    decreases n,
{
    if n > 0 {
        let m = if k < n {
            k
        } else {
            n - 1
        };
        lemma_more_servers_go_on(out, servers, m, n - 1);
        let before = with_servers(out, servers, n - 1);
        lemma_server_goes_on(before, servers[n - 1]);
        if k < n {
            lemma_goes_on_trans(
                with_servers(out, servers, k),
                before,
                with_servers(out, servers, n),
            );
        }
    }
}

proof fn lemma_index_rows(out: Seq<char>, indices: Seq<u16>, n: int)
    requires
        complete(out),
    ensures
        complete(with_index_rows(out, indices, n)),
        out.is_prefix_of(with_index_rows(out, indices, n)),
    decreases n,
{
    reveal_strlit("\n");
    assert(out.subrange(0, out.len() as int) =~= out);
    if 0 < n <= indices.len() {
        lemma_index_rows(out, indices, n - 1);
        let before = with_index_rows(out, indices, n - 1);
        let row = crate::text::decimal(n as nat) + "=0x"@ + zero_filled(
            hex(indices[n - 1] as nat),
            4,
        ) + "\n"@;
        assert(with_index_rows(out, indices, n) =~= before + row);
        lemma_prefix_of_sum(before, row);
        lemma_prefix_trans(out, before, with_index_rows(out, indices, n));
    }
}

proof fn lemma_index_list(out: Seq<char>, section: Seq<char>, indices: Seq<u16>)
    requires
        complete(out),
    ensures
        complete(with_index_list(out, section, indices)),
        out.is_prefix_of(with_index_list(out, section, indices)),
{
    reveal_strlit("]\n");
    let a = out + "["@ + section + "]\n"@;
    assert(a =~= out + ("["@ + section + "]\n"@));
    lemma_prefix_of_sum(out, "["@ + section + "]\n"@);
    let b = with_line(a, "SupportedObjects="@, crate::text::decimal(indices.len()));
    lemma_line_extends(a, "SupportedObjects="@, crate::text::decimal(indices.len()));
    let c = with_index_rows(b, indices, indices.len() as int);
    lemma_index_rows(b, indices, indices.len() as int);
    let d = with_line(c, ""@, ""@);
    lemma_line_extends(c, ""@, ""@);
    lemma_prefix_trans(out, a, b);
    lemma_prefix_trans(out, b, c);
    lemma_prefix_trans(out, c, d);
}

/// Once a section has a name, every later one has, unless brackets are empty.
proof fn lemma_named(a: Seq<char>, b: Seq<char>)
    requires
        complete(a),
        a.is_prefix_of(b),
        read(a).name.len() > 0,
        no_empty_head(b),
    ensures
        read(b).name.len() > 0,
{
    reveal(read);
    let rest = b.skip(a.len() as int);
    assert forall|i: int| 0 <= i < rest.len() - 1 implies !(rest[i] == '[' && #[trigger] rest[i + 1]
        == ']') by {
        assert(rest[i + 1] == b[(i + a.len()) + 1]);
        assert(rest[i] == b[i + a.len()]);
    }
    assert(a + rest =~= b);
    lemma_lines_append(Reading::start(), a, rest);
    lemma_lines_stay_named(read(a), rest);
}

/// A text without an empty pair of brackets.
pub open spec fn no_empty_head(text: Seq<char>) -> bool {
    forall|i: int| 0 <= i < text.len() - 1 ==> !(text[i] == '[' && #[trigger] text[i + 1] == ']')
}

proof fn lemma_trimmed_start_part(s: Seq<char>)
    requires
        no_empty_head(s),
    ensures
        no_empty_head(trimmed_start(s)),
    decreases s.len(),
{
    if s.len() > 0 && is_space(s[0]) {
        let t = s.skip(1);
        assert forall|i: int| 0 <= i < t.len() - 1 implies !(t[i] == '[' && #[trigger] t[i + 1]
            == ']') by {
            assert(t[i + 1] == s[(i + 1) + 1]);
            assert(t[i] == s[i + 1]);
        }
        lemma_trimmed_start_part(t);
    }
}

proof fn lemma_trimmed_end_part(s: Seq<char>)
    requires
        no_empty_head(s),
    ensures
        no_empty_head(trimmed_end(s)),
    decreases s.len(),
{
    if s.len() > 0 && is_space(s.last()) {
        let t = s.drop_last();
        assert forall|i: int| 0 <= i < t.len() - 1 implies !(t[i] == '[' && #[trigger] t[i + 1]
            == ']') by {
            assert(t[i + 1] == s[i + 1]);
        }
        lemma_trimmed_end_part(t);
    }
}

proof fn lemma_line_stays_named(r: Reading, line: Seq<char>)
    requires
        r.name.len() > 0,
        no_empty_head(line),
    ensures
        r.line(line).name.len() > 0,
{
    lemma_trimmed_start_part(line);
    lemma_trimmed_end_part(trimmed_start(line));
    let t = trimmed(line);
    if t.len() == 2 && t[0] == '[' && t.last() == ']' {
        let i: int = 0;
        assert(t[i + 1] == ']');
    }
}

proof fn lemma_lines_stay_named(r: Reading, text: Seq<char>)
    requires
        r.name.len() > 0,
        no_empty_head(text),
    ensures
        r.lines(text).name.len() > 0,
    decreases text.len(),
{
    match find(text, seq!['\n'], 0) {
        Some(n) if 0 <= n < text.len() => {
            let l = text.take(n);
            let rest = text.skip(n + 1);
            assert forall|i: int| 0 <= i < l.len() - 1 implies !(l[i] == '[' && #[trigger] l[i + 1]
                == ']') by {
                assert(l[i + 1] == text[i + 1]);
            }
            assert forall|i: int| 0 <= i < rest.len() - 1 implies !(rest[i] == '['
                && #[trigger] rest[i + 1] == ']') by {
                assert(rest[i + 1] == text[(i + n + 1) + 1]);
                assert(rest[i] == text[i + n + 1]);
            }
            lemma_line_stays_named(r, l);
            lemma_lines_stay_named(r.line(l), rest);
        },
        _ => {
            lemma_line_stays_named(r, text);
        },
    }
}

/// A text with a first section has a name for it.
proof fn lemma_first_section(title: Seq<char>)
    requires
        title.len() > 0,
        single_line(title),
    ensures
        read(with_line(Seq::empty(), seq!['['] + title + seq![']'], ""@)).name.len() > 0,
        complete(with_line(Seq::empty(), seq!['['] + title + seq![']'], ""@)),
{
    reveal_strlit("\n");
    reveal_strlit("");
    lemma_written_head(Seq::empty(), title);
    assert(with_line(Seq::empty(), seq!['['] + title + seq![']'], ""@) =~= with_section(
        Seq::empty(),
        title,
    ));
}

/// What stands before the lists of objects.
spec fn title_of(od: DefinitionView) -> Seq<char> {
    let a = with_line(Seq::empty(), "[FileInfo]"@, ""@);
    let b = a + "FileName="@ + od.name + ".eds\n"@;
    let c = with_line(b, "FileVersion=1"@, ""@);
    let d = with_line(c, "CreatedBy=canopen-rs (object_dictionary! macro)"@, ""@);
    let e = with_line(d, ""@, ""@);
    let f = with_line(e, "[DeviceInfo]"@, ""@);
    let g = with_line(f, "VendorName="@, ""@);
    let h = with_line(g, "ProductName="@, od.name);
    with_line(h, ""@, ""@)
}

proof fn lemma_title(od: DefinitionView)
    ensures
        read(with_line(Seq::empty(), "[FileInfo]"@, ""@)).name.len() > 0,
        complete(with_line(Seq::empty(), "[FileInfo]"@, ""@)),
        with_line(Seq::empty(), "[FileInfo]"@, ""@).is_prefix_of(title_of(od)),
        complete(title_of(od)),
{
    reveal_strlit("[FileInfo]");
    let title = seq!['F', 'i', 'l', 'e', 'I', 'n', 'f', 'o'];
    assert("[FileInfo]"@ =~= seq!['['] + title + seq![']']);
    lemma_first_section(title);
    let a = with_line(Seq::empty(), "[FileInfo]"@, ""@);
    let b = a + "FileName="@ + od.name + ".eds\n"@;
    assert(b =~= a + ("FileName="@ + od.name + ".eds\n"@));
    lemma_prefix_of_sum(a, "FileName="@ + od.name + ".eds\n"@);
    reveal_strlit(".eds\n");
    let c = with_line(b, "FileVersion=1"@, ""@);
    lemma_line_extends(b, "FileVersion=1"@, ""@);
    let d = with_line(c, "CreatedBy=canopen-rs (object_dictionary! macro)"@, ""@);
    lemma_line_extends(c, "CreatedBy=canopen-rs (object_dictionary! macro)"@, ""@);
    let e = with_line(d, ""@, ""@);
    lemma_line_extends(d, ""@, ""@);
    let f = with_line(e, "[DeviceInfo]"@, ""@);
    lemma_line_extends(e, "[DeviceInfo]"@, ""@);
    let g = with_line(f, "VendorName="@, ""@);
    lemma_line_extends(f, "VendorName="@, ""@);
    let h = with_line(g, "ProductName="@, od.name);
    lemma_line_extends(g, "ProductName="@, od.name);
    let i = with_line(h, ""@, ""@);
    lemma_line_extends(h, ""@, ""@);
    lemma_prefix_trans(a, b, c);
    lemma_prefix_trans(a, c, d);
    lemma_prefix_trans(a, d, e);
    lemma_prefix_trans(a, e, f);
    lemma_prefix_trans(a, f, g);
    lemma_prefix_trans(a, g, h);
    lemma_prefix_trans(a, h, i);
}

#[verifier::spinoff_prover]
#[verifier::rlimit(60)]
proof fn lemma_preamble_is_complete(od: DefinitionView)
    ensures
        complete(preamble(od)),
        no_empty_head(preamble(od)) ==> read(preamble(od)).name.len() > 0,
{
    let user = sorted(entry_indices(od.entries));
    let optional = sorted(record_indices(od.pdos, od.sdo_servers));
    let a = with_line(Seq::empty(), "[FileInfo]"@, ""@);
    let i = title_of(od);
    lemma_title(od);
    assert(preamble(od) == lists_after(i, user, optional)) by {
        reveal(preamble);
    }
    lemma_lists(i, user, optional);
    lemma_prefix_trans(a, i, preamble(od));
    if no_empty_head(preamble(od)) {
        lemma_named(a, preamble(od));
    }
}

/// A text with the lists of objects appended.
spec fn lists_after(i: Seq<char>, user: Seq<u16>, optional: Seq<u16>) -> Seq<char> {
    let j = with_index_list(i, "MandatoryObjects"@, between(user, 0, 0x2000));
    let k = with_index_list(j, "OptionalObjects"@, optional);
    let l = with_index_list(k, "ManufacturerObjects"@, between(user, 0x2000, 0x6000));
    let standard = between(user, 0x6000, 0x1_0000);
    if standard.len() > 0 {
        with_index_list(l, "StandardizedObjects"@, standard)
    } else {
        l
    }
}

proof fn lemma_lists(i: Seq<char>, user: Seq<u16>, optional: Seq<u16>)
    requires
        complete(i),
    ensures
        complete(lists_after(i, user, optional)),
        i.is_prefix_of(lists_after(i, user, optional)),
{
    let j = with_index_list(i, "MandatoryObjects"@, between(user, 0, 0x2000));
    lemma_index_list(i, "MandatoryObjects"@, between(user, 0, 0x2000));
    let k = with_index_list(j, "OptionalObjects"@, optional);
    lemma_index_list(j, "OptionalObjects"@, optional);
    let l = with_index_list(k, "ManufacturerObjects"@, between(user, 0x2000, 0x6000));
    lemma_index_list(k, "ManufacturerObjects"@, between(user, 0x2000, 0x6000));
    let m = with_index_list(l, "StandardizedObjects"@, between(user, 0x6000, 0x1_0000));
    lemma_index_list(l, "StandardizedObjects"@, between(user, 0x6000, 0x1_0000));
    lemma_prefix_trans(i, j, k);
    lemma_prefix_trans(i, k, l);
    lemma_prefix_trans(i, l, m);
}

// ---- Whole files ----

proof fn lemma_goes_on_is_prefix(a: Seq<char>, b: Seq<char>)
    requires
        goes_on(a, b),
    ensures
        a.is_prefix_of(b),
{
    if b == a {
        assert(a.subrange(0, a.len() as int) =~= a);
    } else {
        let n = choose|name: Seq<char>|
            single_line(name) && (#[trigger] with_section(a, name)).is_prefix_of(b);
        let tail = seq!['['] + n + seq![']', '\n'];
        assert(with_section(a, n) =~= a + tail);
        lemma_prefix_of_sum(a, tail);
        lemma_prefix_trans(a, with_section(a, n), b);
    }
}

/// What was written before a part of a file has a name for its section.
pub proof fn lemma_named_before(start: Seq<char>, part: Seq<char>, text: Seq<char>)
    requires
        complete(start),
        no_empty_head(text),
        goes_on(start, part),
        goes_on(part, text),
        no_empty_head(start) ==> read(start).name.len() > 0,
    ensures
        read(part).name.len() > 0,
{
    lemma_goes_on_is_prefix(start, part);
    lemma_goes_on_is_prefix(part, text);
    lemma_prefix_trans(start, part, text);
    assert forall|i: int| 0 <= i < start.len() - 1 implies !(start[i] == '['
        && #[trigger] start[i + 1] == ']') by {
        assert(start[i + 1] == text[i + 1] && start[i] == text[i]);
    }
    assert forall|i: int| 0 <= i < part.len() - 1 implies !(part[i] == '[' && #[trigger] part[i + 1]
        == ']') by {
        assert(part[i + 1] == text[i + 1] && part[i] == text[i]);
    }
    lemma_named(start, part);
}

/// A section of an object that a file goes on after is in the file.
proof fn lemma_section_is_in_file(
    before: Seq<char>,
    name: Seq<char>,
    o: EdsView,
    text: Seq<char>,
) -> (j: int)
    requires
        complete(before),
        single_line(name),
        name.len() > 0,
        read(before).name.len() > 0,
        can_be_written(o),
        goes_on(with_object(with_section(before, name), Some(o)), text),
    ensures
        0 <= j < sections_of(text).len(),
        sections_of(text)[j] == (SectionView { name, props: object_props(o) }),
{
    let h = with_section(before, name);
    lemma_written_head(before, name);
    lemma_object_is_read(h, o);
    let s = with_object(h, Some(o));
    assert(read(s).props =~= object_props(o));
    lemma_sections_stay(s, text);
    let kept = read(s).finished();
    let j = kept.len() - 1;
    assert(kept[j] == sections_of(text).subrange(0, kept.len() as int)[j]);
    j
}

/// Where an exported file stands before an entry.
pub open spec fn before_entry(od: DefinitionView, k: int) -> Seq<char> {
    with_entries(preamble(od), od.entries, eds_objects(od.entries), k)
}

pub proof fn lemma_file_goes_on(od: DefinitionView, text: Seq<char>, k: int)
    requires
        eds_text(od) == Ok::<Seq<char>, ErrorView>(text),
        no_empty_head(text),
        0 <= k <= od.entries.len(),
    ensures
        complete(before_entry(od, k)),
        goes_on(before_entry(od, k), text),
        read(before_entry(od, k)).name.len() > 0,
{
    let start = preamble(od);
    let flat = eds_objects(od.entries);
    let n = od.entries.len() as int;
    lemma_preamble_is_complete(od);
    lemma_entries_go_on(start, od.entries, flat, k, n);
    lemma_entries_go_on(start, od.entries, flat, 0, k);
    let objects = with_entries(start, od.entries, flat, n);
    lemma_pdos_go_on(objects, od.pdos, variables(od.entries), 0, od.pdos.len() as int);
    let pdos = with_pdos(
        objects,
        od.pdos,
        variables(od.entries),
        od.pdos.len() as int,
    )->Ok_0;
    lemma_servers_go_on(pdos, od.sdo_servers, od.sdo_servers.len() as int);
    lemma_goes_on_trans(before_entry(od, k), objects, pdos);
    lemma_goes_on_trans(before_entry(od, k), pdos, text);
    lemma_named_before(start, before_entry(od, k), text);
}

proof fn lemma_eds_at(flat: Seq<EdsView>, o: EdsView, p: int, from: int)
    requires
        0 <= from <= p < flat.len(),
        flat[p] == o,
        forall|i: int|
            0 <= i < flat.len() && (#[trigger] flat[i]).index == o.index && flat[i].subindex
                == o.subindex ==> flat[i] == o,
    ensures
        eds_at(flat, o.index, o.subindex, from) == Some(o),
    decreases p - from,
{
    if flat[from].index == o.index && flat[from].subindex == o.subindex {
    } else {
        lemma_eds_at(flat, o, p, from + 1);
    }
}

proof fn lemma_objects_of_entries(entries: Seq<OdEntryView>, p: int) -> (k: int)
    requires
        0 <= p < eds_objects(entries).len(),
    ensures
        0 <= k < entries.len(),
        eds_objects_of(entries[k]).contains(eds_objects(entries)[p]),
    decreases entries.len(),
{
    let front = eds_objects(entries.drop_last());
    let last = eds_objects_of(entries.last());
    if p < front.len() {
        lemma_objects_of_entries(entries.drop_last(), p)
    } else {
        assert((front + last)[p] == last[p - front.len()]);
        entries.len() - 1
    }
}

proof fn lemma_object_is_listed(entries: Seq<OdEntryView>, k: int, o: EdsView) -> (p: int)
    requires
        0 <= k < entries.len(),
        eds_objects_of(entries[k]).contains(o),
    ensures
        0 <= p < eds_objects(entries).len(),
        eds_objects(entries)[p] == o,
    decreases entries.len(),
{
    let front = eds_objects(entries.drop_last());
    let last = eds_objects_of(entries.last());
    if k < entries.len() - 1 {
        let p = lemma_object_is_listed(entries.drop_last(), k, o);
        assert((front + last)[p] == front[p]);
        p
    } else {
        let q = choose|q: int| 0 <= q < last.len() && last[q] == o;
        assert((front + last)[front.len() + q] == last[q]);
        front.len() + q
    }
}

/// No two objects of an entry have one address.
pub open spec fn members_differ(e: OdEntryView) -> bool {
    match e.kind {
        KindView::Var(_) => true,
        KindView::Record(subs) => forall|i: int, j: int|
            0 <= i < j < subs.len() ==> (#[trigger] subs[i]).subindex != (
            #[trigger] subs[j]).subindex,
        KindView::Array(a) => a.count <= 255,
    }
}

/// No two objects of a definition have one address, as far as one entry is
/// concerned.
pub open spec fn stands_alone(od: DefinitionView, k: int) -> bool {
    &&& members_differ(od.entries[k])
    &&& forall|i: int|
        0 <= i < od.entries.len() && i != k ==> (#[trigger] od.entries[i]).index
            != od.entries[k].index
}

proof fn lemma_object_is_found(od: DefinitionView, k: int, o: EdsView)
    requires
        0 <= k < od.entries.len(),
        stands_alone(od, k),
        eds_objects_of(od.entries[k]).contains(o),
    ensures
        eds_at(eds_objects(od.entries), o.index, o.subindex, 0) == Some(o),
        o.index == od.entries[k].index,
{
    let flat = eds_objects(od.entries);
    let e = od.entries[k];
    let p = lemma_object_is_listed(od.entries, k, o);
    assert forall|i: int|
        0 <= i < flat.len() && (#[trigger] flat[i]).index == o.index && flat[i].subindex
            == o.subindex implies flat[i] == o by {
        let m = lemma_objects_of_entries(od.entries, i);
        let f = od.entries[m];
        let q = choose|q: int|
            0 <= q < eds_objects_of(f).len() && eds_objects_of(f)[q] == flat[i];
        let r = choose|r: int| 0 <= r < eds_objects_of(e).len() && eds_objects_of(e)[r] == o;
        assert(eds_objects_of(f)[q].index == f.index);
        assert(eds_objects_of(e)[r].index == e.index);
        assert(m == k);
        match e.kind {
            KindView::Var(_) => {},
            KindView::Record(subs) => {
                assert(subs[q].subindex == subs[r].subindex);
            },
            KindView::Array(a) => {
                assert(q == r);
            },
        }
    }
    lemma_eds_at(flat, o, p, 0);
    let r = choose|r: int| 0 <= r < eds_objects_of(e).len() && eds_objects_of(e)[r] == o;
    assert(eds_objects_of(e)[r].index == e.index);
}

/// The section of a variable is in the exported file.
proof fn lemma_variable_is_in_file(od: DefinitionView, text: Seq<char>, k: int, o: EdsView) -> (j:
    int)
    requires
        eds_text(od) == Ok::<Seq<char>, ErrorView>(text),
        no_empty_head(text),
        0 <= k < od.entries.len(),
        stands_alone(od, k),
        od.entries[k].kind matches KindView::Var(var) && o == told(
            od.entries[k].index,
            0,
            od.entries[k].name,
            var,
        ),
        can_be_written(o),
    ensures
        0 <= j < sections_of(text).len(),
        sections_of(text)[j] == (SectionView {
            name: zero_filled(hex(o.index as nat), 4),
            props: object_props(o),
        }),
{
    let e = od.entries[k];
    let flat = eds_objects(od.entries);
    reveal_strlit("");
    assert(""@ =~= Seq::<char>::empty());
    assert(eds_objects_of(e)[0] == o);
    assert(eds_objects_of(e).contains(o));
    lemma_object_is_found(od, k, o);
    let before = before_entry(od, k);
    lemma_file_goes_on(od, text, k);
    lemma_file_goes_on(od, text, k + 1);
    reveal(with_entry);
    lemma_heads(before, o.index, 0);
    lemma_section_names(o.index, 0);
    assert(before_entry(od, k + 1) == with_entry(before, e, flat));
    lemma_section_is_in_file(before, zero_filled(hex(o.index as nat), 4), o, text)
}

/// A variable of a definition that is exported is found in the file at its
/// index, with its type, access and default, and mappable if it was: importing
/// undoes exporting. Constants come back as read-only.
pub proof fn lemma_exported_variable_is_imported(
    od: DefinitionView,
    text: Seq<char>,
    overrides: Seq<(u16, usize)>,
    k: int,
    o: EdsView,
)
    requires
        eds_text(od) == Ok::<Seq<char>, ErrorView>(text),
        no_empty_head(text),
        eds_content(text, overrides) is Ok,
        0 <= k < od.entries.len(),
        stands_alone(od, k),
        od.entries[k].kind matches KindView::Var(var) && o == told(
            od.entries[k].index,
            0,
            od.entries[k].name,
            var,
        ),
        can_be_written(o),
        data_type_of(o.ty) is Some,
        o.index >= 0x1000,
    ensures
        variable_at(sections_of(text), overrides, o.index, None) == Some(imported(o, overrides)),
        object_type(sections_of(text), o.index) == Some(7int),
{
    let sections = sections_of(text);
    let j = lemma_variable_is_in_file(od, text, k, o);
    lemma_object_name(o.index);
    lemma_object_roundtrip(o, overrides);
    let addresses = addresses_of(sections);
    assert(addresses[j] == Some((o.index, None::<u8>)));
    lemma_section_for(addresses, (o.index, None), 0, j);
    lemma_eds_sections_are_distinct(text, overrides);
    lemma_section_for_address(addresses, (o.index, None), 0);
}

proof fn lemma_section_for_address(
    addresses: Seq<Option<(u16, Option<u8>)>>,
    a: (u16, Option<u8>),
    from: int,
)
    requires
        0 <= from,
    ensures
        section_for(addresses, a, from) matches Some(j) ==> 0 <= j < addresses.len()
            && addresses[j] == Some(a),
    decreases addresses.len() - from,
{
    if from < addresses.len() && addresses[from] != Some(a) {
        lemma_section_for_address(addresses, a, from + 1);
    }
}

/// The section of a member of a record is in the exported file.
proof fn lemma_member_is_in_file(
    od: DefinitionView,
    text: Seq<char>,
    k: int,
    subs: Seq<SubView>,
    m: int,
    o: EdsView,
) -> (j: int)
    requires
        eds_text(od) == Ok::<Seq<char>, ErrorView>(text),
        no_empty_head(text),
        0 <= k < od.entries.len(),
        stands_alone(od, k),
        od.entries[k].kind == KindView::Record(subs),
        0 <= m < subs.len(),
        o == told(od.entries[k].index, subs[m].subindex, subs[m].name, subs[m].var),
        can_be_written(o),
    ensures
        0 <= j < sections_of(text).len(),
        sections_of(text)[j] == (SectionView {
            name: zero_filled(hex(o.index as nat), 4) + "sub"@ + hex(o.subindex as nat),
            props: object_props(o),
        }),
{
    let e = od.entries[k];
    let flat = eds_objects(od.entries);
    reveal_strlit("");
    assert(""@ =~= Seq::<char>::empty());
    assert(eds_objects_of(e)[m] == o);
    assert(eds_objects_of(e).contains(o));
    lemma_object_is_found(od, k, o);
    let before = before_entry(od, k);
    lemma_file_goes_on(od, text, k);
    lemma_file_goes_on(od, text, k + 1);
    reveal(with_entry);
    let c = with_compound(
        before,
        e.index,
        e.name,
        "0x9"@,
        subs.len() + 1,
        max_sub(subs, subs.len() as int) as nat,
    );
    lemma_compound_goes_on(
        before,
        e.index,
        e.name,
        "0x9"@,
        subs.len() + 1,
        max_sub(subs, subs.len() as int) as nat,
    );
    let n = subs.len() as int;
    let here = with_members(c, e.index, subs, flat, m);
    let next = with_members(c, e.index, subs, flat, m + 1);
    lemma_members_go_on(c, e.index, subs, flat, 0, m);
    lemma_members_go_on(c, e.index, subs, flat, m, n);
    lemma_members_go_on(c, e.index, subs, flat, m + 1, n);
    assert(before_entry(od, k + 1) == with_members(c, e.index, subs, flat, n));
    lemma_goes_on_trans(before, c, here);
    lemma_goes_on_trans(here, before_entry(od, k + 1), text);
    lemma_goes_on_trans(next, before_entry(od, k + 1), text);
    lemma_named_before(before, here, text);
    lemma_heads(here, o.index, o.subindex);
    lemma_section_names(o.index, o.subindex);
    let name = zero_filled(hex(o.index as nat), 4) + "sub"@ + hex(o.subindex as nat);
    lemma_section_is_in_file(here, name, o, text)
}

/// The same holds of the members of records.
pub proof fn lemma_exported_member_is_imported(
    od: DefinitionView,
    text: Seq<char>,
    overrides: Seq<(u16, usize)>,
    k: int,
    subs: Seq<SubView>,
    m: int,
    o: EdsView,
)
    requires
        eds_text(od) == Ok::<Seq<char>, ErrorView>(text),
        no_empty_head(text),
        eds_content(text, overrides) is Ok,
        0 <= k < od.entries.len(),
        stands_alone(od, k),
        od.entries[k].kind == KindView::Record(subs),
        0 <= m < subs.len(),
        o == told(od.entries[k].index, subs[m].subindex, subs[m].name, subs[m].var),
        can_be_written(o),
        data_type_of(o.ty) is Some,
    ensures
        variable_at(sections_of(text), overrides, o.index, Some(o.subindex)) == Some(
            imported(o, overrides),
        ),
{
    let sections = sections_of(text);
    let j = lemma_member_is_in_file(od, text, k, subs, m, o);
    lemma_sub_object_name(o.index, o.subindex);
    lemma_object_roundtrip(o, overrides);
    let addresses = addresses_of(sections);
    assert(addresses[j] == Some((o.index, Some(o.subindex))));
    lemma_section_for(addresses, (o.index, Some(o.subindex)), 0, j);
    lemma_eds_sections_are_distinct(text, overrides);
    lemma_section_for_address(addresses, (o.index, Some(o.subindex)), 0);
}

/// The section of an element of an array is in the exported file.
proof fn lemma_element_is_in_file(
    od: DefinitionView,
    text: Seq<char>,
    k: int,
    a: ArrayView,
    m: int,
    o: EdsView,
) -> (j: int)
    requires
        eds_text(od) == Ok::<Seq<char>, ErrorView>(text),
        no_empty_head(text),
        0 <= k < od.entries.len(),
        stands_alone(od, k),
        od.entries[k].kind == KindView::Array(a),
        1 <= m <= a.count,
        o == element_told(od.entries[k].index, m as u8, od.entries[k].name, a),
        can_be_written(o),
    ensures
        0 <= j < sections_of(text).len(),
        sections_of(text)[j] == (SectionView {
            name: zero_filled(hex(o.index as nat), 4) + "sub"@ + hex(o.subindex as nat),
            props: object_props(o),
        }),
{
    let e = od.entries[k];
    let flat = eds_objects(od.entries);
    reveal_strlit("0");
    assert("0"@ =~= seq!['0']);
    assert(eds_objects_of(e)[m - 1] == o);
    assert(eds_objects_of(e).contains(o));
    lemma_object_is_found(od, k, o);
    let before = before_entry(od, k);
    lemma_file_goes_on(od, text, k);
    lemma_file_goes_on(od, text, k + 1);
    reveal(with_entry);
    let n = a.count as int;
    let c = with_compound(before, e.index, e.name, "0x8"@, (n + 1) as nat, n as nat);
    lemma_compound_goes_on(before, e.index, e.name, "0x8"@, (n + 1) as nat, n as nat);
    let here = with_elements(c, e.index, flat, m - 1);
    let next = with_elements(c, e.index, flat, m);
    lemma_more_elements_go_on(c, e.index, flat, 0, m - 1);
    lemma_more_elements_go_on(c, e.index, flat, m - 1, n);
    lemma_more_elements_go_on(c, e.index, flat, m, n);
    assert(before_entry(od, k + 1) == with_elements(c, e.index, flat, n));
    lemma_goes_on_trans(before, c, here);
    lemma_goes_on_trans(here, before_entry(od, k + 1), text);
    lemma_goes_on_trans(next, before_entry(od, k + 1), text);
    lemma_named_before(before, here, text);
    lemma_heads(here, o.index, o.subindex);
    lemma_section_names(o.index, o.subindex);
    let name = zero_filled(hex(o.index as nat), 4) + "sub"@ + hex(o.subindex as nat);
    lemma_section_is_in_file(here, name, o, text)
}

/// What is to be written about an element of an array: its address, the name,
/// type and access of the array, and zero.
pub open spec fn element_told(index: u16, subindex: u8, name: Seq<char>, a: ArrayView) -> EdsView {
    EdsView {
        index,
        subindex,
        name,
        ty: a.element_type,
        default_value: seq!['0'],
        access: a.access,
        pdo_mappable: a.pdo_mappable,
    }
}

/// The same holds of the elements of arrays, which are counted from 1.
pub proof fn lemma_exported_element_is_imported(
    od: DefinitionView,
    text: Seq<char>,
    overrides: Seq<(u16, usize)>,
    k: int,
    a: ArrayView,
    m: int,
    o: EdsView,
)
    requires
        eds_text(od) == Ok::<Seq<char>, ErrorView>(text),
        no_empty_head(text),
        eds_content(text, overrides) is Ok,
        0 <= k < od.entries.len(),
        stands_alone(od, k),
        od.entries[k].kind == KindView::Array(a),
        1 <= m <= a.count,
        o == element_told(od.entries[k].index, m as u8, od.entries[k].name, a),
        can_be_written(o),
        data_type_of(o.ty) is Some,
    ensures
        variable_at(sections_of(text), overrides, o.index, Some(o.subindex)) == Some(
            imported(o, overrides),
        ),
{
    let sections = sections_of(text);
    let j = lemma_element_is_in_file(od, text, k, a, m, o);
    lemma_sub_object_name(o.index, o.subindex);
    lemma_object_roundtrip(o, overrides);
    let addresses = addresses_of(sections);
    assert(addresses[j] == Some((o.index, Some(o.subindex))));
    lemma_section_for(addresses, (o.index, Some(o.subindex)), 0, j);
    lemma_eds_sections_are_distinct(text, overrides);
    lemma_section_for_address(addresses, (o.index, Some(o.subindex)), 0);
}

} // verus!
