//! What literals, names and mapped fields of a definition stand for.

use crate::datatypes::DataType;
use crate::dcf::low_bytes;
use crate::dcf_laws::{byte_limit, lemma_bytes_of_number, lemma_digits_are_digits, number_of_bytes};
use crate::dictionary::codegen::{addresses, const_name};
use crate::dictionary::definition::{data_type_of, variant_name, FieldView, PdoDefView};
use crate::dictionary::device::{int_of, span, unsigned_of};
use crate::dictionary::eds_parser::real_text;
use crate::dictionary::literal::{int_literal, literal_bytes, stripped, suffix_at, unsigned_literal};
use crate::dictionary::mapping::{mapped_object, mapped_objects, variable_named, Fault, FlatView};
use crate::dictionary::names::{
    camel_case, ident_char, sanitized, screaming_snake, upper, uppercase,
};
use crate::dictionary::table::TableView;
use crate::ini::lowered;
use crate::pdo::config::PdoMapping;
use crate::text::{
    decimal, digit_value, hex, is_space, lemma_digits_roundtrip, number, stands_at,
};
use vstd::prelude::*;

verus! {

// ---- Literals ----

/// Two texts are stripped one after the other.
pub proof fn lemma_stripped_sum(a: Seq<char>, b: Seq<char>)
    ensures
        stripped(a + b) == stripped(a) + stripped(b),
    decreases b.len(),
{
    if b.len() == 0 {
        assert(a + b =~= a);
        assert(stripped(a) + stripped(b) =~= stripped(a));
    } else {
        lemma_stripped_sum(a, b.drop_last());
        assert((a + b).drop_last() =~= a + b.drop_last());
        assert((a + b).last() == b.last());
        assert(stripped(a) + stripped(b.drop_last()).push(b.last()) =~= (stripped(a) + stripped(
            b.drop_last(),
        )).push(b.last()));
    }
}

/// Underscores in a literal are of no account, and neither is white space.
pub proof fn lemma_underscores_are_ignored(
    t: DataType,
    a: Seq<char>,
    c: char,
    b: Seq<char>,
    bits: Option<u64>,
)
    requires
        c == '_' || is_space(c),
    ensures
        literal_bytes(t, a + seq![c] + b, bits) == literal_bytes(t, a + b, bits),
{
    lemma_stripped_sum(a + seq![c], b);
    lemma_stripped_sum(a, seq![c]);
    lemma_stripped_sum(a, b);
    reveal_with_fuel(stripped, 2);
    assert(seq![c].drop_last() =~= Seq::<char>::empty());
    assert(stripped(a) + Seq::<char>::empty() =~= stripped(a));
}

proof fn lemma_stripped_digits(s: Seq<char>)
    requires
        forall|i: int| 0 <= i < s.len() ==> digit_value(#[trigger] s[i], 16) is Some || s[i] == 'x'
            || s[i] == '-' || s[i] == 'u' || s[i] == 'i' || s[i] == 's' || s[i] == 'z',
    ensures
        stripped(s) == s,
    decreases s.len(),
{
    if s.len() > 0 {
        let front = s.drop_last();
        assert forall|i: int| 0 <= i < front.len() implies digit_value(#[trigger] front[i], 16)
            is Some || front[i] == 'x' || front[i] == '-' || front[i] == 'u' || front[i] == 'i'
            || front[i] == 's' || front[i] == 'z' by {
            assert(front[i] == s[i]);
        }
        lemma_stripped_digits(front);
        assert(s[s.len() - 1] == s.last());
        assert(front.push(s.last()) =~= s);
    }
}

proof fn lemma_no_suffix(s: Seq<char>, from: int)
    requires
        0 <= from,
        forall|i: int| 0 <= i < s.len() ==> (#[trigger] s[i]) != 'u' && s[i] != 'i',
    ensures
        suffix_at(s, from) == s.len() || from > s.len(),
    decreases s.len() - from,
{
    if from < s.len() {
        lemma_no_suffix(s, from + 1);
    }
}

/// Digits stand for their number: decimal ones, and hexadecimal ones behind
/// `0x`.
pub proof fn lemma_literal_is_number(n: nat)
    requires
        n <= u64::MAX,
    ensures
        unsigned_literal(decimal(n)) == Some(n as int),
        unsigned_literal(seq!['0', 'x'] + hex(n)) == Some(n as int),
        stripped(decimal(n)) == decimal(n),
        stripped(seq!['0', 'x'] + hex(n)) == seq!['0', 'x'] + hex(n),
        stripped(seq!['-'] + decimal(n)) == seq!['-'] + decimal(n),
        decimal(n).len() > 0,
        decimal(n)[0] != '-',
{
    let d = decimal(n);
    let h = seq!['0', 'x'] + hex(n);
    lemma_digits_roundtrip(n, 10);
    lemma_digits_roundtrip(n, 16);
    lemma_digits_are_digits(d, 10);
    lemma_digits_are_digits(hex(n), 16);
    assert forall|i: int| 0 <= i < d.len() implies digit_value(#[trigger] d[i], 16) is Some && d[i]
        != 'u' && d[i] != 'i' && d[i] != 'x' && d[i] != 'o' && d[i] != 'b' && d[i] != '-' by {
        assert(digit_value(d[i], 10) is Some);
    }
    assert forall|i: int| 0 <= i < h.len() implies (digit_value(#[trigger] h[i], 16) is Some || h[i]
        == 'x') && h[i] != 'u' && h[i] != 'i' by {
        if i >= 2 {
            assert(h[i] == hex(n)[i - 2]);
        }
    }
    let m = seq!['-'] + d;
    assert forall|i: int| 0 <= i < m.len() implies digit_value(#[trigger] m[i], 16) is Some || m[i]
        == '-' by {
        if i >= 1 {
            assert(m[i] == d[i - 1]);
        }
    }
    lemma_stripped_digits(d);
    lemma_stripped_digits(h);
    lemma_stripped_digits(m);
    lemma_no_suffix(d, 0);
    lemma_no_suffix(h, 0);
    assert(d.take(d.len() as int) =~= d);
    assert(h.take(h.len() as int) =~= h);
    assert(h.skip(2) =~= hex(n));
    assert(digit_value(d[0], 16) is Some && d[0] != '-');
    if d.len() >= 2 {
        assert(d[1] != 'x' && d[1] != 'o' && d[1] != 'b');
    }
}

/// The types of integers.
pub open spec fn is_unsigned(t: DataType) -> bool {
    t is U8 || t is U16 || t is U24 || t is U32 || t is U64
}

pub open spec fn is_signed(t: DataType) -> bool {
    t is I8 || t is I16 || t is I24 || t is I32 || t is I64
}

/// A number is the default of an unsigned type if it fits in its bytes, and of
/// a signed one if it fits in one bit less: then the default is the bytes of the
/// number, least significant first. Else it is none.
pub proof fn lemma_default_is_number(t: DataType, n: nat)
    requires
        is_unsigned(t) || is_signed(t),
        n <= u64::MAX,
    ensures
        ({
            let width = t.spec_size()->0 as nat;
            let limit = if is_unsigned(t) {
                byte_limit(width)
            } else {
                byte_limit(width) / 2
            };
            match literal_bytes(t, decimal(n), None) {
                Some(b) => n < limit && b.len() == width && number_of_bytes(b) == n,
                None => n >= limit,
            }
        }),
        literal_bytes(t, seq!['0', 'x'] + hex(n), None) == literal_bytes(t, decimal(n), None),
{
    reveal_with_fuel(byte_limit, 9);
    lemma_literal_is_number(n);
    let width = t.spec_size()->0 as nat;
    if literal_bytes(t, decimal(n), None) is Some {
        lemma_bytes_of_number(n as int, width);
    }
}

proof fn lemma_low_bytes_wrap(n: int, width: nat)
    requires
        0 <= n,
    ensures
        low_bytes(n, width).len() == width,
        byte_limit(width) > 0,
        number_of_bytes(low_bytes(n, width)) == n % byte_limit(width),
    decreases width,
{
    if width > 0 {
        let w = (width - 1) as nat;
        lemma_low_bytes_wrap(n / 256, w);
        let rest = low_bytes(n / 256, w);
        assert((seq![(n % 256) as u8] + rest).skip(1) =~= rest);
        vstd::arithmetic::div_mod::lemma_mod_breakdown(n, 256, byte_limit(w));
    }
}

proof fn lemma_byte_limits()
    ensures
        byte_limit(1) == 0x100,
        byte_limit(2) == 0x1_0000,
        byte_limit(3) == 0x100_0000,
        byte_limit(4) == 0x1_0000_0000,
        byte_limit(8) == 0x1_0000_0000_0000_0000,
{
    assert(byte_limit(0) == 1);
    assert(byte_limit(1) == 0x100);
    assert(byte_limit(2) == 0x1_0000);
    assert(byte_limit(3) == 0x100_0000);
    assert(byte_limit(4) == 0x1_0000_0000);
    assert(byte_limit(5) == 0x100_0000_0000);
    assert(byte_limit(6) == 0x1_0000_0000_0000);
    assert(byte_limit(7) == 0x100_0000_0000_0000);
    assert(byte_limit(8) == 0x1_0000_0000_0000_0000);
}

/// A negative number is the default of a signed type if it fits, as its two's
/// complement.
#[verifier::spinoff_prover]
pub proof fn lemma_default_is_negative_number(t: DataType, n: nat)
    requires
        is_signed(t),
        0 < n <= u64::MAX,
    ensures
        ({
            let width = t.spec_size()->0 as nat;
            match literal_bytes(t, seq!['-'] + decimal(n), None) {
                Some(b) => {
                    &&& n <= byte_limit(width) / 2
                    &&& b.len() == width
                    &&& number_of_bytes(b) == byte_limit(width) - n
                },
                None => n > byte_limit(width) / 2,
            }
        }),
{
    lemma_byte_limits();
    lemma_literal_is_number(n);
    let text = seq!['-'] + decimal(n);
    assert(text.skip(1) =~= decimal(n));
    assert(int_literal(text) == Some(-(n as int)));
    let width = t.spec_size()->0 as nat;
    lemma_low_bytes_wrap(0x1_0000_0000_0000_0000 - n, width);
    if literal_bytes(t, text, None) is Some {
        let m: int = 0x1_0000_0000_0000_0000 - n;
        if width == 1 {
            assert(m % 0x100 == 0x100 - n);
        } else if width == 2 {
            assert(m % 0x1_0000 == 0x1_0000 - n);
        } else if width == 3 {
            assert(m % 0x100_0000 == 0x100_0000 - n);
        } else if width == 4 {
            assert(m % 0x1_0000_0000 == 0x1_0000_0000 - n);
        } else {
            assert(width == 8);
            assert(m % 0x1_0000_0000_0000_0000 == m);
        }
        assert(m % byte_limit(width) == byte_limit(width) - n);
    }
}

/// A negative number is no default of an unsigned type.
pub proof fn lemma_unsigned_default_is_not_negative(t: DataType, n: nat)
    requires
        is_unsigned(t),
        0 < n <= u64::MAX,
    ensures
        literal_bytes(t, seq!['-'] + decimal(n), None) is None,
{
    lemma_literal_is_number(n);
    assert((seq!['-'] + decimal(n)).skip(1) =~= decimal(n));
}

/// A Boolean is `true`, `false`, or a number, of which only 0 is false.
pub proof fn lemma_default_is_boolean(n: nat)
    requires
        n <= u64::MAX,
    ensures
        literal_bytes(DataType::Boolean, "true"@, None) == Some(seq![1u8]),
        literal_bytes(DataType::Boolean, "false"@, None) == Some(seq![0u8]),
        literal_bytes(DataType::Boolean, decimal(n), None) == Some(
            seq![
                if n == 0 {
                    0u8
                } else {
                    1u8
                },
            ],
        ),
{
    reveal_strlit("true");
    reveal_strlit("false");
    reveal_with_fuel(stripped, 6);
    let t = seq!['t', 'r', 'u', 'e'];
    let f = seq!['f', 'a', 'l', 's', 'e'];
    assert("true"@ =~= t);
    assert("false"@ =~= f);
    assert(stripped(t) =~= t) by {
        assert(t.drop_last() =~= seq!['t', 'r', 'u']);
        assert(seq!['t', 'r', 'u'].drop_last() =~= seq!['t', 'r']);
        assert(seq!['t', 'r'].drop_last() =~= seq!['t']);
        assert(seq!['t'].drop_last() =~= Seq::<char>::empty());
    }
    assert(stripped(f) =~= f) by {
        assert(f.drop_last() =~= seq!['f', 'a', 'l', 's']);
        assert(seq!['f', 'a', 'l', 's'].drop_last() =~= seq!['f', 'a', 'l']);
        assert(seq!['f', 'a', 'l'].drop_last() =~= seq!['f', 'a']);
        assert(seq!['f', 'a'].drop_last() =~= seq!['f']);
        assert(seq!['f'].drop_last() =~= Seq::<char>::empty());
    }
    assert(t[0] != f[0]);
    lemma_literal_is_number(n);
    lemma_digits_roundtrip(n, 10);
    lemma_digits_are_digits(decimal(n), 10);
    assert(digit_value(decimal(n)[0], 10) is Some);
    if decimal(n) == t {
        assert(decimal(n)[0] == 't');
    }
    if decimal(n) == f {
        assert(decimal(n)[0] == 'f');
    }
}

/// A real number whose bits are known has these bits, as many as its type has.
pub proof fn lemma_default_is_real(text: Seq<char>, bits: u64)
    ensures
        literal_bytes(DataType::Real64, text, Some(bits)) matches Some(b) && b.len() == 8
            && number_of_bytes(b) == bits,
        literal_bytes(DataType::Real32, text, Some(bits)) matches Some(b) && b.len() == 4
            && number_of_bytes(b) == bits % 0x1_0000_0000,
{
    lemma_byte_limits();
    lemma_low_bytes_wrap(bits as int, 8);
    lemma_low_bytes_wrap(bits as int, 4);
}

// ---- Mapped fields ----

/// A named field is mapped as the first variable of that name: at its address,
/// with all the bits of its type, of which a Boolean has one. It must be a
/// variable of a fixed size that can be mapped.
pub proof fn lemma_field_is_mapped(flat: Seq<FlatView>, i: int, t: DataType)
    requires
        0 <= i < flat.len(),
        forall|j: int| 0 <= j < i ==> (#[trigger] flat[j]).name != flat[i].name,
        data_type_of(flat[i].var.ty) == Some(t),
    ensures
        ({
            let f = FieldView::Named(flat[i].name);
            match mapped_object(f, flat) {
                Ok(m) => {
                    &&& flat[i].var.pdo_mappable
                    &&& m.index == flat[i].index
                    &&& m.subindex == flat[i].subindex
                    &&& t is Boolean ==> m.bit_length == 1
                    &&& t is U8 || t is I8 ==> m.bit_length == 8
                    &&& t is U16 || t is I16 ==> m.bit_length == 16
                    &&& t is U24 || t is I24 ==> m.bit_length == 24
                    &&& t is U32 || t is I32 || t is Real32 ==> m.bit_length == 32
                    &&& t is U64 || t is I64 || t is Real64 ==> m.bit_length == 64
                    &&& !(t is VisibleString || t is OctetString || t is Domain)
                },
                Err(fault) => {
                    &&& fault == Fault::NotMappable <==> !flat[i].var.pdo_mappable
                    &&& flat[i].var.pdo_mappable ==> fault == Fault::VariableLength && (
                    t is VisibleString || t is OctetString || t is Domain)
                },
            }
        }),
{
    lemma_named(flat, i, 0);
}

proof fn lemma_named(flat: Seq<FlatView>, i: int, from: int)
    requires
        0 <= from <= i < flat.len(),
        forall|j: int| 0 <= j < i ==> (#[trigger] flat[j]).name != flat[i].name,
    ensures
        variable_named(flat, flat[i].name, from) == Some(i),
    decreases i - from,
{
    if from < i {
        assert(flat[from].name != flat[i].name);
        lemma_named(flat, i, from + 1);
    }
}

/// A name that no variable has cannot be mapped; a value that was read from a
/// file is mapped as it is.
pub proof fn lemma_other_fields(flat: Seq<FlatView>, name: Seq<char>, value: u32)
    requires
        forall|j: int| 0 <= j < flat.len() ==> (#[trigger] flat[j]).name != name,
    ensures
        mapped_object(FieldView::Named(name), flat) == Err::<PdoMapping, Fault>(
            Fault::UnknownField,
        ),
        mapped_object(FieldView::Raw(value), flat) matches Ok(m) && m.index == value / 65536
            && m.subindex == value / 256 % 256 && m.bit_length == value % 256,
{
    lemma_unnamed(flat, name, 0);
}

proof fn lemma_unnamed(flat: Seq<FlatView>, name: Seq<char>, from: int)
    requires
        0 <= from,
        forall|j: int| 0 <= j < flat.len() ==> (#[trigger] flat[j]).name != name,
    ensures
        variable_named(flat, name, from) is None,
    decreases flat.len() - from,
{
    if from < flat.len() {
        assert(flat[from].name != name);
        lemma_unnamed(flat, name, from + 1);
    }
}

/// A PDO maps its fields in order, one object for each; the first field that
/// cannot be mapped is complained about.
pub proof fn lemma_fields_in_order(pdo: PdoDefView, flat: Seq<FlatView>, n: int)
    requires
        0 <= n <= pdo.mappings.len(),
    ensures
        match mapped_objects(pdo, flat, n) {
            Ok(objects) => {
                &&& objects.len() == n
                &&& forall|i: int|
                    0 <= i < n ==> mapped_object(pdo.mappings[i], flat) == Ok::<PdoMapping, Fault>(
                        #[trigger] objects[i],
                    )
            },
            Err(e) => exists|i: int|
                0 <= i < n && #[trigger] mapped_object(pdo.mappings[i], flat) == Err::<
                    PdoMapping,
                    Fault,
                >(e.fault) && forall|j: int|
                    0 <= j < i ==> mapped_object(#[trigger] pdo.mappings[j], flat) is Ok,
        },
    decreases n,
{
    if n > 0 {
        lemma_fields_in_order(pdo, flat, n - 1);
        match mapped_objects(pdo, flat, n - 1) {
            Ok(front) => {
                assert forall|j: int| 0 <= j < n - 1 implies mapped_object(
                    #[trigger] pdo.mappings[j],
                    flat,
                ) is Ok by {
                    assert(mapped_object(pdo.mappings[j], flat) == Ok::<PdoMapping, Fault>(
                        front[j],
                    ));
                }
                match mapped_object(pdo.mappings[n - 1], flat) {
                    Ok(m) => {
                        let all = mapped_objects(pdo, flat, n)->Ok_0;
                        assert forall|i: int| 0 <= i < n implies mapped_object(
                            pdo.mappings[i],
                            flat,
                        ) == Ok::<PdoMapping, Fault>(#[trigger] all[i]) by {
                            if i < n - 1 {
                                assert(all[i] == front[i]);
                            }
                        }
                    },
                    Err(_) => {},
                }
            },
            Err(e) => {
                let i = choose|i: int|
                    0 <= i < n - 1 && #[trigger] mapped_object(pdo.mappings[i], flat) == Err::<
                        PdoMapping,
                        Fault,
                    >(e.fault) && forall|j: int|
                        0 <= j < i ==> mapped_object(#[trigger] pdo.mappings[j], flat) is Ok;
                assert(mapped_object(pdo.mappings[i], flat) == Err::<PdoMapping, Fault>(e.fault));
            },
        }
    }
}

// ---- Names ----

/// The name of an integer type is that of its variant in lower case.
pub proof fn lemma_type_and_variant_names(ty: Seq<char>, t: DataType)
    requires
        data_type_of(ty) == Some(t),
        is_unsigned(t) || is_signed(t),
    ensures
        lowered(variant_name(t)) == ty,
{
    reveal_strlit("u8");
    reveal_strlit("u16");
    reveal_strlit("u24");
    reveal_strlit("u32");
    reveal_strlit("u64");
    reveal_strlit("i8");
    reveal_strlit("i16");
    reveal_strlit("i24");
    reveal_strlit("i32");
    reveal_strlit("i64");
    reveal_strlit("U8");
    reveal_strlit("U16");
    reveal_strlit("U24");
    reveal_strlit("U32");
    reveal_strlit("U64");
    reveal_strlit("I8");
    reveal_strlit("I16");
    reveal_strlit("I24");
    reveal_strlit("I32");
    reveal_strlit("I64");
    assert(lowered(variant_name(t)) =~= ty);
}

/// A name in camel case has no underscores, and each part of it begins with a
/// capital letter: the parts on both sides of an underscore are put together.
pub proof fn lemma_camel_case_parts(a: Seq<char>, b: Seq<char>, start: bool)
    ensures
        camel_case(a + seq!['_'] + b, start) == camel_case(a, start) + camel_case(b, true),
    decreases a.len(),
{
    let all = a + seq!['_'] + b;
    if a.len() == 0 {
        assert(all.skip(1) =~= b);
        assert(camel_case(a, start) + camel_case(b, true) =~= camel_case(b, true));
    } else {
        let rest = a.skip(1);
        assert(all.skip(1) =~= rest + seq!['_'] + b);
        assert(all[0] == a[0]);
        if a[0] == '_' {
            lemma_camel_case_parts(rest, b, true);
        } else {
            lemma_camel_case_parts(rest, b, false);
            let c = seq![
                if start {
                    upper(a[0])
                } else {
                    a[0]
                },
            ];
            assert(c + (camel_case(rest, false) + camel_case(b, true)) =~= (c + camel_case(
                rest,
                false,
            )) + camel_case(b, true));
        }
    }
}

/// A part without underscores keeps its letters, but for the first one, which
/// becomes a capital letter at the start of a part.
pub proof fn lemma_camel_case_part(s: Seq<char>, start: bool)
    requires
        forall|i: int| 0 <= i < s.len() ==> (#[trigger] s[i]) != '_',
    ensures
        camel_case(s, start).len() == s.len(),
        s.len() > 0 ==> camel_case(s, start)[0] == (if start {
            upper(s[0])
        } else {
            s[0]
        }),
        forall|i: int| 1 <= i < s.len() ==> (#[trigger] camel_case(s, start)[i]) == s[i],
    decreases s.len(),
{
    if s.len() > 0 {
        let rest = s.skip(1);
        assert forall|i: int| 0 <= i < rest.len() implies (#[trigger] rest[i]) != '_' by {
            assert(rest[i] == s[i + 1]);
        }
        assert(s[0] != '_');
        lemma_camel_case_part(rest, false);
        assert forall|i: int| 1 <= i < s.len() implies (#[trigger] camel_case(s, start)[i])
            == s[i] by {
            assert(camel_case(s, start)[i] == camel_case(rest, false)[i - 1]);
            if i == 1 {
                assert(camel_case(rest, false)[0] == rest[0]);
            }
        }
    }
}

/// A name turned into an identifier has a character for each of the name, is
/// not empty and does not begin with a digit.
pub proof fn lemma_identifier(name: Seq<char>)
    ensures
        sanitized(name).len() > 0,
        !('0' <= sanitized(name)[0] <= '9'),
        name.len() > 0 ==> sanitized(name).len() == name.len() || sanitized(name).len()
            == name.len() + 1,
        name.len() > 0 ==> forall|i: int|
            0 <= i < name.len() ==> sanitized(name)[sanitized(name).len() - name.len() + i]
                == ident_char(#[trigger] name[i]),
        name.len() > 0 && sanitized(name).len() > name.len() ==> sanitized(name)[0] == '_' && '0'
            <= sanitized(name)[1] <= '9',
{
    reveal_strlit("_unnamed");
}

// ---- Numbers of a device ----

proof fn lemma_unsigned_value(bytes: Seq<u8>)
    ensures
        unsigned_of(bytes) == number_of_bytes(bytes),
    decreases bytes.len(),
{
    if bytes.len() > 0 {
        lemma_unsigned_value(bytes.skip(1));
    }
}

proof fn lemma_spans(n: nat)
    ensures
        span(n) == byte_limit(n),
    decreases n,
{
    if n > 0 {
        lemma_spans((n - 1) as nat);
    }
}

/// A device whose integer variable has a number as its default reads that
/// number from it, be it positive or negative.
pub proof fn lemma_default_is_read(t: DataType, n: nat)
    requires
        is_unsigned(t) || is_signed(t),
        n <= u64::MAX,
    ensures
        literal_bytes(t, decimal(n), None) matches Some(b) ==> int_of(t, b) == n,
        n > 0 ==> (literal_bytes(t, seq!['-'] + decimal(n), None) matches Some(b) ==> int_of(t, b)
            == -n),
{
    lemma_byte_limits();
    let width = t.spec_size()->0 as nat;
    lemma_spans(width);
    lemma_default_is_number(t, n);
    if let Some(b) = literal_bytes(t, decimal(n), None) {
        lemma_unsigned_value(b);
    }
    if n > 0 {
        if is_signed(t) {
            lemma_default_is_negative_number(t, n);
            if let Some(b) = literal_bytes(t, seq!['-'] + decimal(n), None) {
                lemma_unsigned_value(b);
            }
        } else {
            lemma_unsigned_default_is_not_negative(t, n);
        }
    }
}

// ---- Names of constants ----

/// The name of a constant has an underscore before each capital letter of the
/// name but the first character, and its letters are capital.
pub proof fn lemma_constant_name(front: Seq<char>, c: char)
    ensures
        uppercase(c) && front.len() > 0 ==> const_name(front.push(c)) == const_name(front) + seq![
            '_',
            upper(c),
        ],
        !uppercase(c) || front.len() == 0 ==> const_name(front.push(c)) == const_name(front) + seq![
            upper(c),
        ],
        const_name(Seq::empty()) == Seq::<char>::empty(),
        'a' <= c <= 'z' ==> upper(c) as int == c as int - 32,
        !('a' <= c <= 'z') ==> upper(c) == c,
{
    let name = front.push(c);
    lemma_name_front(front, c, front.len() as int);
    assert(const_name(front.push(c)) =~= const_name(front) + (if uppercase(c) && front.len() > 0 {
        seq!['_', upper(c)]
    } else {
        seq![upper(c)]
    }));
}

proof fn lemma_name_front(front: Seq<char>, c: char, n: int)
    requires
        0 <= n <= front.len(),
    ensures
        screaming_snake(front.push(c), n) == screaming_snake(front, n),
    decreases n,
{
    if n > 0 {
        lemma_name_front(front, c, n - 1);
        assert(front.push(c)[n - 1] == front[n - 1]);
    }
}

/// There is a constant for each variable, with its address, and one for each
/// array, with its index alone.
pub proof fn lemma_address_constants(t: TableView)
    ensures
        ({
            let list = addresses(t);
            let n = t.cells.len() as int;
            &&& list.len() == n + t.arrays.len()
            &&& forall|i: int|
                0 <= i < n ==> {
                    let a = #[trigger] list[i];
                    &&& a.index == t.cells[i].index
                    &&& a.subindex == Some(t.cells[i].subindex)
                    &&& a.name == const_name(t.cells[i].name)
                }
            &&& forall|i: int|
                n <= i < list.len() ==> {
                    let a = #[trigger] list[i];
                    &&& a.index == t.arrays[i - n].index
                    &&& a.subindex is None
                    &&& a.name == const_name(t.arrays[i - n].name) + "_INDEX"@
                }
        }),
{
}

// ---- Reals of a file ----

/// A text without white space and underscores is kept as it is.
pub proof fn lemma_nothing_stripped(s: Seq<char>)
    requires
        forall|i: int| 0 <= i < s.len() ==> !is_space(#[trigger] s[i]) && s[i] != '_',
    ensures
        stripped(s) == s,
    decreases s.len(),
{
    if s.len() > 0 {
        let front = s.drop_last();
        assert forall|i: int| 0 <= i < front.len() implies !is_space(#[trigger] front[i])
            && front[i] != '_' by {
            assert(front[i] == s[i]);
        }
        lemma_nothing_stripped(front);
        assert(s[s.len() - 1] == s.last());
        assert(front.push(s.last()) =~= s);
    }
}

proof fn lemma_bits_head(double: bool)
    ensures
        ({
            let given = if double {
                "f64::from_bits(0x"@
            } else {
                "f32::from_bits(0x"@
            };
            let head = if double {
                "f64::frombits("@
            } else {
                "f32::frombits("@
            };
            &&& stripped(given) == head + seq!['0', 'x']
            &&& head.len() == 14
            &&& stripped(")"@) == seq![')']
        }),
{
    reveal_strlit("f64::from_bits(0x");
    reveal_strlit("f32::from_bits(0x");
    reveal_strlit("f64::frombits(");
    reveal_strlit("f32::frombits(");
    reveal_strlit(")");
    let given = if double {
        "f64::from_bits(0x"@
    } else {
        "f32::from_bits(0x"@
    };
    let head = if double {
        "f64::frombits("@
    } else {
        "f32::frombits("@
    };
    assert(")"@ =~= seq![')']);
    let (a, b) = (given.take(9), given.skip(10));
    lemma_nothing_stripped(a);
    lemma_nothing_stripped(b);
    lemma_nothing_stripped(")"@);
    assert(given =~= a + seq!['_'] + b);
    lemma_stripped_sum(a + seq!['_'], b);
    lemma_stripped_sum(a, seq!['_']);
    reveal_with_fuel(stripped, 2);
    assert(seq!['_'].drop_last() =~= Seq::<char>::empty());
    assert(a + Seq::<char>::empty() + b =~= head + seq!['0', 'x']);
}

/// A real default that a file gives as a hexadecimal number is the real of these
/// bits.
pub proof fn lemma_hexadecimal_real(n: nat, double: bool)
    requires
        n <= (if double {
            0xFFFF_FFFF_FFFF_FFFFint
        } else {
            0xFFFF_FFFF
        }),
    ensures
        literal_bytes(
            if double {
                DataType::Real64
            } else {
                DataType::Real32
            },
            real_text(seq!['0', 'x'] + hex(n), double),
            None,
        ) matches Some(b) && number_of_bytes(b) == n && b.len() == (if double {
            8int
        } else {
            4
        }),
{
    let v = seq!['0', 'x'] + hex(n);
    lemma_literal_is_number(n);
    lemma_digits_roundtrip(n, 16);
    lemma_digits_are_digits(hex(n), 16);
    assert(v.skip(2) =~= hex(n));
    assert(digit_value(hex(n)[0], 16) is Some);
    lemma_bits_head(double);
    let given = if double {
        "f64::from_bits(0x"@
    } else {
        "f32::from_bits(0x"@
    };
    let head = if double {
        "f64::frombits("@
    } else {
        "f32::frombits("@
    };
    assert(number(v.skip(2), 16, u64::MAX as int) == Some(n as int));
    assert(real_text(v, double) == given + hex(n) + ")"@);
    lemma_stripped_sum(given + hex(n), ")"@);
    lemma_stripped_sum(given, hex(n));
    lemma_stripped_digits(hex(n));
    let s = stripped(real_text(v, double));
    assert(s =~= head + v + seq![')']);
    assert(stands_at(s, head, 0)) by {
        assert(s.subrange(0, head.len() as int) =~= head);
    }
    assert(s.subrange(head.len() as int, s.len() - 1) =~= v);
    lemma_byte_limits();
    lemma_low_bytes_wrap(n as int, 8);
    lemma_low_bytes_wrap(n as int, 4);
    if double {
        assert(n as int % byte_limit(8) == n);
    } else {
        assert(n as int % byte_limit(4) == n);
    }
}

} // verus!
