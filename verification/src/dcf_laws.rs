//! What a configuration file says, from its text to the values that are
//! written.

use crate::datatypes::DataType;
use crate::dcf::{
    applied, byte_entries, commissioned_node, commissioned_rate, hex_pairs, item_of, items_of,
    low_bytes, value_of, EntryView, ItemView, ValueView,
};
use crate::dictionary::definition_laws::{lemma_fixed_hex, lemma_hex_length, lemma_lowered_value};
use crate::dictionary::eds_export::with_line;
use crate::dictionary::file_laws::{
    is_key, lemma_find_char, lemma_find_no_char, lemma_hex_value, lemma_object_name,
    lemma_sub_object_name, lemma_tight_is_trimmed, lemma_written_head, lemma_written_prop, read,
    single_line, tight, with_section,
};
use crate::ini::{
    int_prop, lowered, object_of, prop, prop_from, section_at, sections_of, PropView, Reading,
    SectionView,
};
use crate::od::OdContents;
use crate::text::{
    contains, decimal, digit_value, digits, digits_value, has_hex_mark, hex, int_value, is_space,
    lemma_digits_roundtrip, lemma_number_roundtrip, number, same_but_case, trimmed, trimmed_end,
    trimmed_start, unquoted, unquoted_end, unquoted_start, zero_filled,
};
use vstd::prelude::*;
use vstd::utf8::encode_utf8;

verus! {

// ---- Which value of a section counts ----

proof fn lemma_trimmed_start_is_tight(s: Seq<char>)
    ensures
        trimmed_start(s).len() > 0 ==> !is_space(trimmed_start(s)[0]),
    decreases s.len(),
{
    if s.len() > 0 && is_space(s[0]) {
        lemma_trimmed_start_is_tight(s.skip(1));
    }
}

proof fn lemma_trimmed_end_is_tight(s: Seq<char>)
    ensures
        trimmed_end(s).len() > 0 ==> !is_space(trimmed_end(s).last()) && trimmed_end(s)[0] == s[0],
    decreases s.len(),
{
    if s.len() > 0 && is_space(s.last()) {
        lemma_trimmed_end_is_tight(s.drop_last());
    }
}

/// To trim a trimmed text changes nothing.
pub proof fn lemma_trimmed_once(s: Seq<char>)
    ensures
        trimmed(trimmed(s)) == trimmed(s),
        tight(trimmed(s)),
{
    lemma_trimmed_start_is_tight(s);
    lemma_trimmed_end_is_tight(trimmed_start(s));
    lemma_tight_is_trimmed(trimmed(s));
}

/// A value of a section that is there and does not depend on the node ID.
pub open spec fn is_fixed(v: Seq<char>) -> bool {
    &&& trimmed(v).len() > 0
    &&& !contains(trimmed(v), "$NODEID"@)
    &&& !contains(trimmed(v), "$nodeid"@)
}

/// The `ParameterValue` of a section is what the section configures, whatever
/// its `DefaultValue` says: the entry has the index and sub-index of the
/// section, and the value that the text stands for in the data type of the
/// section. A text that is no value of the type configures nothing.
#[verifier::spinoff_prover]
#[verifier::rlimit(60)]
pub proof fn lemma_parameter_value_counts(
    section: SectionView,
    index: u16,
    sub: Option<u8>,
    code: u16,
    v: Seq<char>,
)
    requires
        object_of(section.name) == Some((index, sub)),
        index < 0x1400 || index > 0x1BFF,
        sub != Some(0u8),
        int_prop(section.props, "DataType"@) == Some(code as int),
        prop(section.props, "ParameterValue"@) == Some(v),
        is_fixed(v),
    ensures
        match value_of(v, code) {
            Some(value) => {
                &&& item_of(section) matches Some(item)
                &&& item.index == index
                &&& sub is Some ==> item.subindex == sub->0
                &&& sub is None ==> item.subindex == 0
                &&& item.value == value
                &&& prop(section.props, "ParameterName"@) matches Some(name) ==> item.name == name
            },
            None => item_of(section) is None,
        },
{
    lemma_trimmed_once(v);
}

/// The `DefaultValue` of a section counts where there is no `ParameterValue`.
#[verifier::spinoff_prover]
#[verifier::rlimit(60)]
pub proof fn lemma_default_value_counts(
    section: SectionView,
    index: u16,
    sub: Option<u8>,
    code: u16,
    v: Seq<char>,
)
    requires
        object_of(section.name) == Some((index, sub)),
        index < 0x1400 || index > 0x1BFF,
        sub != Some(0u8),
        int_prop(section.props, "DataType"@) == Some(code as int),
        prop(section.props, "ParameterValue"@) is None,
        prop(section.props, "DefaultValue"@) == Some(v),
        is_fixed(v),
    ensures
        match value_of(v, code) {
            Some(value) => {
                &&& item_of(section) matches Some(item)
                &&& item.index == index
                &&& sub is Some ==> item.subindex == sub->0
                &&& sub is None ==> item.subindex == 0
                &&& item.value == value
                &&& prop(section.props, "ParameterName"@) matches Some(name) ==> item.name == name
            },
            None => item_of(section) is None,
        },
{
    lemma_trimmed_once(v);
}

/// A section configures nothing if its value is empty or depends on the node
/// ID, even where it has a default; nor if it has no value, or no data type; nor
/// if it is about a parameter of a PDO or about a number of entries.
#[verifier::spinoff_prover]
#[verifier::rlimit(60)]
pub proof fn lemma_nothing_is_configured(section: SectionView)
    ensures
        prop(section.props, "ParameterValue"@) matches Some(v) && !is_fixed(v) ==> item_of(
            section,
        ) is None,
        prop(section.props, "ParameterValue"@) is None && prop(
            section.props,
            "DefaultValue"@,
        ) is Some && !is_fixed(prop(section.props, "DefaultValue"@)->0) ==> item_of(
            section,
        ) is None,
        prop(section.props, "ParameterValue"@) is None && prop(
            section.props,
            "DefaultValue"@,
        ) is None ==> item_of(section) is None,
        int_prop(section.props, "DataType"@) is None ==> item_of(section) is None,
        object_of(section.name) is None ==> item_of(section) is None,
        object_of(section.name) matches Some((index, sub)) && (0x1400 <= index <= 0x1BFF || sub
            == Some(0u8)) ==> item_of(section) is None,
{
}

/// The sections of a file configure their entries in order: what two parts of
/// a file configure is what the first does, then what the second does.
pub proof fn lemma_items_in_order(a: Seq<SectionView>, b: Seq<SectionView>)
    ensures
        items_of(a + b) == items_of(a) + items_of(b),
    decreases b.len(),
{
    if b.len() == 0 {
        assert(a + b =~= a);
        assert(items_of(a) + items_of(b) =~= items_of(a));
    } else {
        lemma_items_in_order(a, b.drop_last());
        assert((a + b).drop_last() =~= a + b.drop_last());
        assert((a + b).last() == b.last());
        if let Some(item) = item_of(b.last()) {
            assert(items_of(a) + items_of(b.drop_last()).push(item) =~= (items_of(a) + items_of(
                b.drop_last(),
            )).push(item));
        }
    }
}

/// A single section configures what it says.
pub proof fn lemma_item_of_section(section: SectionView)
    ensures
        item_of(section) matches Some(item) ==> items_of(seq![section]) == seq![item],
        item_of(section) is None ==> items_of(seq![section]).len() == 0,
{
    reveal_with_fuel(items_of, 2);
    assert(seq![section].drop_last() =~= Seq::<SectionView>::empty());
    if let Some(item) = item_of(section) {
        assert(items_of(seq![section].drop_last()).push(item) =~= seq![item]);
    }
}

/// Where no value is a real number in decimal notation, each configured item
/// is an entry, in order, with the item's address, bytes and name.
pub proof fn lemma_entries_of_items(items: Seq<ItemView>)
    requires
        forall|i: int| 0 <= i < items.len() ==> (#[trigger] items[i]).value is Bytes,
    ensures
        byte_entries(items).len() == items.len(),
        forall|i: int|
            0 <= i < items.len() ==> {
                &&& (#[trigger] byte_entries(items)[i]).index == items[i].index
                &&& byte_entries(items)[i].subindex == items[i].subindex
                &&& ValueView::Bytes(byte_entries(items)[i].data) == items[i].value
                &&& byte_entries(items)[i].name == items[i].name
            },
    decreases items.len(),
{
    if items.len() > 0 {
        let front = items.drop_last();
        assert forall|i: int| 0 <= i < front.len() implies (#[trigger] front[i]).value is Bytes by {
            assert(front[i] == items[i]);
        }
        lemma_entries_of_items(front);
        assert(items.last() == items[items.len() - 1]);
        assert forall|i: int| 0 <= i < items.len() implies {
            &&& (#[trigger] byte_entries(items)[i]).index == items[i].index
            &&& byte_entries(items)[i].subindex == items[i].subindex
            &&& ValueView::Bytes(byte_entries(items)[i].data) == items[i].value
            &&& byte_entries(items)[i].name == items[i].name
        } by {
            if i < front.len() {
                assert(byte_entries(front)[i].index == front[i].index);
                assert(byte_entries(items)[i] == byte_entries(front)[i]);
            }
        }
    }
}

/// Entries are written in order, each to the dictionary that the ones before
/// left, and every write that succeeds counts one.
pub proof fn lemma_applied_in_order<OD: OdContents>(od: OD, a: Seq<EntryView>, b: Seq<EntryView>)
    ensures
        applied(od, a + b) == (
            applied(applied(od, a).0, b).0,
            applied(od, a).1 + applied(applied(od, a).0, b).1,
        ),
    decreases b.len(),
{
    if b.len() == 0 {
        assert(a + b =~= a);
    } else {
        lemma_applied_in_order(od, a, b.drop_last());
        assert((a + b).drop_last() =~= a + b.drop_last());
        assert((a + b).last() == b.last());
    }
}

/// A single entry is written as it is.
pub proof fn lemma_applied_entry<OD: OdContents>(od: OD, e: EntryView)
    ensures
        applied(od, seq![e]).0 == od.after_write(e.index, e.subindex, e.data),
        applied(od, seq![e]).1 == if od.write_result(e.index, e.subindex, e.data) is Ok {
            1int
        } else {
            0int
        },
{
    reveal_with_fuel(applied, 2);
    assert(seq![e].drop_last() =~= Seq::<EntryView>::empty());
}

// ---- What a text stands for ----

/// The number whose bytes, least significant first, are given.
pub open spec fn number_of_bytes(b: Seq<u8>) -> int
    decreases b.len(),
{
    if b.len() == 0 {
        0
    } else {
        b[0] + 256 * number_of_bytes(b.skip(1))
    }
}

/// One more than the greatest number of that many bytes.
pub open spec fn byte_limit(width: nat) -> int
    decreases width,
{
    if width == 0 {
        1
    } else {
        256 * byte_limit((width - 1) as nat)
    }
}

/// The bytes of a number give the number.
pub proof fn lemma_bytes_of_number(n: int, width: nat)
    requires
        0 <= n < byte_limit(width),
    ensures
        low_bytes(n, width).len() == width,
        number_of_bytes(low_bytes(n, width)) == n,
    decreases width,
{
    if width > 0 {
        lemma_bytes_of_number(n / 256, (width - 1) as nat);
        let rest = low_bytes(n / 256, (width - 1) as nat);
        assert((seq![(n % 256) as u8] + rest).skip(1) =~= rest);
    }
}

/// A text that is not in quotes.
pub open spec fn is_bare(s: Seq<char>) -> bool {
    tight(s) && (s.len() > 0 ==> s[0] != '"' && s.last() != '"')
}

proof fn lemma_bare(s: Seq<char>)
    requires
        is_bare(s),
    ensures
        unquoted(trimmed(s)) == s,
{
    lemma_tight_is_trimmed(s);
}

/// A number is read back from its digits.
pub proof fn lemma_digit_texts(n: nat)
    requires
        n <= u64::MAX,
    ensures
        is_bare(decimal(n)),
        is_bare("0x"@ + hex(n)),
        int_value(decimal(n)) == Some(n as int),
        int_value("0x"@ + hex(n)) == Some(n as int),
        !has_hex_mark(decimal(n)),
{
    reveal_strlit("0x");
    lemma_number_roundtrip(n);
    lemma_digits_roundtrip(n, 10);
    lemma_digits_roundtrip(n, 16);
    lemma_digits_are_digits(decimal(n), 10);
    lemma_digits_are_digits(hex(n), 16);
    let d = decimal(n);
    let h = "0x"@ + hex(n);
    assert(digit_value(d[0], 10) is Some);
    assert(digit_value(d.last(), 10) is Some);
    assert(digit_value(hex(n).last(), 16) is Some);
    assert(h.last() == hex(n).last());
    lemma_tight_is_trimmed(d);
    lemma_tight_is_trimmed(h);
    assert(h.skip(2) =~= hex(n));
    if d.len() > 1 {
        assert(digit_value(d[1], 10) is Some);
    }
}

/// A text that stands for a number is made of digits.
pub proof fn lemma_digits_are_digits(s: Seq<char>, radix: int)
    requires
        digits_value(s, radix) is Some,
    ensures
        forall|i: int| 0 <= i < s.len() ==> digit_value(#[trigger] s[i], radix) is Some,
    decreases s.len(),
{
    if s.len() > 0 {
        lemma_digits_are_digits(s.drop_last(), radix);
        assert forall|i: int| 0 <= i < s.len() implies digit_value(
            #[trigger] s[i],
            radix,
        ) is Some by {
            if i < s.len() - 1 {
                assert(s.drop_last()[i] == s[i]);
            }
        }
    }
}

/// The integer types of eight, sixteen, thirty-two and sixty-four bits.
pub open spec fn is_integer(t: DataType) -> bool {
    t is U8 || t is U16 || t is U32 || t is U64 || t is I8 || t is I16 || t is I32 || t is I64
}

/// A number in decimal, or in hexadecimal after `0x`, is configured as the
/// bytes of that number, least significant first, as many as its type has.
pub proof fn lemma_number_is_configured(t: DataType, n: nat)
    requires
        is_integer(t),
        n < byte_limit(t.spec_size()->0 as nat),
    ensures
        ({
            &&& value_of(decimal(n), t.spec_code()) matches Some(ValueView::Bytes(b))
            &&& b.len() == t.spec_size()->0
            &&& number_of_bytes(b) == n
        }),
        value_of("0x"@ + hex(n), t.spec_code()) == value_of(decimal(n), t.spec_code()),
{
    reveal_with_fuel(byte_limit, 9);
    lemma_digit_texts(n);
    lemma_bare(decimal(n));
    lemma_bare("0x"@ + hex(n));
    lemma_bytes_of_number(n as int, t.spec_size()->0 as nat);
}

/// The bits of a real number may be given in hexadecimal, as many as its type
/// has.
pub proof fn lemma_bits_are_configured(t: DataType, n: nat)
    requires
        t is Real32 || t is Real64,
        n < byte_limit(t.spec_size()->0 as nat),
    ensures
        ({
            &&& value_of("0x"@ + hex(n), t.spec_code()) matches Some(ValueView::Bytes(b))
            &&& b.len() == t.spec_size()->0
            &&& number_of_bytes(b) == n
        }),
{
    reveal_strlit("0x");
    reveal_with_fuel(byte_limit, 9);
    lemma_digit_texts(n);
    lemma_digits_roundtrip(n, 16);
    lemma_bare("0x"@ + hex(n));
    assert(("0x"@ + hex(n)).skip(2) =~= hex(n));
    lemma_bytes_of_number(n as int, t.spec_size()->0 as nat);
}

/// Any other text is handed on as a real number of its width.
pub proof fn lemma_real_is_configured(text: Seq<char>)
    requires
        is_bare(text),
        !has_hex_mark(text),
    ensures
        value_of(text, DataType::Real32.spec_code()) == Some(ValueView::Real32(text)),
        value_of(text, DataType::Real64.spec_code()) == Some(ValueView::Real64(text)),
{
    lemma_bare(text);
}

/// A Boolean is false if it is `0` or `false`, and true otherwise.
pub proof fn lemma_boolean_is_configured(text: Seq<char>)
    requires
        is_bare(text),
    ensures
        value_of(text, DataType::Boolean.spec_code()) == Some(
            ValueView::Bytes(
                seq![
                    if text == seq!['0'] || text == seq!['f', 'a', 'l', 's', 'e'] {
                        0u8
                    } else {
                        1u8
                    },
                ],
            ),
        ),
{
    lemma_bare(text);
    reveal_strlit("0");
    reveal_strlit("false");
    assert("0"@ =~= seq!['0']);
    assert("false"@ =~= seq!['f', 'a', 'l', 's', 'e']);
}

/// A string is configured as it is, with or without quotes around it.
pub proof fn lemma_string_is_configured(text: Seq<char>)
    requires
        is_bare(text),
    ensures
        value_of(text, DataType::VisibleString.spec_code()) == Some(
            ValueView::Bytes(encode_utf8(text)),
        ),
        text.len() > 0 ==> value_of(
            seq!['"'] + text + seq!['"'],
            DataType::VisibleString.spec_code(),
        ) == Some(ValueView::Bytes(encode_utf8(text))),
{
    lemma_bare(text);
    if text.len() > 0 {
        let quoted = seq!['"'] + text + seq!['"'];
        assert(tight(quoted));
        lemma_tight_is_trimmed(quoted);
        assert(quoted.skip(1) =~= text + seq!['"']);
        assert((text + seq!['"']).drop_last() =~= text);
        reveal_with_fuel(unquoted_start, 2);
        reveal_with_fuel(unquoted_end, 2);
    }
}

/// Bytes as pairs of hexadecimal digits.
pub open spec fn pairs(b: Seq<u8>) -> Seq<char>
    decreases b.len(),
{
    if b.len() == 0 {
        Seq::empty()
    } else {
        zero_filled(hex(b[0] as nat), 2) + pairs(b.skip(1))
    }
}

proof fn lemma_pairs(b: Seq<u8>)
    ensures
        hex_pairs(pairs(b)) == Some(b),
        forall|i: int| 0 <= i < pairs(b).len() ==> digit_value(#[trigger] pairs(b)[i], 16) is Some,
    decreases b.len(),
{
    if b.len() == 0 {
        assert(b =~= Seq::<u8>::empty());
    } else {
        let rest = b.skip(1);
        lemma_pairs(rest);
        let first = zero_filled(hex(b[0] as nat), 2);
        lemma_hex_length(b[0] as nat);
        lemma_fixed_hex(b[0] as nat, 2);
        lemma_lowered_value(first);
        lemma_digits_are_digits(first, 16);
        assert(pairs(b).take(2) =~= first);
        assert(pairs(b).skip(2) =~= pairs(rest));
        assert(digit_value(first[0], 16) is Some);
        assert(seq![b[0]] + rest =~= b);
        assert forall|i: int| 0 <= i < pairs(b).len() implies digit_value(
            #[trigger] pairs(b)[i],
            16,
        ) is Some by {
            if i < 2 {
                assert(pairs(b)[i] == first[i]);
            } else {
                assert(pairs(b)[i] == pairs(rest)[i - 2]);
            }
        }
    }
}

/// Octet strings and domains may be given in hexadecimal, two digits for each
/// byte, first byte first; any other text is its own bytes.
pub proof fn lemma_octets_are_configured(t: DataType, b: Seq<u8>, text: Seq<char>)
    requires
        t is OctetString || t is Domain,
        is_bare(text),
        !has_hex_mark(text),
    ensures
        value_of("0x"@ + pairs(b), t.spec_code()) == Some(ValueView::Bytes(b)),
        value_of(text, t.spec_code()) == Some(ValueView::Bytes(encode_utf8(text))),
{
    reveal_strlit("0x");
    lemma_bare(text);
    lemma_pairs(b);
    let h = "0x"@ + pairs(b);
    assert(h.skip(2) =~= pairs(b));
    if pairs(b).len() > 0 {
        assert(digit_value(pairs(b).last(), 16) is Some);
        assert(h.last() == pairs(b).last());
    }
    lemma_bare(h);
}

// ---- From a file to its entries ----

/// A configuration file about one object, with a default and a configured
/// value.
pub open spec fn small_file(
    name: Seq<char>,
    code: u16,
    default_value: Seq<char>,
    value: Seq<char>,
) -> Seq<char> {
    with_line(
        with_line(
            with_line(
                with_section(Seq::empty(), name),
                "DataType=0x"@,
                zero_filled(hex(code as nat), 4),
            ),
            "DefaultValue="@,
            default_value,
        ),
        "ParameterValue="@,
        value,
    )
}

proof fn lemma_small_file(name: Seq<char>, code: u16, default_value: Seq<char>, value: Seq<char>)
    requires
        single_line(name),
        name.len() > 0,
        tight(default_value),
        single_line(default_value),
        tight(value),
        single_line(value),
    ensures
        ({
            let sections = sections_of(small_file(name, code, default_value, value));
            &&& sections.len() == 1
            &&& sections[0].name == name
            &&& int_prop(sections[0].props, "DataType"@) == Some(code as int)
            &&& prop(sections[0].props, "DefaultValue"@) == Some(default_value)
            &&& prop(sections[0].props, "ParameterValue"@) == Some(value)
            &&& prop(sections[0].props, "ParameterName"@) is None
        }),
{
    reveal(read);
    reveal_strlit("DataType");
    reveal_strlit("DataType=0x");
    reveal_strlit("0x");
    reveal_strlit("DefaultValue");
    reveal_strlit("DefaultValue=");
    reveal_strlit("ParameterValue");
    reveal_strlit("ParameterValue=");
    reveal_strlit("ParameterName");
    let empty = Seq::<char>::empty();
    assert(read(empty) == Reading::start());
    lemma_written_head(empty, name);
    let a = with_section(empty, name);
    lemma_hex_value(code as nat);
    let c = zero_filled(hex(code as nat), 4);
    assert("DataType=0x"@ + c =~= "DataType"@ + seq!['='] + ("0x"@ + c));
    lemma_written_prop(a, "DataType=0x"@, c, "DataType"@, "0x"@ + c);
    let b = with_line(a, "DataType=0x"@, c);
    assert("DefaultValue="@ + default_value =~= "DefaultValue"@ + seq!['='] + default_value);
    lemma_written_prop(b, "DefaultValue="@, default_value, "DefaultValue"@, default_value);
    let d = with_line(b, "DefaultValue="@, default_value);
    assert("ParameterValue="@ + value =~= "ParameterValue"@ + seq!['='] + value);
    lemma_written_prop(d, "ParameterValue="@, value, "ParameterValue"@, value);
    let props = seq![
        PropView { key: "DataType"@, value: "0x"@ + c },
        PropView { key: "DefaultValue"@, value: default_value },
        PropView { key: "ParameterValue"@, value },
    ];
    let r = read(small_file(name, code, default_value, value));
    assert(r.props =~= props);
    assert(r.finished() =~= seq![SectionView { name, props }]);
    assert(!same_but_case("DataType"@, "DefaultValue"@));
    assert(!same_but_case("DataType"@, "ParameterValue"@));
    assert(!same_but_case("DefaultValue"@, "ParameterValue"@));
    assert(crate::text::folded("ParameterValue"@[9]) != crate::text::folded("ParameterName"@[9]));
    assert(!same_but_case("ParameterValue"@, "ParameterName"@));
    assert(!same_but_case("DataType"@, "ParameterName"@));
    assert(!same_but_case("DefaultValue"@, "ParameterName"@));
    reveal_with_fuel(prop_from, 4);
}

/// A file that states a configured value of an object configures this object
/// with what the value stands for, whatever the default in the file is.
pub proof fn lemma_file_configures_object(
    index: u16,
    code: u16,
    default_value: Seq<char>,
    value: Seq<char>,
)
    requires
        0x1000 <= index < 0x1400 || index > 0x1BFF,
        tight(default_value),
        single_line(default_value),
        tight(value),
        single_line(value),
        is_fixed(value),
        value_of(value, code) is Some,
    ensures
        ({
            let items = items_of(
                sections_of(
                    small_file(zero_filled(hex(index as nat), 4), code, default_value, value),
                ),
            );
            &&& items.len() == 1
            &&& items[0].index == index
            &&& items[0].subindex == 0
            &&& Some(items[0].value) == value_of(value, code)
        }),
{
    let name = zero_filled(hex(index as nat), 4);
    lemma_object_name(index);
    crate::dictionary::file_laws::lemma_section_names(index, 0);
    lemma_small_file(name, code, default_value, value);
    let sections = sections_of(small_file(name, code, default_value, value));
    lemma_parameter_value_counts(sections[0], index, None, code, value);
    lemma_item_of_section(sections[0]);
    assert(sections =~= seq![sections[0]]);
}

/// The same holds of a sub-object.
pub proof fn lemma_file_configures_sub_object(
    index: u16,
    sub: u8,
    code: u16,
    default_value: Seq<char>,
    value: Seq<char>,
)
    requires
        index < 0x1400 || index > 0x1BFF,
        sub > 0,
        tight(default_value),
        single_line(default_value),
        tight(value),
        single_line(value),
        is_fixed(value),
        value_of(value, code) is Some,
    ensures
        ({
            let items = items_of(
                sections_of(
                    small_file(
                        zero_filled(hex(index as nat), 4) + "sub"@ + hex(sub as nat),
                        code,
                        default_value,
                        value,
                    ),
                ),
            );
            &&& items.len() == 1
            &&& items[0].index == index
            &&& items[0].subindex == sub
            &&& Some(items[0].value) == value_of(value, code)
        }),
{
    let name = zero_filled(hex(index as nat), 4) + "sub"@ + hex(sub as nat);
    lemma_sub_object_name(index, sub);
    crate::dictionary::file_laws::lemma_section_names(index, sub);
    lemma_small_file(name, code, default_value, value);
    let sections = sections_of(small_file(name, code, default_value, value));
    lemma_parameter_value_counts(sections[0], index, Some(sub), code, value);
    lemma_item_of_section(sections[0]);
    assert(sections =~= seq![sections[0]]);
}

// ---- Lines and what is looked up ----

/// A text of white space alone.
pub open spec fn is_blank(s: Seq<char>) -> bool {
    forall|i: int| 0 <= i < s.len() ==> is_space(#[trigger] s[i])
}

proof fn lemma_blank_start(a: Seq<char>, s: Seq<char>)
    requires
        is_blank(a),
        s.len() > 0 ==> !is_space(s[0]),
    ensures
        trimmed_start(a + s) == s,
    decreases a.len(),
{
    if a.len() > 0 {
        let rest = a.skip(1);
        assert forall|i: int| 0 <= i < rest.len() implies is_space(#[trigger] rest[i]) by {
            assert(rest[i] == a[i + 1]);
        }
        lemma_blank_start(rest, s);
        assert(is_space(a[0]));
        assert((a + s).skip(1) =~= rest + s);
    } else {
        assert(a + s =~= s);
    }
}

proof fn lemma_blank_end(s: Seq<char>, b: Seq<char>)
    requires
        is_blank(b),
        s.len() > 0 ==> !is_space(s.last()),
    ensures
        trimmed_end(s + b) == s,
    decreases b.len(),
{
    if b.len() > 0 {
        let rest = b.drop_last();
        assert forall|i: int| 0 <= i < rest.len() implies is_space(#[trigger] rest[i]) by {
            assert(rest[i] == b[i]);
        }
        lemma_blank_end(s, rest);
        assert(is_space(b[b.len() - 1]));
        assert((s + b).drop_last() =~= s + rest);
    } else {
        assert(s + b =~= s);
    }
}

/// White space around a text is removed, and nothing else.
pub proof fn lemma_white_space_is_trimmed(a: Seq<char>, s: Seq<char>, b: Seq<char>)
    requires
        is_blank(a),
        is_blank(b),
        tight(s),
    ensures
        trimmed(a + s + b) == s,
{
    if s.len() > 0 {
        assert(a + s + b =~= a + (s + b));
        lemma_blank_start(a, s + b);
        lemma_blank_end(s, b);
    } else {
        let all = a + b;
        assert(a + s + b =~= all);
        assert forall|i: int| 0 <= i < all.len() implies is_space(#[trigger] all[i]) by {
            if i < a.len() {
                assert(all[i] == a[i]);
            } else {
                assert(all[i] == b[i - a.len()]);
            }
        }
        assert(all + s =~= all);
        lemma_blank_start(all, s);
        assert(s =~= Seq::<char>::empty());
    }
}

/// A line says nothing if it is blank or a comment behind a semicolon, or if
/// there is no equals sign in it and it is no head of a section.
pub proof fn lemma_silent_line(r: Reading, a: Seq<char>, text: Seq<char>, b: Seq<char>)
    requires
        is_blank(a),
        is_blank(b),
        tight(text),
        text.len() == 0 || text[0] == ';' || ((text[0] != '[' || text.last() != ']') && forall|
            i: int,
        |
            0 <= i < text.len() ==> text[i] != '='),
    ensures
        r.line(a + text + b) == r,
{
    lemma_white_space_is_trimmed(a, text, b);
    if text.len() > 0 && text[0] != ';' {
        lemma_find_no_char(text, '=', 0);
    }
}

/// A line with an equals sign adds a property: what is before the first equals
/// sign is its key, and what is behind it its value, both without the white
/// space around them.
pub proof fn lemma_spaced_property(
    r: Reading,
    key: Seq<char>,
    before: Seq<char>,
    behind: Seq<char>,
    value: Seq<char>,
)
    requires
        is_key(key),
        is_blank(before),
        is_blank(behind),
        tight(value),
        value.len() > 0,
        value.last() != ']',
        forall|i: int| 0 <= i < before.len() ==> before[i] != '=',
    ensures
        r.line(key + before + seq!['='] + behind + value) == (Reading {
            props: r.props.push(PropView { key, value }),
            ..r
        }),
{
    let l = key + before + seq!['='] + behind + value;
    assert(l[0] == key[0]);
    assert(l.last() == value.last());
    lemma_tight_is_trimmed(l);
    let i = (key.len() + before.len()) as int;
    assert forall|j: int| 0 <= j < i implies l[j] != '=' by {
        if j < key.len() {
            assert(l[j] == key[j]);
        } else {
            assert(l[j] == before[j - key.len()]);
        }
    }
    lemma_find_char(l, '=', 0, i);
    assert(l.take(i) =~= Seq::<char>::empty() + key + before);
    assert(l.skip(i + 1) =~= behind + value + Seq::<char>::empty());
    lemma_white_space_is_trimmed(Seq::<char>::empty(), key, before);
    lemma_white_space_is_trimmed(behind, value, Seq::<char>::empty());
}

/// The first property of a key counts, whatever the case of its letters.
pub proof fn lemma_first_property(props: Seq<PropView>, key: Seq<char>, i: int)
    requires
        0 <= i < props.len(),
        lowered(props[i].key) == lowered(key),
        forall|j: int| 0 <= j < i ==> lowered((#[trigger] props[j]).key) != lowered(key),
    ensures
        prop(props, key) == Some(props[i].value),
{
    lemma_property_from(props, key, 0, i);
}

proof fn lemma_same_lowered(a: Seq<char>, b: Seq<char>)
    ensures
        same_but_case(a, b) == (lowered(a) == lowered(b)),
{
    if same_but_case(a, b) {
        assert forall|i: int| 0 <= i < a.len() implies lowered(a)[i] == lowered(b)[i] by {
            assert(crate::text::folded(a[i]) == crate::text::folded(b[i]));
        }
        assert(lowered(a) =~= lowered(b));
    }
    if lowered(a) == lowered(b) {
        assert(a.len() == lowered(a).len() && b.len() == lowered(b).len());
        assert forall|i: int| 0 <= i < a.len() implies crate::text::folded(#[trigger] a[i])
            == crate::text::folded(b[i]) by {
            assert(lowered(a)[i] == lowered(b)[i]);
        }
    }
}

proof fn lemma_property_from(props: Seq<PropView>, key: Seq<char>, from: int, i: int)
    requires
        0 <= from <= i < props.len(),
        lowered(props[i].key) == lowered(key),
        forall|j: int| 0 <= j < i ==> lowered((#[trigger] props[j]).key) != lowered(key),
    ensures
        prop_from(props, key, from) == Some(props[i].value),
    decreases i - from,
{
    lemma_same_lowered(props[from].key, key);
    if from < i {
        lemma_property_from(props, key, from + 1, i);
    }
}

proof fn lemma_section_from(sections: Seq<SectionView>, name: Seq<char>, from: int, i: int)
    requires
        0 <= from <= i < sections.len(),
        lowered(sections[i].name) == lowered(name),
        forall|j: int| 0 <= j < i ==> lowered((#[trigger] sections[j]).name) != lowered(name),
    ensures
        section_at(sections, name, from) == Some(i),
    decreases i - from,
{
    lemma_same_lowered(sections[from].name, name);
    if from < i {
        lemma_section_from(sections, name, from + 1, i);
    }
}

proof fn lemma_no_section_from(sections: Seq<SectionView>, name: Seq<char>, from: int)
    requires
        0 <= from,
        forall|j: int|
            0 <= j < sections.len() ==> lowered((#[trigger] sections[j]).name) != lowered(name),
    ensures
        section_at(sections, name, from) is None,
    decreases sections.len() - from,
{
    if from < sections.len() {
        lemma_same_lowered(sections[from].name, name);
        lemma_no_section_from(sections, name, from + 1);
    }
}

/// A file commissions a device with the node ID and the baud rate of the first
/// section `DeviceComissioning`, as numbers in decimal or hexadecimal notation;
/// without such a section, with none.
pub proof fn lemma_commissioning(sections: Seq<SectionView>, i: int, node: u8, rate: u32)
    requires
        0 <= i < sections.len(),
        forall|j: int|
            0 <= j < i ==> lowered((#[trigger] sections[j]).name) != lowered(
                "DeviceComissioning"@,
            ),
    ensures
        lowered(sections[i].name) == lowered("DeviceComissioning"@) ==> {
            &&& prop(sections[i].props, "NodeID"@) == Some(decimal(node as nat))
                ==> commissioned_node(sections) == Some(node)
            &&& prop(sections[i].props, "BaudRate"@) == Some(decimal(rate as nat))
                ==> commissioned_rate(sections) == Some(rate)
            &&& prop(sections[i].props, "NodeID"@) is None ==> commissioned_node(sections) is None
            &&& prop(sections[i].props, "BaudRate"@) is None ==> commissioned_rate(sections) is None
        },
        i == sections.len() - 1 && lowered(sections[i].name) != lowered("DeviceComissioning"@)
            ==> commissioned_node(sections) is None && commissioned_rate(sections) is None,
{
    if lowered(sections[i].name) == lowered("DeviceComissioning"@) {
        lemma_section_from(sections, "DeviceComissioning"@, 0, i);
        lemma_digit_texts(node as nat);
        lemma_digit_texts(rate as nat);
    } else if i == sections.len() - 1 {
        lemma_no_section_from(sections, "DeviceComissioning"@, 0);
    }
}

} // verus!
