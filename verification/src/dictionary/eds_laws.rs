//! What EDS files say of lists, records and arrays, and of the defaults of
//! variables.

use crate::datatypes::DataType;
use crate::dcf_laws::lemma_digit_texts;
use crate::dictionary::definition::{
    data_type_of, FieldView, KindView, OdEntryView, PdoDefView, PdoDirection, SubView,
};
use crate::dictionary::eds_export::{
    between, pdo_indices, plain, with_compound, with_head, with_index_list, with_index_rows, with_line,
    with_sub_head,
};
use crate::dictionary::eds_parser::{
    all_zero, capacity_of, compound, default_of, marked, mapped_field, normalized, object_type,
    override_for, printed,
};
use crate::dictionary::file_laws::{
    complete, is_key, lemma_empty_line, lemma_heads, lemma_hex_digits, lemma_hex_value,
    lemma_section_names, lemma_tight_is_trimmed, lemma_words, lemma_written_head,
    lemma_written_prop, read, single_line, tight, with_section,
};

use crate::dictionary::pdo_file_laws::lemma_decimal_line;

use crate::ini::{PropView, Reading, SectionView};
use crate::text::{
    contains, decimal, digit_value, find, hex, lemma_digits_roundtrip, number, stands_at, trimmed,
    zero_filled,
};
use vstd::prelude::*;

verus! {

// ---- Lists of objects ----

/// The rows of a list: the number of each, and its index.
pub open spec fn row_props(indices: Seq<u16>, n: int) -> Seq<PropView> {
    Seq::new(
        n as nat,
        |i: int|
            PropView {
                key: decimal((i + 1) as nat),
                value: "0x"@ + zero_filled(hex(indices[i] as nat), 4),
            },
    )
}

proof fn lemma_rows_are_read(out: Seq<char>, indices: Seq<u16>, n: int)
    requires
        complete(out),
        0 <= n <= indices.len(),
        indices.len() <= u64::MAX,
    ensures
        complete(with_index_rows(out, indices, n)),
        read(with_index_rows(out, indices, n)) == (Reading {
            props: read(out).props + row_props(indices, n),
            ..read(out)
        }),
    decreases n,
{
    if n == 0 {
        assert(read(out).props + row_props(indices, 0) =~= read(out).props);
    } else {
        lemma_rows_are_read(out, indices, n - 1);
        let before = with_index_rows(out, indices, n - 1);
        let key = decimal(n as nat);
        let digits = zero_filled(hex(indices[n - 1] as nat), 4);
        let value = "0x"@ + digits;
        lemma_digit_texts(n as nat);
        lemma_decimal_line(n as nat);
        lemma_decimal_key(n as nat);
        lemma_hex_value(indices[n - 1] as nat);
        reveal_strlit("=0x");
        reveal_strlit("0x");
        reveal_strlit("\n");
        assert(key + ("=0x"@ + digits) =~= key + seq!['='] + value);
        assert(with_index_rows(out, indices, n) =~= with_line(before, key, "=0x"@ + digits));
        lemma_written_prop(before, key, "=0x"@ + digits, key, value);
        assert(row_props(indices, n) =~= row_props(indices, n - 1).push(PropView { key, value }));
        assert(read(before).props.push(PropView { key, value }) =~= read(out).props + row_props(
            indices,
            n,
        ));
    }
}

proof fn lemma_decimal_key(n: nat)
    requires
        n <= u64::MAX,
    ensures
        is_key(decimal(n)),
{
    let d = decimal(n);
    lemma_digit_texts(n);
    lemma_digits_roundtrip(n, 10);
    crate::dcf_laws::lemma_digits_are_digits(d, 10);
    assert forall|i: int| 0 <= i < d.len() implies d[i] != '=' && d[i] != '\n' by {
        assert(digit_value(d[i], 10) is Some);
    }
    assert(digit_value(d[0], 10) is Some);
}

/// A list of objects says how many there are, and lists them in order, numbered
/// from one, each by its index.
pub proof fn lemma_list_is_read(out: Seq<char>, section: Seq<char>, indices: Seq<u16>)
    requires
        complete(out),
        read(out).name.len() > 0,
        single_line(section),
        indices.len() <= u64::MAX,
    ensures
        ({
            let r = read(with_index_list(out, section, indices));
            &&& r.name == section
            &&& r.props.len() == indices.len() + 1
            &&& r.props[0].key == "SupportedObjects"@
            &&& r.props[0].value == decimal(indices.len())
            &&& forall|i: int|
                0 <= i < indices.len() ==> {
                    &&& (#[trigger] r.props[i + 1]).key == decimal((i + 1) as nat)
                    &&& crate::text::int_value(r.props[i + 1].value) == Some(indices[i] as int)
                }
            &&& r.done == read(out).finished()
        }),
{
    reveal_strlit("[");
    reveal_strlit("]\n");
    reveal_strlit("SupportedObjects");
    reveal_strlit("SupportedObjects=");
    let a = out + "["@ + section + "]\n"@;
    assert(a =~= with_section(out, section));
    lemma_written_head(out, section);
    let n = decimal(indices.len());
    lemma_digit_texts(indices.len());
    lemma_decimal_line(indices.len());
    assert("SupportedObjects="@ + n =~= "SupportedObjects"@ + seq!['='] + n);
    lemma_written_prop(a, "SupportedObjects="@, n, "SupportedObjects"@, n);
    let b = with_line(a, "SupportedObjects="@, n);
    lemma_rows_are_read(b, indices, indices.len() as int);
    let c = with_index_rows(b, indices, indices.len() as int);
    lemma_empty_line(c);
    let r = read(with_index_list(out, section, indices));
    let rows = row_props(indices, indices.len() as int);
    assert(r.props == read(b).props + rows);
    assert forall|i: int| 0 <= i < indices.len() implies {
        &&& (#[trigger] r.props[i + 1]).key == decimal((i + 1) as nat)
        &&& crate::text::int_value(r.props[i + 1].value) == Some(indices[i] as int)
    } by {
        assert(r.props[i + 1] == rows[i]);
        lemma_hex_value(indices[i] as nat);
    }
}

/// A list of objects is made of the indices within its bounds.
pub proof fn lemma_list_bounds(list: Seq<u16>, low: int, high: int, index: u16)
    ensures
        between(list, low, high).contains(index) <==> list.contains(index) && low <= index < high,
        between(list, low, high).len() <= list.len(),
    decreases list.len(),
{
    if list.len() > 0 {
        let front = list.drop_last();
        lemma_list_bounds(front, low, high, index);
        let kept = between(front, low, high);
        let all = between(list, low, high);
        if list.contains(index) && index != list.last() {
            let k = choose|k: int| 0 <= k < list.len() && list[k] == index;
            assert(front[k] == index);
        }
        if front.contains(index) {
            let k = choose|k: int| 0 <= k < front.len() && front[k] == index;
            assert(list[k] == index);
        }
        if kept.contains(index) {
            let k = choose|k: int| 0 <= k < kept.len() && kept[k] == index;
            assert(all[k] == index);
        }
        if all.contains(index) && !kept.contains(index) {
            let k = choose|k: int| 0 <= k < all.len() && all[k] == index;
            if k < kept.len() {
                assert(kept[k] == index);
            }
        }
        if index == list.last() && low <= index < high {
            assert(all[kept.len() as int] == index);
            assert(list[list.len() - 1] == index);
        }
    }
}

/// The optional objects are the parameter records of the PDOs, two for each,
/// and of the SDO servers.
pub proof fn lemma_pdo_records_are_listed(pdos: Seq<PdoDefView>, k: int)
    requires
        0 <= k < pdos.len(),
        1 <= pdos[k].number <= 512,
    ensures
        pdo_indices(pdos).len() == 2 * pdos.len(),
        pdos[k].direction == PdoDirection::Tpdo ==> pdo_indices(pdos)[2 * k] == 0x17FF
            + pdos[k].number && pdo_indices(pdos)[2 * k + 1] == 0x19FF + pdos[k].number,
        pdos[k].direction == PdoDirection::Rpdo ==> pdo_indices(pdos)[2 * k] == 0x13FF
            + pdos[k].number && pdo_indices(pdos)[2 * k + 1] == 0x15FF + pdos[k].number,
    decreases pdos.len(),
{
    let front = pdos.drop_last();
    lemma_pdo_indices_len(front);
    if k < front.len() {
        lemma_pdo_records_are_listed(front, k);
        assert(front[k] == pdos[k]);
    }
}

proof fn lemma_pdo_indices_len(pdos: Seq<PdoDefView>)
    ensures
        pdo_indices(pdos).len() == 2 * pdos.len(),
    decreases pdos.len(),
{
    if pdos.len() > 0 {
        lemma_pdo_indices_len(pdos.drop_last());
    }
}

// ---- Records and arrays ----

proof fn lemma_compound_words()
    ensures
        "ObjectType="@ =~= "ObjectType"@ + seq!['='],
        "SubNumber="@ =~= "SubNumber"@ + seq!['='],
        "ParameterName=Number of Entries"@ + ""@ =~= "ParameterName"@ + seq!['=']
            + "Number of Entries"@,
        "ObjectType=0x7"@ + ""@ =~= "ObjectType"@ + seq!['='] + "0x7"@,
        "DataType=0x0005"@ + ""@ =~= "DataType"@ + seq!['='] + "0x0005"@,
        "AccessType=ro"@ + ""@ =~= "AccessType"@ + seq!['='] + "ro"@,
        "PDOMapping=0"@ + ""@ =~= "PDOMapping"@ + seq!['='] + "0"@,
        is_key("SubNumber"@),
        tight("Number of Entries"@),
        single_line("Number of Entries"@),
        tight("0x7"@),
        single_line("0x7"@),
        tight("0x0005"@),
        single_line("0x0005"@),
        tight("ro"@),
        single_line("ro"@),
        tight("0"@),
        single_line("0"@),
{
    lemma_words();
    reveal_strlit("ObjectType=");
    reveal_strlit("ObjectType");
    reveal_strlit("SubNumber=");
    reveal_strlit("SubNumber");
    reveal_strlit("ParameterName=Number of Entries");
    reveal_strlit("ParameterName");
    reveal_strlit("Number of Entries");
    reveal_strlit("DataType=0x0005");
    reveal_strlit("DataType");
    reveal_strlit("0x0005");
    reveal_strlit("AccessType=ro");
    reveal_strlit("AccessType");
    reveal_strlit("ro");
    reveal_strlit("PDOMapping=0");
    reveal_strlit("PDOMapping");
}

/// A record or array is written with its name, what it is, and how many
/// sub-objects it has; its sub-object 0 is read-only and of eight bits, and its
/// default is the highest subindex.
#[verifier::spinoff_prover]
#[verifier::rlimit(60)]
pub proof fn lemma_compound_is_read(
    out: Seq<char>,
    index: u16,
    name: Seq<char>,
    what: Seq<char>,
    count: nat,
    highest: nat,
)
    requires
        complete(out),
        read(out).name.len() > 0,
        tight(name),
        single_line(name),
        tight(what),
        single_line(what),
        count <= u64::MAX,
        highest <= u64::MAX,
    ensures
        ({
            let r = read(with_compound(out, index, name, what, count, highest));
            let head = SectionView {
                name: zero_filled(hex(index as nat), 4),
                props: seq![
                    PropView { key: "ParameterName"@, value: name },
                    PropView { key: "ObjectType"@, value: what },
                    PropView { key: "SubNumber"@, value: decimal(count) },
                ],
            };
            &&& r.done == read(out).finished().push(head)
            &&& r.name == zero_filled(hex(index as nat), 4) + "sub"@ + hex(0)
            &&& r.props == seq![
                PropView { key: "ParameterName"@, value: "Number of Entries"@ },
                PropView { key: "ObjectType"@, value: "0x7"@ },
                PropView { key: "DataType"@, value: "0x0005"@ },
                PropView { key: "AccessType"@, value: "ro"@ },
                PropView { key: "DefaultValue"@, value: decimal(highest) },
                PropView { key: "PDOMapping"@, value: "0"@ },
            ]
        }),
{
    lemma_words();
    lemma_compound_words();
    lemma_digit_texts(count);
    lemma_decimal_line(count);
    lemma_digit_texts(highest);
    lemma_decimal_line(highest);
    let idx = zero_filled(hex(index as nat), 4);
    let sub = idx + "sub"@ + hex(0);
    lemma_section_names(index, 0);
    lemma_heads(out, index, 0);
    let a = with_head(out, index);
    lemma_written_head(out, idx);
    let b = with_line(a, "ParameterName="@, name);
    lemma_written_prop(a, "ParameterName="@, name, "ParameterName"@, name);
    let c = with_line(b, "ObjectType="@, what);
    lemma_written_prop(b, "ObjectType="@, what, "ObjectType"@, what);
    let d = with_line(c, "SubNumber="@, decimal(count));
    lemma_written_prop(c, "SubNumber="@, decimal(count), "SubNumber"@, decimal(count));
    let e = with_line(d, ""@, ""@);
    lemma_empty_line(d);
    lemma_heads(e, index, 0);
    let f = with_sub_head(e, index, 0);
    lemma_written_head(e, sub);
    let g = with_line(f, "ParameterName=Number of Entries"@, ""@);
    lemma_written_prop(
        f,
        "ParameterName=Number of Entries"@,
        ""@,
        "ParameterName"@,
        "Number of Entries"@,
    );
    let h = with_line(g, "ObjectType=0x7"@, ""@);
    lemma_written_prop(g, "ObjectType=0x7"@, ""@, "ObjectType"@, "0x7"@);
    let i = with_line(h, "DataType=0x0005"@, ""@);
    lemma_written_prop(h, "DataType=0x0005"@, ""@, "DataType"@, "0x0005"@);
    let j = with_line(i, "AccessType=ro"@, ""@);
    lemma_written_prop(i, "AccessType=ro"@, ""@, "AccessType"@, "ro"@);
    let k = with_line(j, "DefaultValue="@, decimal(highest));
    lemma_written_prop(j, "DefaultValue="@, decimal(highest), "DefaultValue"@, decimal(highest));
    let l = with_line(k, "PDOMapping=0"@, ""@);
    lemma_written_prop(k, "PDOMapping=0"@, ""@, "PDOMapping"@, "0"@);
    lemma_empty_line(l);
    let head = SectionView {
        name: idx,
        props: seq![
            PropView { key: "ParameterName"@, value: name },
            PropView { key: "ObjectType"@, value: what },
            PropView { key: "SubNumber"@, value: decimal(count) },
        ],
    };
    assert(read(e).props =~= head.props);
    assert(read(l).props =~= seq![
        PropView { key: "ParameterName"@, value: "Number of Entries"@ },
        PropView { key: "ObjectType"@, value: "0x7"@ },
        PropView { key: "DataType"@, value: "0x0005"@ },
        PropView { key: "AccessType"@, value: "ro"@ },
        PropView { key: "DefaultValue"@, value: decimal(highest) },
        PropView { key: "PDOMapping"@, value: "0"@ },
    ]);
}

/// What has members is an array only if the file says so, it has at least four
/// of them and all are zero by default; its elements are like the first one.
/// Else it is a record of these members.
pub proof fn lemma_array_or_record(sections: Seq<SectionView>, index: u16, subs: Seq<SubView>)
    requires
        0 < subs.len() <= 255,
    ensures
        ({
            let e = compound(sections, index, subs);
            &&& e.index == index
            &&& match e.kind {
                KindView::Array(a) => {
                    &&& object_type(sections, index) == Some(8int)
                    &&& subs.len() >= 4
                    &&& all_zero(subs)
                    &&& a.count == subs.len()
                    &&& a.element_type == subs[0].var.ty
                    &&& a.access == subs[0].var.access
                    &&& a.pdo_mappable == subs[0].var.pdo_mappable
                },
                KindView::Record(members) => {
                    &&& members == subs
                    &&& object_type(sections, index) != Some(8int) || subs.len() < 4 || !all_zero(
                        subs,
                    )
                },
                KindView::Var(_) => false,
            }
        }),
{
}

// ---- Mapped objects ----

/// Two entries are the same but for what can be mapped.
pub open spec fn same_but_mappable(a: OdEntryView, b: OdEntryView) -> bool {
    &&& a.index == b.index
    &&& a.name == b.name
    &&& match (a.kind, b.kind) {
        (KindView::Var(x), KindView::Var(y)) => x.ty == y.ty && x.capacity == y.capacity
            && x.default_value == y.default_value && x.access == y.access && (x.pdo_mappable
            ==> y.pdo_mappable),
        (KindView::Record(x), KindView::Record(y)) => x.len() == y.len() && forall|k: int|
            0 <= k < x.len() ==> {
                &&& (#[trigger] x[k]).subindex == y[k].subindex
                &&& x[k].name == y[k].name
                &&& x[k].var.ty == y[k].var.ty
                &&& x[k].var.capacity == y[k].var.capacity
                &&& x[k].var.default_value == y[k].var.default_value
                &&& x[k].var.access == y[k].var.access
                &&& x[k].var.pdo_mappable ==> y[k].var.pdo_mappable
            },
        (KindView::Array(x), KindView::Array(y)) => x == y,
        _ => false,
    }
}

/// A mapped object makes its entry mappable, and changes nothing else of any
/// entry.
pub proof fn lemma_mapping_marks(entries: Seq<OdEntryView>, value: u32, e: int)
    requires
        0 <= e < entries.len(),
    ensures
        mapped_field(entries, value).0.len() == entries.len(),
        same_but_mappable(entries[e], mapped_field(entries, value).0[e]),
{
    let index = (value / 0x1_0000) as u16;
    let sub = (value / 0x100 % 0x100) as u8;
    lemma_locate(entries, index, sub, 0);
    if let Some((i, k)) = crate::dictionary::eds_parser::locate(entries, index, sub, 0) {
        let after = marked(entries, i, k);
        if e == i {
            if let KindView::Record(subs) = entries[i].kind {
                if let Some(n) = k {
                    let changed = after[i].kind->Record_0;
                    assert forall|j: int| 0 <= j < subs.len() implies {
                        &&& (#[trigger] subs[j]).subindex == changed[j].subindex
                        &&& subs[j].name == changed[j].name
                        &&& subs[j].var.ty == changed[j].var.ty
                        &&& subs[j].var.capacity == changed[j].var.capacity
                        &&& subs[j].var.default_value == changed[j].var.default_value
                        &&& subs[j].var.access == changed[j].var.access
                        &&& subs[j].var.pdo_mappable ==> changed[j].var.pdo_mappable
                    } by {}
                }
            }
        }
    }
}

proof fn lemma_locate(entries: Seq<OdEntryView>, index: u16, sub: u8, from: int)
    requires
        0 <= from,
    ensures
        crate::dictionary::eds_parser::locate(entries, index, sub, from) matches Some((i, k)) ==> {
            &&& 0 <= i < entries.len()
            &&& entries[i].index == index
            &&& match entries[i].kind {
                KindView::Var(_) => sub == 0 && k is None,
                KindView::Record(subs) => k matches Some(n) && 0 <= n < subs.len()
                    && subs[n].subindex == sub,
                KindView::Array(_) => false,
            }
        },
    decreases entries.len() - from,
{
    if from < entries.len() {
        lemma_locate(entries, index, sub, from + 1);
        if let KindView::Record(subs) = entries[from].kind {
            lemma_member_at(subs, sub, 0);
        }
    }
}

proof fn lemma_member_at(subs: Seq<SubView>, sub: u8, from: int)
    requires
        0 <= from,
    ensures
        crate::dictionary::eds_parser::member_at(subs, sub, from) matches Some(n) ==> 0 <= n
            < subs.len() && subs[n].subindex == sub,
    decreases subs.len() - from,
{
    if from < subs.len() {
        lemma_member_at(subs, sub, from + 1);
    }
}

/// What is mapped is found again: a mapping value for a variable of a fixed
/// size is kept as it is, and its variable becomes mappable.
pub proof fn lemma_mapped_variable(entries: Seq<OdEntryView>, value: u32, i: int)
    requires
        0 <= i < entries.len(),
        entries[i].index == value / 0x1_0000,
        value / 0x100 % 0x100 == 0,
        entries[i].kind is Var,
        forall|j: int| 0 <= j < i ==> (#[trigger] entries[j]).index != entries[i].index,
        !crate::dictionary::definition::is_variable_length(entries[i].kind->Var_0.ty),
    ensures
        mapped_field(entries, value).1 == Some(FieldView::Raw(value)),
        mapped_field(entries, value).0[i].kind matches KindView::Var(v) && v.pdo_mappable,
        forall|j: int|
            0 <= j < entries.len() && j != i ==> mapped_field(entries, value).0[j]
                == #[trigger] entries[j],
{
    lemma_first_located(entries, i, 0);
}

proof fn lemma_first_located(entries: Seq<OdEntryView>, i: int, from: int)
    requires
        0 <= from <= i < entries.len(),
        entries[i].kind is Var,
        forall|j: int| 0 <= j < i ==> (#[trigger] entries[j]).index != entries[i].index,
    ensures
        crate::dictionary::eds_parser::locate(entries, entries[i].index, 0, from) == Some(
            (i, None::<int>),
        ),
    decreases i - from,
{
    if from < i {
        assert(entries[from].index != entries[i].index);
        lemma_first_located(entries, i, from + 1);
    }
}

// ---- Defaults ----

proof fn lemma_no_node_id(s: Seq<char>, pattern: Seq<char>, from: int)
    requires
        0 <= from,
        pattern.len() > 0,
        pattern[0] == '$',
        forall|i: int| 0 <= i < s.len() ==> s[i] != '$',
    ensures
        find(s, pattern, from) is None,
    decreases s.len() + 1 - from,
{
    if from <= s.len() {
        if stands_at(s, pattern, from) {
            assert(s.subrange(from, from + pattern.len() as int)[0] == '$');
            assert(s[from] == '$');
        }
        lemma_no_node_id(s, pattern, from + 1);
    }
}

/// The default of an integer is the number that the file states, in decimal or
/// in hexadecimal; one that depends on the node ID is zero.
pub proof fn lemma_default_of_integer(code: u16, n: nat)
    requires
        code != 0x0008 && code != 0x0011,
        n <= u64::MAX,
    ensures
        normalized(decimal(n), code) == decimal(n),
        normalized("0x"@ + hex(n), code) == "0x"@ + hex(n),
        normalized("0X"@ + hex(n), code) == "0x"@ + hex(n),
{
    reveal_strlit("$NODEID");
    reveal_strlit("$nodeid");
    reveal_strlit("0x");
    reveal_strlit("0X");
    lemma_digit_texts(n);
    lemma_hex_digits(n);
    let d = decimal(n);
    let h = "0x"@ + hex(n);
    let u = "0X"@ + hex(n);
    lemma_digits_roundtrip(n, 10);
    crate::dcf_laws::lemma_digits_are_digits(d, 10);
    lemma_tight_is_trimmed(d);
    lemma_tight_is_trimmed(h);
    assert(u.last() == hex(n).last() && h.last() == u.last());
    lemma_tight_is_trimmed(u);
    assert forall|i: int| 0 <= i < d.len() implies d[i] != '$' by {
        assert(digit_value(d[i], 10) is Some);
    }
    assert forall|i: int| 0 <= i < h.len() implies h[i] != '$' && u[i] != '$' by {
        if i >= 2 {
            assert(h[i] == hex(n)[i - 2] && u[i] == hex(n)[i - 2]);
            assert(digit_value(hex(n)[i - 2], 16) is Some);
        }
    }
    lemma_no_node_id(d, "$NODEID"@, 0);
    lemma_no_node_id(d, "$nodeid"@, 0);
    lemma_no_node_id(h, "$NODEID"@, 0);
    lemma_no_node_id(h, "$nodeid"@, 0);
    lemma_no_node_id(u, "$NODEID"@, 0);
    lemma_no_node_id(u, "$nodeid"@, 0);
    assert(h.skip(2) =~= hex(n));
    assert(u.skip(2) =~= hex(n));
    assert(digit_value(d[0], 10) is Some);
}

/// A default that depends on the node ID, or is empty, is left at zero.
pub proof fn lemma_default_of_node(text: Seq<char>, code: u16)
    requires
        trimmed(text).len() == 0 || contains(trimmed(text), "$NODEID"@) || contains(
            trimmed(text),
            "$nodeid"@,
        ),
    ensures
        code != 0x0008 && code != 0x0011 ==> normalized(text, code) == seq!['0'],
        code == 0x0008 ==> normalized(text, code) == seq!['0', '.', '0', 'f', '3', '2'],
        code == 0x0011 ==> normalized(text, code) == seq!['0', '.', '0', 'f', '6', '4'],
{
    reveal_strlit("0");
    reveal_strlit("0.0f32");
    reveal_strlit("0.0f64");
    assert("0"@ =~= seq!['0']);
    assert("0.0f32"@ =~= seq!['0', '.', '0', 'f', '3', '2']);
    assert("0.0f64"@ =~= seq!['0', '.', '0', 'f', '6', '4']);
}

// ---- Capacities ----

/// Of the capacities that are given for an index, the last one counts; where
/// none is given, there is none.
pub proof fn lemma_last_capacity(overrides: Seq<(u16, usize)>, index: u16, n: int)
    requires
        0 <= n <= overrides.len(),
    ensures
        match override_for(overrides, index, n) {
            Some(size) => exists|i: int|
                0 <= i < n && (#[trigger] overrides[i]) == (index, size) && forall|j: int|
                    i < j < n ==> (#[trigger] overrides[j]).0 != index,
            None => forall|i: int| 0 <= i < n ==> (#[trigger] overrides[i]).0 != index,
        },
    decreases n,
{
    if n > 0 && overrides[n - 1].0 != index {
        lemma_last_capacity(overrides, index, n - 1);
    } else if n > 0 {
        assert(overrides[n - 1] == (index, overrides[n - 1].1));
    }
}

/// A string or a domain has the capacity that is given for its index, else that
/// of its type: 64 characters, 256 octets, or 512 bytes of other data. Values of
/// a fixed size have none.
pub proof fn lemma_capacities(
    overrides: Seq<(u16, usize)>,
    index: u16,
    size: usize,
    ty: Seq<char>,
    t: DataType,
)
    requires
        data_type_of(ty) == Some(t),
    ensures
        t.spec_size() is Some ==> capacity_of(overrides, index, ty) is None,
        t.spec_size() is None ==> capacity_of(overrides.push((index, size)), index, ty) == Some(
            size,
        ),
        (forall|i: int| 0 <= i < overrides.len() ==> (#[trigger] overrides[i]).0 != index) ==> {
            &&& t == DataType::VisibleString ==> capacity_of(overrides, index, ty) == Some(64usize)
            &&& t == DataType::OctetString ==> capacity_of(overrides, index, ty) == Some(256usize)
            &&& t == DataType::Domain ==> capacity_of(overrides, index, ty) == Some(512usize)
        },
{
    lemma_last_capacity(overrides, index, overrides.len() as int);
    let given = overrides.push((index, size));
    assert(given[given.len() - 1] == (index, size));
}

// ---- Defaults that are exported ----

/// Underscores of a default are not written, and all else is.
pub proof fn lemma_plain_default(a: Seq<char>, b: Seq<char>)
    ensures
        plain(a + b) == plain(a) + plain(b),
        plain(seq!['_']) == Seq::<char>::empty(),
        (forall|i: int| 0 <= i < b.len() ==> (#[trigger] b[i]) != '_') ==> plain(b) == b,
    decreases b.len(),
{
    reveal_with_fuel(plain, 2);
    assert(seq!['_'].drop_last() =~= Seq::<char>::empty());
    if b.len() == 0 {
        assert(a + b =~= a);
        assert(plain(a) + plain(b) =~= plain(a));
        assert(b =~= Seq::<char>::empty());
    } else {
        let front = b.drop_last();
        lemma_plain_default(a, front);
        assert((a + b).drop_last() =~= a + front);
        assert((a + b).last() == b.last());
        assert(plain(a) + plain(front).push(b.last()) =~= (plain(a) + plain(front)).push(b.last()));
        if forall|i: int| 0 <= i < b.len() ==> (#[trigger] b[i]) != '_' {
            assert forall|i: int| 0 <= i < front.len() implies (#[trigger] front[i]) != '_' by {
                assert(front[i] == b[i]);
            }
            assert(b[b.len() - 1] != '_');
            assert(front.push(b.last()) =~= b);
        }
    }
}

/// An integer that is exported is imported as the same number, in decimal or in
/// hexadecimal notation, as it was given.
pub proof fn lemma_integer_default_roundtrip(ty: Seq<char>, t: DataType, code: u16, n: nat)
    requires
        data_type_of(ty) == Some(t),
        t.spec_size() is Some,
        code != 0x0008 && code != 0x0011,
        n <= u64::MAX,
        printed(decimal(n)) is Some,
        printed("0x"@ + hex(n)) is Some,
    ensures
        default_of(plain(decimal(n)), code, ty) == printed(decimal(n)),
        default_of(plain("0x"@ + hex(n)), code, ty) == printed("0x"@ + hex(n)),
{
    reveal_strlit("0x");
    lemma_default_of_integer(code, n);
    let d = decimal(n);
    let h = "0x"@ + hex(n);
    lemma_digits_roundtrip(n, 10);
    lemma_digits_roundtrip(n, 16);
    crate::dcf_laws::lemma_digits_are_digits(d, 10);
    crate::dcf_laws::lemma_digits_are_digits(hex(n), 16);
    assert forall|i: int| 0 <= i < d.len() implies (#[trigger] d[i]) != '_' by {
        assert(digit_value(d[i], 10) is Some);
    }
    assert forall|i: int| 0 <= i < h.len() implies (#[trigger] h[i]) != '_' by {
        if i >= 2 {
            assert(h[i] == hex(n)[i - 2]);
            assert(digit_value(hex(n)[i - 2], 16) is Some);
        }
    }
    lemma_plain_default(Seq::empty(), d);
    lemma_plain_default(Seq::empty(), h);
}

} // verus!
