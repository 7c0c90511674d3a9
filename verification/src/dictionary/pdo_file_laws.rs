//! What EDS files say of PDOs: what is written of a PDO is read back.

use crate::dcf_laws::lemma_digit_texts;
use crate::dictionary::definition::{
    CobIdSpec, DefinitionView, MappingKind, OdEntryView, PdoDefView, PdoDirection, SdoServerDef,
};
use crate::dictionary::definition_laws::{
    lemma_eds_sections_are_distinct, lemma_fixed_hex, lemma_lowered_value,
};
use crate::dictionary::eds_export::{
    cob_text, eds_text, hex_text, mapping_access, mapping_param, mapping_rows, pdo_cob, record_at,
    record_name, server_row, with_head, with_line, with_param, with_pdo, with_pdos,
    with_record_head, with_server, with_servers, with_sub_head, ParamView,
};
use crate::dictionary::eds_parser::{
    addresses_of, base_part, cob_of, comm_start, eds_content, mapping_kind, node_relative,
    pdo_at, sub_default, sub_prop, sub_section,
};
use crate::dictionary::file_laws::{
    before_entry, comm_index, comm_params, complete, goes_on, is_key, lemma_file_goes_on,
    lemma_find_char, lemma_find_no_char, lemma_goes_on_trans, lemma_heads, lemma_hex_digits,
    lemma_hex_is_tight, lemma_hex_value, lemma_keys_differ, lemma_more_servers_go_on,
    lemma_named_before, lemma_object_name, lemma_params_go_on, lemma_pdo_goes_on, lemma_pdo_is_params, lemma_pdos_go_on,
    lemma_record_head_goes_on, lemma_section_names, lemma_sections_stay, lemma_servers_go_on,
    lemma_sub_object_name, lemma_tight_is_trimmed, lemma_words, lemma_written_head,
    lemma_written_prop, map_index, map_params, no_empty_head, read, single_line, tight, with_comm,
    with_comm_head, with_map_head, with_params, with_section,
};
use crate::dictionary::mapping::{mapped_objects, variables, ErrorView};
use crate::ini::{
    lower, lowered, object_of, prop, prop_from, section_at, section_props, sections_of, PropView,
    Reading, SectionView,
};
use crate::pdo::config::PdoMapping;
use crate::text::{
    decimal, digit_value, digits, find, folded, hex, int_value, number, same_but_case, stands_at,
    trimmed, zero_filled,
};
use vstd::prelude::*;

verus! {

// ---- COB-IDs ----

proof fn lemma_no_dollar(s: Seq<char>, from: int)
    requires
        0 <= from,
        forall|i: int| 0 <= i < s.len() ==> s[i] != '$',
    ensures
        find(s, "$nodeid"@, from) is None,
    decreases s.len() + 1 - from,
{
    reveal_strlit("$nodeid");
    if from <= s.len() {
        if stands_at(s, "$nodeid"@, from) {
            assert(s.subrange(from, from + 7)[0] == '$');
            assert(s[from] == '$');
        }
        lemma_no_dollar(s, from + 1);
    }
}

proof fn lemma_hex_text(n: nat)
    requires
        n <= u64::MAX,
    ensures
        int_value(hex_text(n)) == Some(n as int),
        trimmed(hex_text(n)) == hex_text(n),
        tight(hex_text(n)),
        single_line(hex_text(n)),
        forall|i: int|
            0 <= i < hex_text(n).len() ==> hex_text(n)[i] != '$' && hex_text(n)[i] != '+'
                && lower(#[trigger] hex_text(n)[i]) != '$',
{
    reveal_strlit("0x");
    lemma_digit_texts(n);
    lemma_hex_digits(n);
    lemma_hex_is_tight(hex(n));
    lemma_tight_is_trimmed(hex_text(n));
    assert forall|i: int| 0 <= i < hex_text(n).len() implies hex_text(n)[i] != '$' && hex_text(
        n,
    )[i] != '+' && hex_text(n)[i] != '\n' && lower(#[trigger] hex_text(n)[i]) != '$' by {
        if i >= 2 {
            assert(hex_text(n)[i] == hex(n)[i - 2]);
            assert(digit_value(hex(n)[i - 2], 16) is Some);
        }
    }
}

/// A COB-ID that is written is read back, and relative to the node ID if it
/// was.
pub proof fn lemma_cob_id_roundtrip(cob: CobIdSpec)
    ensures
        cob_of(cob_text(cob)) == Some(cob),
        tight(cob_text(cob)),
        single_line(cob_text(cob)),
{
    reveal_strlit("$nodeid");
    reveal_strlit("$NODEID");
    reveal_strlit("$NODEID+0x");
    reveal_strlit("0x");
    match cob {
        CobIdSpec::Absolute(id) => {
            let t = hex_text(id as nat);
            lemma_hex_text(id as nat);
            assert forall|i: int| 0 <= i < lowered(t).len() implies lowered(t)[i] != '$' by {
                assert(lowered(t)[i] == lower(t[i]));
            }
            lemma_no_dollar(lowered(t), 0);
        },
        CobIdSpec::NodeRelative(base) => {
            lemma_relative_cob_id(base);
        },
    }
}

proof fn lemma_base_part(tail: Seq<char>)
    requires
        tight(tail),
        tail.len() > 0,
        tail[0] == '0',
        forall|i: int| 0 <= i < tail.len() ==> tail[i] != '+',
    ensures
        base_part("$NODEID"@ + seq!['+'] + tail) == Some(tail),
{
    reveal_strlit("$NODEID");
    let node = "$NODEID"@;
    let t = node + seq!['+'] + tail;
    lemma_find_char(t, '+', 0, 7);
    assert(t.take(7) =~= node);
    assert(t.skip(8) =~= tail);
    lemma_tight_is_trimmed(node);
    lemma_tight_is_trimmed(tail);
    assert(same_but_case(node, node));
    assert(base_part(t) == base_part(tail));
    lemma_find_no_char(tail, '+', 0);
    if same_but_case(tail, node) {
        assert(folded(tail[0]) == folded(node[0]));
    }
}

proof fn lemma_relative_cob_id(base: u32)
    ensures
        cob_of(cob_text(CobIdSpec::NodeRelative(base))) == Some(CobIdSpec::NodeRelative(base)),
        tight(cob_text(CobIdSpec::NodeRelative(base))),
        single_line(cob_text(CobIdSpec::NodeRelative(base))),
{
    reveal_strlit("$nodeid");
    reveal_strlit("$NODEID");
    reveal_strlit("$NODEID+0x");
    reveal_strlit("0x");
    let tail = hex_text(base as nat);
    lemma_hex_text(base as nat);
    let t = cob_text(CobIdSpec::NodeRelative(base));
    assert(t =~= "$NODEID"@ + seq!['+'] + tail);
    assert(t.last() == tail.last());
    lemma_tight_is_trimmed(t);
    assert(lowered(t).subrange(0, 7) =~= "$nodeid"@);
    assert(stands_at(lowered(t), "$nodeid"@, 0));
    assert(node_relative(t));
    lemma_base_part(tail);
    assert(single_line(t)) by {
        assert forall|i: int| 0 <= i < t.len() implies t[i] != '\n' by {
            if i >= 8 {
                assert(t[i] == tail[i - 8]);
            }
        }
    }
}

/// Whether the mapping of a PDO can be changed is written and read back.
pub proof fn lemma_mapping_kind_roundtrip(mapping: MappingKind)
    ensures
        mapping_kind(Some(mapping_access(mapping))) == mapping,
        tight(mapping_access(mapping)),
        single_line(mapping_access(mapping)),
{
    reveal_strlit("rw");
    reveal_strlit("ro");
    reveal_strlit("const");
    assert(lowered("rw"@)[1] == 'w');
    assert(lowered("rw"@).len() == 2);
    assert(lowered("const"@) =~= "const"@);
}

// ---- Parameters ----

/// The parameter can stand in a file.
spec fn is_plain(p: ParamView) -> bool {
    &&& 0 <= p.sub < 256
    &&& tight(p.name)
    &&& single_line(p.name)
    &&& tight(p.access)
    &&& single_line(p.access)
    &&& tight(p.default_value)
    &&& single_line(p.default_value)
}

/// What the section of a parameter says.
spec fn param_props(p: ParamView) -> Seq<PropView> {
    let front = seq![
        PropView { key: "ParameterName"@, value: p.name },
        PropView { key: "ObjectType"@, value: "0x7"@ },
        PropView { key: "DataType"@, value: "0x"@ + zero_filled(hex(p.code as nat), 4) },
        PropView { key: "AccessType"@, value: p.access },
        PropView { key: "DefaultValue"@, value: p.default_value },
    ];
    let limit = if p.limited {
        front.push(PropView { key: "HighLimit"@, value: "64"@ })
    } else {
        front
    };
    limit.push(PropView { key: "PDOMapping"@, value: "0"@ })
}

proof fn lemma_param_props(p: ParamView)
    ensures
        prop(param_props(p), "DefaultValue"@) == Some(p.default_value),
        prop(param_props(p), "AccessType"@) == Some(p.access),
{
    lemma_keys_differ();
    reveal_with_fuel(prop_from, 7);
}

proof fn lemma_param_words()
    ensures
        "HighLimit=64"@ + ""@ =~= "HighLimit"@ + seq!['='] + "64"@,
        "PDOMapping=0"@ + ""@ =~= "PDOMapping"@ + seq!['='] + "0"@,
        "ObjectType=0x7"@ + ""@ =~= "ObjectType"@ + seq!['='] + "0x7"@,
        is_key("HighLimit"@),
        tight("64"@),
        single_line("64"@),
        tight("0"@),
        single_line("0"@),
        tight("0x7"@),
        single_line("0x7"@),
{
    lemma_words();
    reveal_strlit("HighLimit=64");
    reveal_strlit("HighLimit");
    reveal_strlit("64");
    reveal_strlit("PDOMapping=0");
    reveal_strlit("PDOMapping");
}

#[verifier::spinoff_prover]
#[verifier::rlimit(40)]
proof fn lemma_param_is_read(out: Seq<char>, index: u16, p: ParamView)
    requires
        complete(out),
        read(out).name.len() > 0,
        is_plain(p),
    ensures
        read(with_param(out, index, p)) == (Reading {
            done: read(out).finished(),
            name: sub_section(index, p.sub as nat),
            props: param_props(p),
        }),
        complete(with_param(out, index, p)),
{
    lemma_words();
    lemma_param_words();
    lemma_heads(out, index, p.sub as u8);
    let name = sub_section(index, p.sub as nat);
    let a = with_sub_head(out, index, p.sub);
    lemma_written_head(out, name);
    assert(a == with_section(out, name));
    let code = zero_filled(hex(p.code as nat), 4);
    lemma_hex_value(p.code as nat);
    let b = with_line(a, "ParameterName="@, p.name);
    lemma_written_prop(a, "ParameterName="@, p.name, "ParameterName"@, p.name);
    let c = with_line(b, "ObjectType=0x7"@, ""@);
    lemma_written_prop(b, "ObjectType=0x7"@, ""@, "ObjectType"@, "0x7"@);
    let d = with_line(c, "DataType=0x"@, code);
    assert("DataType=0x"@ + code =~= "DataType"@ + seq!['='] + ("0x"@ + code));
    lemma_written_prop(c, "DataType=0x"@, code, "DataType"@, "0x"@ + code);
    let e = with_line(d, "AccessType="@, p.access);
    lemma_written_prop(d, "AccessType="@, p.access, "AccessType"@, p.access);
    let f = with_line(e, "DefaultValue="@, p.default_value);
    lemma_written_prop(e, "DefaultValue="@, p.default_value, "DefaultValue"@, p.default_value);
    let g = if p.limited {
        with_line(f, "HighLimit=64"@, ""@)
    } else {
        f
    };
    if p.limited {
        lemma_written_prop(f, "HighLimit=64"@, ""@, "HighLimit"@, "64"@);
    }
    let h = with_line(g, "PDOMapping=0"@, ""@);
    lemma_written_prop(g, "PDOMapping=0"@, ""@, "PDOMapping"@, "0"@);
    crate::dictionary::file_laws::lemma_empty_line(h);
    assert(read(h).props =~= param_props(p));
}

/// A parameter that a file goes on after is in the file.
proof fn lemma_param_is_in_file(
    start: Seq<char>,
    out: Seq<char>,
    index: u16,
    params: Seq<ParamView>,
    m: int,
    text: Seq<char>,
) -> (j: int)
    requires
        complete(start),
        complete(out),
        no_empty_head(text),
        no_empty_head(start) ==> read(start).name.len() > 0,
        goes_on(start, out),
        0 <= m < params.len(),
        forall|i: int| 0 <= i < params.len() ==> (#[trigger] params[i]).sub >= 0,
        is_plain(params[m]),
        goes_on(with_params(out, index, params, params.len() as int), text),
    ensures
        0 <= j < sections_of(text).len(),
        sections_of(text)[j].name == sub_section(index, params[m].sub as nat),
        prop(sections_of(text)[j].props, "DefaultValue"@) == Some(params[m].default_value),
        prop(sections_of(text)[j].props, "AccessType"@) == Some(params[m].access),
{
    let n = params.len() as int;
    let here = with_params(out, index, params, m);
    let next = with_params(out, index, params, m + 1);
    let end = with_params(out, index, params, n);
    lemma_params_go_on(out, index, params, 0, m);
    lemma_params_go_on(out, index, params, m, n);
    lemma_params_go_on(out, index, params, m + 1, n);
    lemma_goes_on_trans(start, out, here);
    lemma_goes_on_trans(here, end, text);
    lemma_goes_on_trans(next, end, text);
    lemma_named_before(start, here, text);
    lemma_param_is_read(here, index, params[m]);
    assert(next == with_param(here, index, params[m]));
    lemma_param_props(params[m]);
    lemma_section_names(index, params[m].sub as u8);
    lemma_sections_stay(next, text);
    let kept = read(next).finished();
    let j = kept.len() - 1;
    assert(kept[j] == sections_of(text).subrange(0, kept.len() as int)[j]);
    j
}

// ---- Finding sections by name ----

proof fn lemma_same_object(a: Seq<char>, b: Seq<char>)
    requires
        same_but_case(a, b),
    ensures
        object_of(a) == object_of(b),
{
    assert(lowered(a) =~= lowered(b)) by {
        assert forall|i: int| 0 <= i < a.len() implies lowered(a)[i] == lowered(b)[i] by {
            assert(folded(a[i]) == folded(b[i]));
            assert(lower(a[i]) as u32 == folded(a[i]));
            assert(lower(b[i]) as u32 == folded(b[i]));
        }
    }
}

proof fn lemma_section_at(sections: Seq<SectionView>, name: Seq<char>, from: int, j: int)
    requires
        0 <= from <= j < sections.len(),
        sections[j].name == name,
        object_of(name) is Some,
        all_distinct(sections),
    ensures
        section_at(sections, name, from) == Some(j),
    decreases j - from,
{
    reveal(all_distinct);
    if from < j {
        if same_but_case(sections[from].name, name) {
            lemma_same_object(sections[from].name, name);
            assert(addresses_of(sections)[from] == addresses_of(sections)[j]);
        }
        lemma_section_at(sections, name, from + 1, j);
    }
}

// ---- PDOs ----

proof fn lemma_pdo_file_goes_on(od: DefinitionView, text: Seq<char>, k: int)
    requires
        eds_text(od) == Ok::<Seq<char>, ErrorView>(text),
        no_empty_head(text),
        0 <= k < od.pdos.len(),
    ensures
        ({
            let objects = before_entry(od, od.entries.len() as int);
            let flat = variables(od.entries);
            let mapped = mapped_objects(od.pdos[k], flat, od.pdos[k].mappings.len() as int);
            &&& with_pdos(objects, od.pdos, flat, k) matches Ok(before)
            &&& mapped is Ok
            &&& complete(before)
            &&& read(before).name.len() > 0
            &&& goes_on(with_pdo(before, od.pdos[k], mapped->Ok_0), text)
        }),
{
    let n = od.entries.len() as int;
    let objects = before_entry(od, n);
    let flat = variables(od.entries);
    let count = od.pdos.len() as int;
    lemma_file_goes_on(od, text, n);
    lemma_pdos_go_on(objects, od.pdos, flat, 0, count);
    lemma_pdos_go_on(objects, od.pdos, flat, k, count);
    lemma_pdos_go_on(objects, od.pdos, flat, k + 1, count);
    lemma_pdos_go_on(objects, od.pdos, flat, 0, k);
    let before = with_pdos(objects, od.pdos, flat, k)->Ok_0;
    let after = with_pdos(objects, od.pdos, flat, k + 1)->Ok_0;
    let all = with_pdos(objects, od.pdos, flat, count)->Ok_0;
    lemma_servers_go_on(all, od.sdo_servers, od.sdo_servers.len() as int);
    lemma_goes_on_trans(after, all, text);
    lemma_goes_on_trans(before, all, text);
    lemma_named_before(objects, before, text);
}

proof fn lemma_record_head_is_in_file(
    before: Seq<char>,
    index: u16,
    name: Seq<char>,
    count: nat,
    text: Seq<char>,
) -> (j: int)
    requires
        complete(before),
        read(before).name.len() > 0,
        tight(name),
        single_line(name),
        goes_on(with_record_head(before, index, name, count), text),
        count <= u64::MAX,
    ensures
        0 <= j < sections_of(text).len(),
        sections_of(text)[j].name == zero_filled(hex(index as nat), 4),
{
    lemma_words();
    reveal_strlit("ObjectType=0x9");
    reveal_strlit("ObjectType");
    reveal_strlit("0x9");
    reveal_strlit("SubNumber=");
    reveal_strlit("SubNumber");
    let idx = zero_filled(hex(index as nat), 4);
    lemma_heads(before, index, 0);
    lemma_section_names(index, 0);
    let a = with_head(before, index);
    lemma_written_head(before, idx);
    let b = with_line(a, "ParameterName="@, name);
    lemma_written_prop(a, "ParameterName="@, name, "ParameterName"@, name);
    let c = with_line(b, "ObjectType=0x9"@, ""@);
    assert("ObjectType=0x9"@ + ""@ =~= "ObjectType"@ + seq!['='] + "0x9"@);
    lemma_written_prop(b, "ObjectType=0x9"@, ""@, "ObjectType"@, "0x9"@);
    let t = decimal(count);
    lemma_digit_texts(count);
    lemma_decimal_line(count);
    let d = with_line(c, "SubNumber="@, t);
    assert("SubNumber="@ + t =~= "SubNumber"@ + seq!['='] + t);
    lemma_written_prop(c, "SubNumber="@, t, "SubNumber"@, t);
    crate::dictionary::file_laws::lemma_empty_line(d);
    let s = with_record_head(before, index, name, count);
    lemma_sections_stay(s, text);
    let kept = read(s).finished();
    let j = kept.len() - 1;
    assert(kept[j] == sections_of(text).subrange(0, kept.len() as int)[j]);
    j
}

/// A number in decimal stands on a line.
pub proof fn lemma_decimal_line(n: nat)
    ensures
        single_line(decimal(n)),
    decreases n,
{
    reveal_with_fuel(digits, 2);
    if n >= 10 {
        lemma_decimal_line(n / 10);
    }
}

proof fn lemma_record_name(direction: PdoDirection, number: u16)
    ensures
        tight(record_name(direction, number, " Communication"@)),
        single_line(record_name(direction, number, " Communication"@)),
        tight(record_name(direction, number, " Mapping"@)),
        single_line(record_name(direction, number, " Mapping"@)),
{
    reveal_strlit("TPDO");
    reveal_strlit("RPDO");
    reveal_strlit(" Communication");
    reveal_strlit(" Mapping");
    lemma_decimal_line(number as nat);
}

proof fn lemma_eight_digits(n: nat)
    requires
        n < 0x1_0000_0000,
    ensures
        int_value("0x"@ + zero_filled(hex(n), 8)) == Some(n as int),
        tight("0x"@ + zero_filled(hex(n), 8)),
        single_line("0x"@ + zero_filled(hex(n), 8)),
{
    reveal_strlit("0x");
    assert(hex(n).len() <= 8) by {
        reveal_with_fuel(digits, 9);
    }
    lemma_fixed_hex(n, 8);
    let s = zero_filled(hex(n), 8);
    lemma_lowered_value(s);
    lemma_hex_digits(n);
    assert forall|i: int| 0 <= i < s.len() implies digit_value(#[trigger] s[i], 16) is Some by {
        let pad = 8 - hex(n).len();
        if i >= pad {
            assert(s[i] == hex(n)[i - pad]);
        }
    }
    lemma_hex_is_tight(s);
    let t = "0x"@ + s;
    lemma_tight_is_trimmed(t);
    assert(t.skip(2) =~= s);
    assert(digit_value(s[0], 16) is Some);
}

/// A PDO of a definition that is exported is found in the file under its
/// number: with its COB-ID (the default one, if it has none of its own),
/// transmission type, inhibit time, event timer and kind of mapping; the mapping
/// record lists the mapped objects in order.
pub proof fn lemma_exported_pdo_is_imported(
    od: DefinitionView,
    text: Seq<char>,
    overrides: Seq<(u16, usize)>,
    k: int,
    mapped: Seq<PdoMapping>,
    entries: Seq<OdEntryView>,
)
    requires
        eds_text(od) == Ok::<Seq<char>, ErrorView>(text),
        no_empty_head(text),
        eds_content(text, overrides) is Ok,
        0 <= k < od.pdos.len(),
        1 <= od.pdos[k].number <= 512,
        mapped_objects(
            od.pdos[k],
            variables(od.entries),
            od.pdos[k].mappings.len() as int,
        ) == Ok::<Seq<PdoMapping>, ErrorView>(mapped),
        mapped.len() <= 64,
    ensures
        ({
            let pdo = od.pdos[k];
            let sections = sections_of(text);
            &&& pdo_at(sections, entries, pdo.direction, (pdo.number - 1) as u16) matches Some(
                (_, found),
            )
            &&& found.direction == pdo.direction
            &&& found.number == pdo.number
            &&& found.cob_id == Some(pdo_cob(pdo))
            &&& found.transmission_type == pdo.transmission_type
            &&& found.inhibit_time == if pdo.direction == PdoDirection::Tpdo {
                pdo.inhibit_time
            } else {
                0
            }
            &&& found.event_timer == pdo.event_timer
            &&& found.mapping == pdo.mapping
            &&& sub_default(sections, map_index(pdo), 0) == Some(mapped.len() as int)
            &&& forall|i: int|
                0 <= i < mapped.len() ==> sub_default(
                    sections,
                    map_index(pdo),
                    (i + 1) as nat,
                ) == Some(#[trigger] mapped[i].to_mapping_value() as int)
        }),
{
    let pdo = od.pdos[k];
    let sections = sections_of(text);
    let objects = before_entry(od, od.entries.len() as int);
    let flat = variables(od.entries);
    lemma_pdo_file_goes_on(od, text, k);
    let before = with_pdos(objects, od.pdos, flat, k)->Ok_0;
    assert(all_distinct(sections)) by {
        reveal(all_distinct);
        lemma_eds_sections_are_distinct(text, overrides);
    }
    lemma_comm_record_is_found(before, pdo, mapped, text);
    lemma_map_record_is_found(before, pdo, mapped, text);
    lemma_record_places(pdo);
    lemma_records_make_pdo(sections, pdo, entries);
}

/// The records of a PDO stand where its number says.
pub proof fn lemma_record_places(pdo: PdoDefView)
    requires
        1 <= pdo.number <= 512,
    ensures
        pdo.direction == PdoDirection::Tpdo ==> comm_index(pdo) == 0x17FF + pdo.number && map_index(
            pdo,
        ) == 0x19FF + pdo.number,
        pdo.direction == PdoDirection::Rpdo ==> comm_index(pdo) == 0x13FF + pdo.number && map_index(
            pdo,
        ) == 0x15FF + pdo.number,
{
}

#[verifier::spinoff_prover]
#[verifier::rlimit(60)]
proof fn lemma_records_make_pdo(
    sections: Seq<SectionView>,
    pdo: PdoDefView,
    entries: Seq<OdEntryView>,
)
    requires
        1 <= pdo.number <= 512,
        section_props(sections, zero_filled(hex(comm_index(pdo) as nat), 4)) is Some,
        sub_prop(sections, comm_index(pdo), 1, "DefaultValue"@) == Some(cob_text(pdo_cob(pdo))),
        sub_default(sections, comm_index(pdo), 2) == Some(pdo.transmission_type as int),
        pdo.direction == PdoDirection::Tpdo ==> sub_default(sections, comm_index(pdo), 3) == Some(
            pdo.inhibit_time as int,
        ),
        sub_default(sections, comm_index(pdo), 5) == Some(pdo.event_timer as int),
        cob_of(cob_text(pdo_cob(pdo))) == Some(pdo_cob(pdo)),
        sub_prop(sections, map_index(pdo), 0, "AccessType"@) == Some(mapping_access(pdo.mapping)),
        mapping_kind(Some(mapping_access(pdo.mapping))) == pdo.mapping,
    ensures
        ({
            &&& pdo_at(sections, entries, pdo.direction, (pdo.number - 1) as u16) matches Some(
                (_, found),
            )
            &&& found.direction == pdo.direction
            &&& found.number == pdo.number
            &&& found.cob_id == Some(pdo_cob(pdo))
            &&& found.transmission_type == pdo.transmission_type
            &&& found.inhibit_time == if pdo.direction == PdoDirection::Tpdo {
                pdo.inhibit_time
            } else {
                0
            }
            &&& found.event_timer == pdo.event_timer
            &&& found.mapping == pdo.mapping
        }),
{
    let n = (pdo.number - 1) as u16;
    lemma_record_places(pdo);
    let comm = (comm_start(pdo.direction) + n) as u16;
    let map = (comm_start(pdo.direction) + 0x200 + n) as u16;
    assert(comm == comm_index(pdo) && map == map_index(pdo));
    assert(pdo_at(sections, entries, pdo.direction, n) matches Some((_, found)) && found.cob_id
        == cob_of(cob_text(pdo_cob(pdo))));
}

/// Every object has at most one section.
#[verifier::opaque]
spec fn all_distinct(sections: Seq<SectionView>) -> bool {
    forall|i: int, k: int|
        0 <= i < k < addresses_of(sections).len() && #[trigger] addresses_of(sections)[i] is Some
            ==> addresses_of(sections)[i] != #[trigger] addresses_of(sections)[k]
}

proof fn lemma_param_is_found(
    start: Seq<char>,
    out: Seq<char>,
    index: u16,
    params: Seq<ParamView>,
    m: int,
    text: Seq<char>,
)
    requires
        complete(start),
        complete(out),
        no_empty_head(text),
        no_empty_head(start) ==> read(start).name.len() > 0,
        goes_on(start, out),
        0 <= m < params.len(),
        forall|i: int| 0 <= i < params.len() ==> (#[trigger] params[i]).sub >= 0,
        is_plain(params[m]),
        goes_on(with_params(out, index, params, params.len() as int), text),
        all_distinct(sections_of(text)),
    ensures
        sub_prop(sections_of(text), index, params[m].sub as nat, "DefaultValue"@) == Some(
            params[m].default_value,
        ),
        sub_prop(sections_of(text), index, params[m].sub as nat, "AccessType"@) == Some(
            params[m].access,
        ),
{
    let sub = params[m].sub as u8;
    let j = lemma_param_is_in_file(start, out, index, params, m, text);
    lemma_sub_object_name(index, sub);
    lemma_section_at(sections_of(text), sub_section(index, sub as nat), 0, j);
}

proof fn lemma_comm_words()
    ensures
        tight("rw"@),
        single_line("rw"@),
        tight("COB-ID"@),
        single_line("COB-ID"@),
        tight("Transmission Type"@),
        single_line("Transmission Type"@),
        tight("Inhibit Time"@),
        single_line("Inhibit Time"@),
        tight("Event Timer"@),
        single_line("Event Timer"@),
{
    reveal_strlit("rw");
    reveal_strlit("COB-ID");
    reveal_strlit("Transmission Type");
    reveal_strlit("Inhibit Time");
    reveal_strlit("Event Timer");
}

#[verifier::spinoff_prover]
#[verifier::rlimit(40)]
proof fn lemma_comm_record_is_found(
    before: Seq<char>,
    pdo: PdoDefView,
    mapped: Seq<PdoMapping>,
    text: Seq<char>,
)
    requires
        complete(before),
        read(before).name.len() > 0,
        no_empty_head(text),
        goes_on(with_pdo(before, pdo, mapped), text),
        all_distinct(sections_of(text)),
        1 <= pdo.number <= 512,
    ensures
        ({
            let sections = sections_of(text);
            let index = comm_index(pdo);
            &&& section_props(sections, zero_filled(hex(index as nat), 4)) is Some
            &&& sub_prop(sections, index, 1, "DefaultValue"@) == Some(cob_text(pdo_cob(pdo)))
            &&& sub_default(sections, index, 2) == Some(pdo.transmission_type as int)
            &&& pdo.direction == PdoDirection::Tpdo ==> sub_default(sections, index, 3) == Some(
                pdo.inhibit_time as int,
            )
            &&& sub_default(sections, index, 5) == Some(pdo.event_timer as int)
            &&& cob_of(cob_text(pdo_cob(pdo))) == Some(pdo_cob(pdo))
        }),
{
    let index = comm_index(pdo);
    let params = comm_params(pdo);
    let head = with_comm_head(before, pdo);
    let comm = with_comm(before, pdo);
    lemma_pdo_goes_on(before, pdo, mapped);
    lemma_goes_on_trans(comm, with_pdo(before, pdo, mapped), text);
    let name = record_name(pdo.direction, pdo.number, " Communication"@);
    let count: nat = if pdo.direction == PdoDirection::Tpdo {
        5
    } else {
        4
    };
    lemma_record_head_goes_on(before, index, name, count);
    let n = params.len() as int;
    assert(n == count);
    assert forall|i: int| 0 <= i < n implies (#[trigger] params[i]).sub >= 0 by {}
    lemma_params_go_on(head, index, params, 0, n);
    lemma_goes_on_trans(head, comm, text);
    lemma_record_name(pdo.direction, pdo.number);
    let j = lemma_record_head_is_in_file(before, index, name, count, text);
    lemma_object_name(index);
    lemma_section_at(sections_of(text), zero_filled(hex(index as nat), 4), 0, j);
    lemma_cob_id_roundtrip(pdo_cob(pdo));
    lemma_hex_text(pdo.transmission_type as nat);
    lemma_hex_text(pdo.inhibit_time as nat);
    lemma_hex_text(pdo.event_timer as nat);
    lemma_comm_words();
    assert(is_plain(params[1]));
    assert(is_plain(params[2]));
    assert(is_plain(params[3]));
    lemma_param_is_found(before, head, index, params, 1, text);
    lemma_param_is_found(before, head, index, params, 2, text);
    lemma_param_is_found(before, head, index, params, 3, text);
    if pdo.direction == PdoDirection::Tpdo {
        assert(is_plain(params[4]));
        lemma_param_is_found(before, head, index, params, 4, text);
    }
}

#[verifier::spinoff_prover]
#[verifier::rlimit(40)]
proof fn lemma_map_record_is_found(
    before: Seq<char>,
    pdo: PdoDefView,
    mapped: Seq<PdoMapping>,
    text: Seq<char>,
)
    requires
        complete(before),
        read(before).name.len() > 0,
        no_empty_head(text),
        goes_on(with_pdo(before, pdo, mapped), text),
        all_distinct(sections_of(text)),
        mapped.len() <= 64,
    ensures
        ({
            let sections = sections_of(text);
            let index = map_index(pdo);
            &&& sub_prop(sections, index, 0, "AccessType"@) == Some(mapping_access(pdo.mapping))
            &&& mapping_kind(Some(mapping_access(pdo.mapping))) == pdo.mapping
            &&& sub_default(sections, index, 0) == Some(mapped.len() as int)
            &&& forall|i: int|
                0 <= i < mapped.len() ==> sub_default(sections, index, (i + 1) as nat) == Some(
                    #[trigger] mapped[i].to_mapping_value() as int,
                )
        }),
{
    let index = map_index(pdo);
    let params = map_params(pdo, mapped);
    let comm = with_comm(before, pdo);
    let head = with_map_head(comm, pdo, mapped);
    lemma_pdo_goes_on(before, pdo, mapped);
    lemma_pdo_is_params(before, pdo, mapped);
    lemma_params_go_on(
        with_comm_head(before, pdo),
        comm_index(pdo),
        comm_params(pdo),
        0,
        comm_params(pdo).len() as int,
    );
    lemma_record_head_goes_on(
        before,
        comm_index(pdo),
        record_name(pdo.direction, pdo.number, " Communication"@),
        if pdo.direction == PdoDirection::Tpdo {
            5
        } else {
            4
        },
    );
    lemma_goes_on_trans(before, with_comm_head(before, pdo), comm);
    lemma_record_head_goes_on(
        comm,
        index,
        record_name(pdo.direction, pdo.number, " Mapping"@),
        mapping_rows(pdo.mapping, mapped.len()) + 1,
    );
    lemma_goes_on_trans(before, comm, head);
    assert forall|i: int| 0 <= i < params.len() implies (#[trigger] params[i]).sub >= 0 by {}
    lemma_mapping_kind_roundtrip(pdo.mapping);
    lemma_hex_text(mapped.len());
    reveal_strlit("Number of Mapped Objects");
    lemma_param_is_found(before, head, index, params, 0, text);
    assert forall|i: int| 0 <= i < mapped.len() implies sub_default(
        sections_of(text),
        index,
        (i + 1) as nat,
    ) == Some(#[trigger] mapped[i].to_mapping_value() as int) by {
        let p = params[i + 1];
        assert(p == mapping_param(i + 1, pdo.mapping, mapped));
        lemma_eight_digits(mapped[i].to_mapping_value() as nat);
        reveal_strlit("Mapping Entry ");
        lemma_decimal_line((i + 1) as nat);
        lemma_digit_texts((i + 1) as nat);
        assert(p.name.last() == decimal((i + 1) as nat).last());
        lemma_param_is_found(before, head, index, params, i + 1, text);
    }
}

/// A PDO without a COB-ID of its own is exported with the predefined one: of
/// those that are sent, 0x180, 0x280, 0x380 and 0x480 plus the node ID, and of
/// those that are received, 0x200, 0x300, 0x400 and 0x500; the others with none.
pub proof fn lemma_exported_cob_ids(pdo: PdoDefView)
    requires
        1 <= pdo.number <= 512,
    ensures
        pdo.cob_id matches Some(cob) ==> pdo_cob(pdo) == cob,
        pdo.cob_id is None && pdo.number > 4 ==> pdo_cob(pdo) == CobIdSpec::Absolute(0),
        pdo.cob_id is None && pdo.direction == PdoDirection::Tpdo ==> {
            &&& pdo.number == 1 ==> pdo_cob(pdo) == CobIdSpec::NodeRelative(0x180)
            &&& pdo.number == 2 ==> pdo_cob(pdo) == CobIdSpec::NodeRelative(0x280)
            &&& pdo.number == 3 ==> pdo_cob(pdo) == CobIdSpec::NodeRelative(0x380)
            &&& pdo.number == 4 ==> pdo_cob(pdo) == CobIdSpec::NodeRelative(0x480)
        },
        pdo.cob_id is None && pdo.direction == PdoDirection::Rpdo ==> {
            &&& pdo.number == 1 ==> pdo_cob(pdo) == CobIdSpec::NodeRelative(0x200)
            &&& pdo.number == 2 ==> pdo_cob(pdo) == CobIdSpec::NodeRelative(0x300)
            &&& pdo.number == 3 ==> pdo_cob(pdo) == CobIdSpec::NodeRelative(0x400)
            &&& pdo.number == 4 ==> pdo_cob(pdo) == CobIdSpec::NodeRelative(0x500)
        },
{
}

// ---- SDO servers ----

spec fn server_params(s: SdoServerDef) -> Seq<ParamView> {
    seq![
        server_row(0, "Number of Entries"@, 0x0005, "2"@),
        server_row(1, "COB-ID Client to Server"@, 0x0007, cob_text(s.cob_rx)),
        server_row(2, "COB-ID Server to Client"@, 0x0007, cob_text(s.cob_tx)),
    ]
}

proof fn lemma_server_words()
    ensures
        tight("const"@),
        single_line("const"@),
        tight("2"@),
        single_line("2"@),
        tight("Number of Entries"@),
        single_line("Number of Entries"@),
        tight("COB-ID Client to Server"@),
        single_line("COB-ID Client to Server"@),
        tight("COB-ID Server to Client"@),
        single_line("COB-ID Server to Client"@),
        "2"@ == decimal(2),
{
    reveal_strlit("const");
    reveal_strlit("2");
    reveal_strlit("Number of Entries");
    reveal_strlit("COB-ID Client to Server");
    reveal_strlit("COB-ID Server to Client");
    reveal_with_fuel(digits, 2);
    assert("2"@ =~= decimal(2));
}

proof fn lemma_server_file_goes_on(od: DefinitionView, text: Seq<char>, k: int)
    requires
        eds_text(od) == Ok::<Seq<char>, ErrorView>(text),
        no_empty_head(text),
        0 <= k < od.sdo_servers.len(),
    ensures
        ({
            let objects = before_entry(od, od.entries.len() as int);
            let count = od.pdos.len() as int;
            &&& with_pdos(objects, od.pdos, variables(od.entries), count) matches Ok(pdos)
            &&& {
                let before = with_servers(pdos, od.sdo_servers, k);
                &&& complete(before)
                &&& read(before).name.len() > 0
                &&& goes_on(with_server(before, od.sdo_servers[k]), text)
            }
        }),
{
    let n = od.entries.len() as int;
    let objects = before_entry(od, n);
    let flat = variables(od.entries);
    let count = od.pdos.len() as int;
    lemma_file_goes_on(od, text, n);
    lemma_pdos_go_on(objects, od.pdos, flat, 0, count);
    let pdos = with_pdos(objects, od.pdos, flat, count)->Ok_0;
    let all = od.sdo_servers.len() as int;
    let before = with_servers(pdos, od.sdo_servers, k);
    lemma_more_servers_go_on(pdos, od.sdo_servers, 0, k);
    lemma_more_servers_go_on(pdos, od.sdo_servers, k, all);
    lemma_more_servers_go_on(pdos, od.sdo_servers, k + 1, all);
    lemma_goes_on_trans(objects, pdos, before);
    lemma_named_before(objects, before, text);
}

proof fn lemma_server_is_params(before: Seq<char>, s: SdoServerDef)
    requires
        2 <= s.number <= 128,
    ensures
        ({
            let index = (0x11FF + s.number) as u16;
            let head = with_record_head(before, index, "SDO Server Parameter"@, 3);
            with_server(before, s) == with_params(head, index, server_params(s), 3)
        }),
{
    reveal(with_server);
    reveal_with_fuel(with_params, 4);
    assert((0x11FF + s.number) as u16 == record_at(0x1200, s.number));
    let params = server_params(s);
    assert(params[0] == server_row(0, "Number of Entries"@, 0x0005, "2"@));
}

#[verifier::spinoff_prover]
#[verifier::rlimit(40)]
proof fn lemma_server_param_is_found(
    before: Seq<char>,
    s: SdoServerDef,
    m: int,
    text: Seq<char>,
)
    requires
        complete(before),
        read(before).name.len() > 0,
        no_empty_head(text),
        goes_on(with_server(before, s), text),
        all_distinct(sections_of(text)),
        2 <= s.number <= 128,
        0 <= m < 3,
    ensures
        ({
            let index = (0x11FF + s.number) as u16;
            &&& sub_prop(sections_of(text), index, m as nat, "DefaultValue"@) == Some(
                server_params(s)[m].default_value,
            )
            &&& sub_prop(sections_of(text), index, m as nat, "AccessType"@) == Some("const"@)
        }),
{
    let index = (0x11FF + s.number) as u16;
    let head = with_record_head(before, index, "SDO Server Parameter"@, 3);
    lemma_record_head_goes_on(before, index, "SDO Server Parameter"@, 3);
    lemma_server_is_params(before, s);
    let params = server_params(s);
    lemma_server_words();
    lemma_cob_id_roundtrip(s.cob_rx);
    lemma_cob_id_roundtrip(s.cob_tx);
    assert forall|i: int| 0 <= i < params.len() implies (#[trigger] params[i]).sub >= 0 by {}
    assert(is_plain(params[m]));
    lemma_param_is_found(before, head, index, params, m, text);
}

/// The record of an SDO server of a definition that is exported is found in the
/// file at 0x11FF plus its number: with the COB-ID from the client at 1 and the
/// one to the client at 2. Its parameters are constant.
pub proof fn lemma_exported_server_is_found(
    od: DefinitionView,
    text: Seq<char>,
    overrides: Seq<(u16, usize)>,
    k: int,
)
    requires
        eds_text(od) == Ok::<Seq<char>, ErrorView>(text),
        no_empty_head(text),
        eds_content(text, overrides) is Ok,
        0 <= k < od.sdo_servers.len(),
        2 <= od.sdo_servers[k].number <= 128,
    ensures
        ({
            let s = od.sdo_servers[k];
            let sections = sections_of(text);
            let index = (0x11FF + s.number) as u16;
            &&& sub_default(sections, index, 0) == Some(2int)
            &&& sub_prop(sections, index, 1, "DefaultValue"@) matches Some(t) && cob_of(t) == Some(
                s.cob_rx,
            )
            &&& sub_prop(sections, index, 2, "DefaultValue"@) matches Some(t) && cob_of(t) == Some(
                s.cob_tx,
            )
            &&& sub_prop(sections, index, 1, "AccessType"@) == Some("const"@)
            &&& sub_prop(sections, index, 2, "AccessType"@) == Some("const"@)
        }),
{
    let s = od.sdo_servers[k];
    assert(all_distinct(sections_of(text))) by {
        reveal(all_distinct);
        lemma_eds_sections_are_distinct(text, overrides);
    }
    lemma_server_file_goes_on(od, text, k);
    let objects = before_entry(od, od.entries.len() as int);
    let pdos = with_pdos(objects, od.pdos, variables(od.entries), od.pdos.len() as int)->Ok_0;
    let before = with_servers(pdos, od.sdo_servers, k);
    lemma_server_param_is_found(before, s, 0, text);
    lemma_server_param_is_found(before, s, 1, text);
    lemma_server_param_is_found(before, s, 2, text);
    lemma_cob_id_roundtrip(s.cob_rx);
    lemma_cob_id_roundtrip(s.cob_tx);
    lemma_server_words();
    lemma_digit_texts(2);
}

} // verus!
