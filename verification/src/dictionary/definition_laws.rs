//! What holds of every definition that is read, and of every client for one.

use crate::dictionary::definition::{KindView, OdEntryView, PdoDefView, PdoDirection, SubView};
use crate::dictionary::dsl::{definition_of, want_item, want_items, ItemsView};
use crate::dictionary::eds_export::{ascending, lemma_sorted, sorted};
use crate::dictionary::eds_parser::{
    addresses_of, all_entries, all_pdos, duplicate, eds_content, entries_at, entries_of, locate,
    mapped_field, mapping_rows, marked, object_indices, pdos_of, section_for, sub_default,
};
use crate::dictionary::sdo_client_codegen::{
    addressed, entry_methods, indexed, methods_of, record_methods, var_methods, ClientAccess,
    ClientSub, MethodView,
};
use crate::dictionary::token::Tok;
use crate::ini::{lower, lowered, sections_of, SectionView};
use crate::text::{digits, digits_value, hex, lemma_digits_roundtrip, zero_filled};
use vstd::prelude::*;

verus! {

// ---- Definitions in the definition language ----

/// A PDO is numbered from 1 to 512, maps up to 64 objects, and has a COB-ID of
/// its own unless one is predefined for its number.
pub open spec fn is_possible(pdo: PdoDefView) -> bool {
    &&& 1 <= pdo.number <= 512
    &&& pdo.mappings.len() <= 64
    &&& pdo.number > 4 ==> pdo.cob_id is Some
}

/// All PDOs of a list are possible ones.
pub open spec fn all_possible(pdos: Seq<PdoDefView>) -> bool {
    forall|i: int| 0 <= i < pdos.len() ==> is_possible(#[trigger] pdos[i])
}

proof fn lemma_item_is_possible(t: Seq<Tok>, pos: int, items: ItemsView)
    requires
        all_possible(items.pdos),
    ensures
        want_item(t, pos, items) matches Ok((after, _)) ==> all_possible(after.pdos),
{
    reveal(want_item);
}

proof fn lemma_items_are_possible(t: Seq<Tok>, pos: int, items: ItemsView)
    requires
        all_possible(items.pdos),
    ensures
        want_items(t, pos, items) matches Ok((after, _)) ==> all_possible(after.pdos),
    decreases t.len() - pos,
{
    lemma_item_is_possible(t, pos, items);
    match want_item(t, pos, items) {
        Ok((after, p)) => if pos < p <= t.len() {
            lemma_items_are_possible(t, p, after);
        },
        Err(_) => {},
    }
}

/// Every PDO of a definition that is accepted is a possible one.
pub proof fn lemma_defined_pdos_are_possible(t: Seq<Tok>)
    ensures
        definition_of(t) matches Ok(d) ==> all_possible(d.pdos),
{
    let none = ItemsView { entries: Seq::empty(), pdos: Seq::empty(), servers: Seq::empty() };
    assert forall|p: int|
        #[trigger] want_items(t, p, none) matches Ok((after, _)) ==> all_possible(after.pdos) by {
        lemma_items_are_possible(t, p, none);
    }
}

// ---- Names of client methods ----

proof fn lemma_leading_zeros(k: nat, s: Seq<char>)
    ensures
        digits_value(Seq::new(k, |i: int| '0') + s, 16) == digits_value(s, 16),
    decreases k + s.len(),
{
    let zeros = Seq::new(k, |i: int| '0');
    let t = zeros + s;
    if s.len() > 0 {
        lemma_leading_zeros(k, s.drop_last());
        assert(t.drop_last() =~= zeros + s.drop_last());
    } else if k > 0 {
        lemma_leading_zeros((k - 1) as nat, s);
        assert(t.drop_last() =~= Seq::new((k - 1) as nat, |i: int| '0') + s);
        assert(t.last() == '0');
    } else {
        assert(t =~= s);
    }
}

pub proof fn lemma_lowered_value(s: Seq<char>)
    ensures
        digits_value(lowered(s), 16) == digits_value(s, 16),
    decreases s.len(),
{
    if s.len() > 0 {
        lemma_lowered_value(s.drop_last());
        assert(lowered(s).drop_last() =~= lowered(s.drop_last()));
        assert(lowered(s).last() == lower(s.last()));
    }
}

pub proof fn lemma_hex_length(n: nat)
    ensures
        n < 0x100 ==> hex(n).len() <= 2,
        n < 0x1_0000 ==> hex(n).len() <= 4,
{
    reveal_with_fuel(digits, 5);
}

pub proof fn lemma_fixed_hex(n: nat, width: nat)
    requires
        hex(n).len() <= width,
    ensures
        lowered(zero_filled(hex(n), width)).len() == width,
        digits_value(lowered(zero_filled(hex(n), width)), 16) == Some(n as int),
{
    lemma_digits_roundtrip(n, 16);
    lemma_lowered_value(zero_filled(hex(n), width));
    if hex(n).len() < width {
        lemma_leading_zeros((width - hex(n).len()) as nat, hex(n));
    }
}

/// What the name of a method begins with.
pub open spec fn name_prefix(access: ClientAccess, index: u16, sub: ClientSub) -> Seq<char> {
    let verb = match access {
        ClientAccess::Read => "read_"@,
        ClientAccess::Write => "write_"@,
    };
    match sub {
        ClientSub::At(sub) => addressed(verb, index, sub),
        ClientSub::UpTo(_) => indexed(verb, index),
    }
}

/// The name of a method begins with what it does and where.
pub open spec fn tells_address(m: MethodView) -> bool {
    name_prefix(m.access, m.index, m.sub).is_prefix_of(m.name)
}

/// The names of all methods begin with what they do and where.
pub open spec fn all_tell_address(methods: Seq<MethodView>) -> bool {
    forall|i: int| 0 <= i < methods.len() ==> tells_address(#[trigger] methods[i])
}

proof fn lemma_record_names(index: u16, name: Seq<char>, subs: Seq<SubView>, n: int)
    ensures
        all_tell_address(record_methods(index, name, subs, n)),
    decreases n,
{
    if 0 < n <= subs.len() {
        lemma_record_names(index, name, subs, n - 1);
        let s = subs[n - 1];
        let here = var_methods(index, s.subindex, name + "_"@ + s.name, s.var.ty, s.var.access);
        assert(all_tell_address(here));
    }
}

proof fn lemma_names(entries: Seq<OdEntryView>, n: int)
    ensures
        all_tell_address(methods_of(entries, n)),
    decreases n,
{
    if 0 < n <= entries.len() {
        lemma_names(entries, n - 1);
        let e = entries[n - 1];
        match e.kind {
            KindView::Var(v) => {},
            KindView::Record(subs) => {
                lemma_record_names(e.index, e.name, subs, subs.len() as int);
            },
            KindView::Array(a) => {},
        }
        assert(all_tell_address(entry_methods(e)));
    }
}

proof fn lemma_indexed(verb: Seq<char>, index: u16, name: Seq<char>)
    requires
        indexed(verb, index).is_prefix_of(name),
    ensures
        indexed(verb, index).len() == verb.len() + 6,
        name.len() >= verb.len() + 6,
        verb == name.take(verb.len() as int),
        digits_value(name.subrange(verb.len() + 1int, verb.len() + 5int), 16) == Some(index as int),
{
    reveal_strlit("i");
    reveal_strlit("_");
    lemma_hex_length(index as nat);
    lemma_fixed_hex(index as nat, 4);
    let p = indexed(verb, index);
    let at = lowered(zero_filled(hex(index as nat), 4));
    assert(p.subrange(verb.len() + 1int, verb.len() + 5int) =~= at);
    assert(name.subrange(verb.len() + 1int, verb.len() + 5int) =~= p.subrange(
        verb.len() + 1int,
        verb.len() + 5int,
    ));
    assert(name.take(verb.len() as int) =~= p.take(verb.len() as int));
    assert(p.take(verb.len() as int) =~= verb);
}

proof fn lemma_addressed(verb: Seq<char>, index: u16, sub: u8, name: Seq<char>)
    requires
        addressed(verb, index, sub).is_prefix_of(name),
    ensures
        indexed(verb, index).is_prefix_of(name),
        digits_value(name.subrange(verb.len() + 7int, verb.len() + 9int), 16) == Some(sub as int),
{
    reveal_strlit("s");
    reveal_strlit("_");
    lemma_hex_length(sub as nat);
    lemma_fixed_hex(sub as nat, 2);
    let front = indexed(verb, index);
    let p = addressed(verb, index, sub);
    let at = lowered(zero_filled(hex(sub as nat), 2));
    assert(p.take(front.len() as int) =~= front);
    assert(name.take(front.len() as int) =~= p.take(front.len() as int));
    assert(front.is_prefix_of(name));
    lemma_indexed(verb, index, name);
    assert(p.subrange(verb.len() + 7int, verb.len() + 9int) =~= at);
    assert(name.subrange(verb.len() + 7int, verb.len() + 9int) =~= p.subrange(
        verb.len() + 7int,
        verb.len() + 9int,
    ));
}

/// Methods of one name do the same at the same address: no two objects of a
/// dictionary share a method, whatever they are named.
pub proof fn lemma_method_names_tell_address(entries: Seq<OdEntryView>, i: int, j: int)
    requires
        0 <= i < methods_of(entries, entries.len() as int).len(),
        0 <= j < methods_of(entries, entries.len() as int).len(),
    ensures
        ({
            let a = methods_of(entries, entries.len() as int)[i];
            let b = methods_of(entries, entries.len() as int)[j];
            a.name == b.name ==> {
                &&& a.access == b.access
                &&& a.index == b.index
                &&& a.sub is At && b.sub is At ==> a.sub == b.sub
            }
        }),
{
    lemma_names(entries, entries.len() as int);
    let a = methods_of(entries, entries.len() as int)[i];
    let b = methods_of(entries, entries.len() as int)[j];
    assert(tells_address(a) && tells_address(b));
    reveal_strlit("read_");
    reveal_strlit("write_");
    lemma_method_address(a);
    lemma_method_address(b);
    assert(a.access == ClientAccess::Read <==> a.name[0] == 'r');
    assert(b.access == ClientAccess::Read <==> b.name[0] == 'r');
}

proof fn lemma_method_address(m: MethodView)
    requires
        tells_address(m),
    ensures
        ({
            let n: int = if m.access == ClientAccess::Read {
                5
            } else {
                6
            };
            &&& m.access == ClientAccess::Read <==> m.name[0] == 'r'
            &&& digits_value(m.name.subrange(n + 1, n + 5), 16) == Some(m.index as int)
            &&& m.sub matches ClientSub::At(sub) ==> digits_value(
                m.name.subrange(n + 7, n + 9),
                16,
            ) == Some(sub as int)
        }),
{
    reveal_strlit("read_");
    reveal_strlit("write_");
    let verb = match m.access {
        ClientAccess::Read => "read_"@,
        ClientAccess::Write => "write_"@,
    };
    match m.sub {
        ClientSub::At(sub) => {
            lemma_addressed(verb, m.index, sub, m.name);
        },
        ClientSub::UpTo(_) => {},
    }
    lemma_indexed(verb, m.index, m.name);
    assert(m.name[0] == m.name.take(verb.len() as int)[0]);
}

// ---- EDS files ----

/// The indices of entries.
pub open spec fn indices_of(entries: Seq<OdEntryView>) -> Seq<u16> {
    entries.map_values(|e: OdEntryView| e.index)
}

/// Entries stand in the order of their indices.
pub open spec fn in_order(entries: Seq<OdEntryView>) -> bool {
    forall|i: int, j: int|
        0 <= i < j < entries.len() ==> (#[trigger] entries[i]).index <= (
        #[trigger] entries[j]).index
}

proof fn lemma_entries_in_order(
    sections: Seq<SectionView>,
    overrides: Seq<(u16, usize)>,
    indices: Seq<u16>,
    n: int,
)
    requires
        ascending(indices),
        0 <= n <= indices.len(),
    ensures
        in_order(entries_of(sections, overrides, indices, n)),
        forall|i: int|
            0 <= i < entries_of(sections, overrides, indices, n).len() ==> n > 0 && (
            #[trigger] entries_of(sections, overrides, indices, n)[i]).index <= indices[n - 1],
    decreases n,
{
    if n > 0 {
        lemma_entries_in_order(sections, overrides, indices, n - 1);
        let front = entries_of(sections, overrides, indices, n - 1);
        let here = entries_at(sections, overrides, indices[n - 1]);
        let all = entries_of(sections, overrides, indices, n);
        assert(all == front + here);
        assert forall|k: int| 0 <= k < here.len() implies (#[trigger] here[k]).index == indices[n
            - 1] by {}
        assert forall|i: int| 0 <= i < all.len() implies (#[trigger] all[i]).index <= indices[n
            - 1] by {
            if i < front.len() {
                assert(all[i] == front[i]);
                assert(indices[n - 2] < indices[n - 1]);
            } else {
                assert(all[i] == here[i - front.len()]);
            }
        }
        assert forall|i: int, j: int| 0 <= i < j < all.len() implies (#[trigger] all[i]).index <= (
        #[trigger] all[j]).index by {
            if j < front.len() {
                assert(all[i] == front[i] && all[j] == front[j]);
            } else {
                assert(all[j] == here[j - front.len()]);
            }
        }
    }
}

proof fn lemma_locate(entries: Seq<OdEntryView>, index: u16, sub: u8, from: int)
    ensures
        locate(entries, index, sub, from) matches Some((i, _)) ==> 0 <= i < entries.len(),
    decreases entries.len() - from,
{
    if 0 <= from < entries.len() {
        lemma_locate(entries, index, sub, from + 1);
    }
}

proof fn lemma_field_keeps_indices(entries: Seq<OdEntryView>, value: u32)
    ensures
        indices_of(mapped_field(entries, value).0) == indices_of(entries),
{
    let index = (value / 0x1_0000) as u16;
    let sub = (value / 0x100 % 0x100) as u8;
    lemma_locate(entries, index, sub, 0);
    match locate(entries, index, sub, 0) {
        Some((i, k)) => {
            assert(indices_of(marked(entries, i, k)) =~= indices_of(entries));
        },
        None => {},
    }
}

proof fn lemma_rows_keep_indices(
    sections: Seq<SectionView>,
    index: u16,
    entries: Seq<OdEntryView>,
    n: int,
)
    ensures
        indices_of(mapping_rows(sections, index, entries, n).0) == indices_of(entries),
    decreases n,
{
    if n > 0 {
        lemma_rows_keep_indices(sections, index, entries, n - 1);
        let before = mapping_rows(sections, index, entries, n - 1).0;
        match sub_default(sections, index, n as nat) {
            Some(v) => {
                lemma_field_keeps_indices(before, (v % 0x1_0000_0000) as u32);
            },
            None => {},
        }
    }
}

proof fn lemma_pdos_keep_indices(
    sections: Seq<SectionView>,
    start: (Seq<OdEntryView>, Seq<PdoDefView>),
    direction: PdoDirection,
    n: int,
)
    ensures
        indices_of(pdos_of(sections, start, direction, n).0) == indices_of(start.0),
    decreases n,
{
    if n > 0 {
        lemma_pdos_keep_indices(sections, start, direction, n - 1);
        let before = pdos_of(sections, start, direction, n - 1);
        assert forall|index: u16, k: int|
            indices_of((#[trigger] mapping_rows(sections, index, before.0, k)).0) == indices_of(
                before.0,
            ) by {
            lemma_rows_keep_indices(sections, index, before.0, k);
        }
    }
}

/// The entries of an EDS file that is accepted stand in the order of their
/// indices, in whatever order the file has them.
pub proof fn lemma_eds_entries_in_order(content: Seq<char>, overrides: Seq<(u16, usize)>)
    ensures
        eds_content(content, overrides) matches Ok((entries, _)) ==> in_order(entries),
{
    let sections = sections_of(content);
    let addresses = addresses_of(sections);
    let indices = sorted(object_indices(addresses, addresses.len() as int));
    lemma_sorted(object_indices(addresses, addresses.len() as int));
    lemma_entries_in_order(sections, overrides, indices, indices.len() as int);
    let entries = all_entries(sections, overrides);
    let first = pdos_of(sections, (entries, Seq::empty()), PdoDirection::Tpdo, 512);
    lemma_pdos_keep_indices(sections, (entries, Seq::empty()), PdoDirection::Tpdo, 512);
    lemma_pdos_keep_indices(sections, first, PdoDirection::Rpdo, 512);
    let last = all_pdos(sections, entries).0;
    assert(indices_of(last) == indices_of(entries));
    assert(indices_of(last).len() == last.len());
    assert forall|i: int, j: int| 0 <= i < j < last.len() implies (#[trigger] last[i]).index <= (
    #[trigger] last[j]).index by {
        assert(indices_of(last)[i] == last[i].index && indices_of(last)[j] == last[j].index);
        assert(indices_of(entries)[i] == entries[i].index && indices_of(entries)[j]
            == entries[j].index);
    }
}

/// The section that is found for an address is not behind one that describes it.
pub proof fn lemma_section_for(
    addresses: Seq<Option<(u16, Option<u8>)>>,
    a: (u16, Option<u8>),
    from: int,
    i: int,
)
    requires
        0 <= from <= i < addresses.len(),
        addresses[i] == Some(a),
    ensures
        section_for(addresses, a, from) matches Some(j) && from <= j <= i,
    decreases i - from,
{
    if addresses[from] != Some(a) {
        lemma_section_for(addresses, a, from + 1, i);
    }
}

proof fn lemma_distinct(addresses: Seq<Option<(u16, Option<u8>)>>, n: int)
    requires
        0 <= n <= addresses.len(),
        duplicate(addresses, n) is None,
    ensures
        forall|i: int, j: int|
            0 <= i < j < n && #[trigger] addresses[i] is Some ==> addresses[i]
                != #[trigger] addresses[j],
    decreases n,
{
    if n > 0 {
        lemma_distinct(addresses, n - 1);
        assert forall|i: int| 0 <= i < n - 1 && #[trigger] addresses[i] is Some implies addresses[i]
            != addresses[n - 1] by {
            if addresses[i] == addresses[n - 1] {
                lemma_section_for(addresses, addresses[i]->0, 0, i);
            }
        }
    }
}

/// No two sections of an EDS file that is accepted describe one object.
pub proof fn lemma_eds_sections_are_distinct(content: Seq<char>, overrides: Seq<(u16, usize)>)
    ensures
        eds_content(content, overrides) is Ok ==> {
            let addresses = addresses_of(sections_of(content));
            forall|i: int, j: int|
                0 <= i < j < addresses.len() && #[trigger] addresses[i] is Some ==> addresses[i]
                    != #[trigger] addresses[j]
        },
{
    let addresses = addresses_of(sections_of(content));
    if eds_content(content, overrides) is Ok {
        lemma_distinct(addresses, addresses.len() as int);
    }
}

} // verus!
