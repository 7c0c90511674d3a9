//! EDS files of definitions.

use crate::dictionary::definition::{
    data_type, data_type_of, entry_views, pdo_views, sub_views, AccessKind, ArrayView, CobIdSpec,
    DefinitionView, EntryKind, KindView, MappingKind, OdDefinition, OdEntry, OdEntryView, PdoDef,
    PdoDefView, PdoDirection, SdoServerDef, SubView, VarDef, VarView,
};
use crate::dictionary::mapping::{
    flat_views, flatten, mapped_objects, resolve_pdo_mappings, variables, ErrorView, FlatView,
    GenerateError,
};
use crate::pdo::config::PdoMapping;
use crate::text::{
    append_chars, append_decimal, append_hex, append_hex_filled, append_str, append_wide_decimal,
    chars_of, decimal, hex, string_of, zero_filled,
};
use vstd::prelude::*;

verus! {

// ---- Lines ----

/// A text with a line appended, made of a key and a value.
pub open spec fn with_line(out: Seq<char>, key: Seq<char>, value: Seq<char>) -> Seq<char> {
    out + key + value + "\n"@
}

/// A text with the head of the section of an object appended.
pub open spec fn with_head(out: Seq<char>, index: u16) -> Seq<char> {
    out + "["@ + zero_filled(hex(index as nat), 4) + "]\n"@
}

/// A text with the head of the section of a sub-object appended.
pub open spec fn with_sub_head(out: Seq<char>, index: u16, sub: int) -> Seq<char> {
    out + "["@ + zero_filled(hex(index as nat), 4) + "sub"@ + hex(sub as nat) + "]\n"@
}

fn line(out: &mut Vec<char>, key: &str, value: &[char])
    ensures
        final(out)@ == with_line(old(out)@, key@, value@),
{
    append_str(out, key);
    append_chars(out, value);
    append_str(out, "\n");
}

fn str_line(out: &mut Vec<char>, key: &str, value: &str)
    ensures
        final(out)@ == with_line(old(out)@, key@, value@),
{
    append_str(out, key);
    append_str(out, value);
    append_str(out, "\n");
}

fn decimal_line(out: &mut Vec<char>, key: &str, n: u128)
    ensures
        final(out)@ == with_line(old(out)@, key@, decimal(n as nat)),
{
    append_str(out, key);
    append_wide_decimal(out, n);
    append_str(out, "\n");
}

fn hex_line(out: &mut Vec<char>, key: &str, n: u64, width: usize)
    ensures
        final(out)@ == with_line(old(out)@, key@, zero_filled(hex(n as nat), width as nat)),
{
    append_str(out, key);
    append_hex_filled(out, n, width);
    append_str(out, "\n");
}

fn head(out: &mut Vec<char>, index: u16)
    ensures
        final(out)@ == with_head(old(out)@, index),
{
    append_str(out, "[");
    append_hex_filled(out, index as u64, 4);
    append_str(out, "]\n");
}

fn sub_head(out: &mut Vec<char>, index: u16, sub: u64)
    ensures
        final(out)@ == with_sub_head(old(out)@, index, sub as int),
{
    append_str(out, "[");
    append_hex_filled(out, index as u64, 4);
    append_str(out, "sub");
    append_hex(out, sub);
    append_str(out, "]\n");
}

// ---- Variables and elements ----

/// The code of a type by its name. A name that stands for no type has the code
/// of 32-bit unsigned integers.
pub open spec fn eds_code(ty: Seq<char>) -> u16 {
    match data_type_of(ty) {
        Some(t) => t.spec_code(),
        None => 0x0007,
    }
}

fn type_to_eds_code(ty: &str) -> (r: u16)
    ensures
        r == eds_code(ty@),
{
    match data_type(ty) {
        Some(t) => t.code(),
        None => 0x0007,
    }
}

/// The word for an access.
pub open spec fn access_word(access: AccessKind) -> Seq<char> {
    match access {
        AccessKind::Ro => "ro"@,
        AccessKind::Const => "const"@,
        AccessKind::Rw => "rw"@,
        AccessKind::Wo => "wo"@,
    }
}

fn access_to_eds(access: AccessKind) -> (r: &'static str)
    ensures
        r@ == access_word(access),
{
    match access {
        AccessKind::Ro => "ro",
        AccessKind::Const => "const",
        AccessKind::Rw => "rw",
        AccessKind::Wo => "wo",
    }
}

/// An object of the dictionary as an EDS file describes it.
#[derive(Debug)]
pub struct FlatEdsEntry {
    pub index: u16,
    pub subindex: u8,
    pub name: String,
    pub ty: String,
    pub default_value: String,
    pub access: AccessKind,
    pub pdo_mappable: bool,
}

#[verifier::ext_equal]
pub struct EdsView {
    pub index: u16,
    pub subindex: u8,
    pub name: Seq<char>,
    pub ty: Seq<char>,
    pub default_value: Seq<char>,
    pub access: AccessKind,
    pub pdo_mappable: bool,
}

impl View for FlatEdsEntry {
    type V = EdsView;

    open spec fn view(&self) -> EdsView {
        EdsView {
            index: self.index,
            subindex: self.subindex,
            name: self.name@,
            ty: self.ty@,
            default_value: self.default_value@,
            access: self.access,
            pdo_mappable: self.pdo_mappable,
        }
    }
}

/// What objects say, one by one.
pub open spec fn eds_views(flat: Seq<FlatEdsEntry>) -> Seq<EdsView> {
    flat.map_values(|f: FlatEdsEntry| f@)
}

/// A variable as an object.
pub open spec fn eds_variable(index: u16, subindex: u8, name: Seq<char>, var: VarView) -> EdsView {
    EdsView {
        index,
        subindex,
        name,
        ty: var.ty,
        default_value: match var.default_value {
            Some(t) => t,
            None => ""@,
        },
        access: var.access,
        pdo_mappable: var.pdo_mappable,
    }
}

/// An element of an array as an object.
pub open spec fn eds_element(index: u16, sub: int, name: Seq<char>, a: ArrayView) -> EdsView {
    EdsView {
        index,
        subindex: (sub % 0x100) as u8,
        name,
        ty: a.element_type,
        default_value: "0"@,
        access: a.access,
        pdo_mappable: a.pdo_mappable,
    }
}

/// The objects of an entry.
pub open spec fn eds_objects_of(e: OdEntryView) -> Seq<EdsView> {
    match e.kind {
        KindView::Var(var) => seq![eds_variable(e.index, 0, e.name, var)],
        KindView::Record(subs) => subs.map_values(
            |s: SubView| eds_variable(e.index, s.subindex, s.name, s.var),
        ),
        KindView::Array(a) => Seq::new(
            a.count as nat,
            |i: int| eds_element(e.index, i + 1, e.name, a),
        ),
    }
}

/// The objects of a definition.
pub open spec fn eds_objects(entries: Seq<OdEntryView>) -> Seq<EdsView>
    decreases entries.len(),
{
    if entries.len() == 0 {
        Seq::empty()
    } else {
        eds_objects(entries.drop_last()) + eds_objects_of(entries.last())
    }
}

fn eds_variable_of(index: u16, subindex: u8, name: &String, var: &VarDef) -> (r: FlatEdsEntry)
    ensures
        r@ == eds_variable(index, subindex, name@, var@),
{
    FlatEdsEntry {
        index,
        subindex,
        name: name.clone(),
        ty: var.ty.clone(),
        default_value: match &var.default_value {
            Some(t) => t.clone(),
            None => "".to_string(),
        },
        access: var.access,
        pdo_mappable: var.pdo_mappable,
    }
}

/// List the objects of a definition.
pub fn flatten_for_eds(entries: &Vec<OdEntry>) -> (r: Vec<FlatEdsEntry>)
    ensures
        eds_views(r@) == eds_objects(entry_views(entries@)),
{
    let ghost all = entry_views(entries@);
    let mut flat: Vec<FlatEdsEntry> = Vec::new();
    let mut i: usize = 0;
    assert(all.take(0) =~= Seq::<OdEntryView>::empty());
    assert(eds_views(flat@) =~= Seq::<EdsView>::empty());
    while i < entries.len()
        invariant
            i <= entries@.len(),
            all == entry_views(entries@),
            eds_views(flat@) == eds_objects(all.take(i as int)),
        decreases entries@.len() - i,
    {
        let ghost before = eds_views(flat@);
        let entry = &entries[i];
        assert(all[i as int] == entry@);
        assert(all.take(i + 1).drop_last() =~= all.take(i as int));
        let ghost members = eds_objects_of(entry@);
        match &entry.kind {
            EntryKind::Var(var) => {
                let f = eds_variable_of(entry.index, 0, &entry.name, var);
                flat.push(f);
                assert(eds_views(flat@) =~= before + seq![f@]);
            },
            EntryKind::Record(subs) => {
                let mut k: usize = 0;
                assert(eds_views(flat@) =~= before + members.take(0));
                while k < subs.len()
                    invariant
                        k <= subs@.len(),
                        members == sub_views(subs@).map_values(
                            |s: SubView| eds_variable(entry.index, s.subindex, s.name, s.var),
                        ),
                        eds_views(flat@) == before + members.take(k as int),
                    decreases subs@.len() - k,
                {
                    let ghost here = eds_views(flat@);
                    let sub = &subs[k];
                    assert(sub_views(subs@)[k as int] == sub@);
                    let f = eds_variable_of(entry.index, sub.subindex, &sub.name, &sub.var);
                    flat.push(f);
                    assert(eds_views(flat@) =~= here.push(f@));
                    k += 1;
                    assert(eds_views(flat@) =~= before + members.take(k as int));
                }
                assert(members.take(k as int) =~= members);
            },
            EntryKind::Array(arr) => {
                let mut k: usize = 0;
                assert(eds_views(flat@) =~= before + members.take(0));
                while k < arr.count
                    invariant
                        k <= arr.count,
                        members == Seq::new(
                            arr.count as nat,
                            |i: int| eds_element(entry.index, i + 1, entry.name@, arr@),
                        ),
                        eds_views(flat@) == before + members.take(k as int),
                    decreases arr.count - k,
                {
                    let ghost here = eds_views(flat@);
                    let f = FlatEdsEntry {
                        index: entry.index,
                        subindex: ((k % 0x100 + 1) % 0x100) as u8,
                        name: entry.name.clone(),
                        ty: arr.element_type.clone(),
                        default_value: "0".to_string(),
                        access: arr.access,
                        pdo_mappable: arr.pdo_mappable,
                    };
                    flat.push(f);
                    assert(f@ =~= eds_element(entry.index, k + 1, entry.name@, arr@));
                    assert(eds_views(flat@) =~= here.push(f@));
                    k += 1;
                    assert(eds_views(flat@) =~= before + members.take(k as int));
                }
                assert(members.take(k as int) =~= members);
            },
        }
        i += 1;
    }
    assert(all.take(i as int) =~= all);
    flat
}

/// The first object from `from` on with an address.
pub open spec fn eds_at(flat: Seq<EdsView>, index: u16, subindex: u8, from: int) -> Option<EdsView>
    decreases flat.len() - from,
{
    if from < 0 || from >= flat.len() {
        None
    } else if flat[from].index == index && flat[from].subindex == subindex {
        Some(flat[from])
    } else {
        eds_at(flat, index, subindex, from + 1)
    }
}

/// A text without underscores.
pub open spec fn plain(s: Seq<char>) -> Seq<char>
    decreases s.len(),
{
    if s.len() == 0 {
        Seq::empty()
    } else if s.last() == '_' {
        plain(s.drop_last())
    } else {
        plain(s.drop_last()).push(s.last())
    }
}

/// Remove underscores from numeric literals (e.g. `0x0000_0191` to `0x00000191`).
fn normalize_eds_value(val: &str) -> (r: Vec<char>)
    ensures
        r@ == plain(val@),
{
    let s = chars_of(val);
    let mut r: Vec<char> = Vec::new();
    let mut i: usize = 0;
    assert(val@.take(0) =~= Seq::<char>::empty());
    while i < s.len()
        invariant
            i <= s@.len(),
            s@ == val@,
            r@ == plain(val@.take(i as int)),
        decreases s@.len() - i,
    {
        assert(val@.take(i + 1).drop_last() =~= val@.take(i as int));
        if s[i] != '_' {
            r.push(s[i]);
        }
        i += 1;
    }
    assert(val@.take(i as int) =~= val@);
    r
}

/// A text with the properties of an object and an empty line appended.
pub open spec fn with_object(out: Seq<char>, o: Option<EdsView>) -> Seq<char> {
    match o {
        Some(o) => {
            let a = with_line(out, "ParameterName="@, o.name);
            let b = with_line(a, "ObjectType=0x7"@, ""@);
            let c = with_line(b, "DataType=0x"@, zero_filled(hex(eds_code(o.ty) as nat), 4));
            let d = with_line(c, "AccessType="@, access_word(o.access));
            let e = with_line(d, "DefaultValue="@, plain(o.default_value));
            let f = with_line(
                e,
                "PDOMapping="@,
                if o.pdo_mappable {
                    "1"@
                } else {
                    "0"@
                },
            );
            with_line(f, ""@, ""@)
        },
        None => out,
    }
}

fn write_object(out: &mut Vec<char>, flat: &Vec<FlatEdsEntry>, index: u16, subindex: u8)
    ensures
        final(out)@ == with_object(old(out)@, eds_at(eds_views(flat@), index, subindex, 0)),
{
    let ghost all = eds_views(flat@);
    let ghost before = out@;
    let mut i: usize = 0;
    while i < flat.len()
        invariant
            i <= flat@.len(),
            out@ == before,
            before == old(out)@,
            all == eds_views(flat@),
            eds_at(all, index, subindex, 0) == eds_at(all, index, subindex, i as int),
        decreases flat@.len() - i,
    {
        let fe = &flat[i];
        assert(all[i as int] == fe@);
        if fe.index == index && fe.subindex == subindex {
            str_line(out, "ParameterName=", fe.name.as_str());
            str_line(out, "ObjectType=0x7", "");
            hex_line(out, "DataType=0x", type_to_eds_code(fe.ty.as_str()) as u64, 4);
            str_line(out, "AccessType=", access_to_eds(fe.access));
            let value = normalize_eds_value(fe.default_value.as_str());
            line(out, "DefaultValue=", value.as_slice());
            if fe.pdo_mappable {
                str_line(out, "PDOMapping=", "1");
            } else {
                str_line(out, "PDOMapping=", "0");
            }
            str_line(out, "", "");
            return ;
        }
        i += 1;
    }
}

// ---- Entries ----

/// The highest subindex of the first `n` record members.
pub open spec fn max_sub(subs: Seq<SubView>, n: int) -> u8
    decreases n,
{
    if n <= 0 || n > subs.len() {
        0
    } else if subs[n - 1].subindex > max_sub(subs, n - 1) {
        subs[n - 1].subindex
    } else {
        max_sub(subs, n - 1)
    }
}

/// A text with the head of a record or array and its number of entries
/// appended.
pub open spec fn with_compound(
    out: Seq<char>,
    index: u16,
    name: Seq<char>,
    object_type: Seq<char>,
    sub_number: nat,
    highest: nat,
) -> Seq<char> {
    let a = with_head(out, index);
    let b = with_line(a, "ParameterName="@, name);
    let c = with_line(b, "ObjectType="@, object_type);
    let d = with_line(c, "SubNumber="@, decimal(sub_number));
    let e = with_line(d, ""@, ""@);
    let f = with_sub_head(e, index, 0);
    let g = with_line(f, "ParameterName=Number of Entries"@, ""@);
    let h = with_line(g, "ObjectType=0x7"@, ""@);
    let i = with_line(h, "DataType=0x0005"@, ""@);
    let j = with_line(i, "AccessType=ro"@, ""@);
    let k = with_line(j, "DefaultValue="@, decimal(highest));
    let l = with_line(k, "PDOMapping=0"@, ""@);
    with_line(l, ""@, ""@)
}

fn write_compound(
    out: &mut Vec<char>,
    index: u16,
    name: &str,
    object_type: &str,
    sub_number: u128,
    highest: u128,
)
    ensures
        final(out)@ == with_compound(
            old(out)@,
            index,
            name@,
            object_type@,
            sub_number as nat,
            highest as nat,
        ),
{
    head(out, index);
    str_line(out, "ParameterName=", name);
    str_line(out, "ObjectType=", object_type);
    decimal_line(out, "SubNumber=", sub_number);
    str_line(out, "", "");
    sub_head(out, index, 0);
    str_line(out, "ParameterName=Number of Entries", "");
    str_line(out, "ObjectType=0x7", "");
    str_line(out, "DataType=0x0005", "");
    str_line(out, "AccessType=ro", "");
    decimal_line(out, "DefaultValue=", highest);
    str_line(out, "PDOMapping=0", "");
    str_line(out, "", "");
}

/// A text with the sections of the first `n` members of a record appended.
pub open spec fn with_members(
    out: Seq<char>,
    index: u16,
    subs: Seq<SubView>,
    flat: Seq<EdsView>,
    n: int,
) -> Seq<char>
    decreases n,
{
    if n <= 0 || n > subs.len() {
        out
    } else {
        let sub = subs[n - 1].subindex;
        with_object(
            with_sub_head(with_members(out, index, subs, flat, n - 1), index, sub as int),
            eds_at(flat, index, sub, 0),
        )
    }
}

/// A text with the sections of the first `n` elements of an array appended.
pub open spec fn with_elements(out: Seq<char>, index: u16, flat: Seq<EdsView>, n: int) -> Seq<char>
    decreases n,
{
    if n <= 0 {
        out
    } else {
        with_object(
            with_sub_head(with_elements(out, index, flat, n - 1), index, n),
            eds_at(flat, index, (n % 0x100) as u8, 0),
        )
    }
}

/// A text with the sections of an entry appended.
#[verifier::opaque]
pub open spec fn with_entry(out: Seq<char>, e: OdEntryView, flat: Seq<EdsView>) -> Seq<char> {
    match e.kind {
        KindView::Var(_) => with_object(with_head(out, e.index), eds_at(flat, e.index, 0, 0)),
        KindView::Record(subs) => with_members(
            with_compound(
                out,
                e.index,
                e.name,
                "0x9"@,
                subs.len() + 1,
                max_sub(subs, subs.len() as int) as nat,
            ),
            e.index,
            subs,
            flat,
            subs.len() as int,
        ),
        KindView::Array(a) => with_elements(
            with_compound(out, e.index, e.name, "0x8"@, a.count as nat + 1, a.count as nat),
            e.index,
            flat,
            a.count as int,
        ),
    }
}

/// A text with the sections of the first `n` entries appended.
pub open spec fn with_entries(
    out: Seq<char>,
    entries: Seq<OdEntryView>,
    flat: Seq<EdsView>,
    n: int,
) -> Seq<char>
    decreases n,
{
    if n <= 0 || n > entries.len() {
        out
    } else {
        with_entry(with_entries(out, entries, flat, n - 1), entries[n - 1], flat)
    }
}

fn write_entry(out: &mut Vec<char>, entry: &OdEntry, flat: &Vec<FlatEdsEntry>)
    ensures
        final(out)@ == with_entry(old(out)@, entry@, eds_views(flat@)),
{
    proof {
        reveal(with_entry);
    }
    let ghost start = out@;
    let ghost all = eds_views(flat@);
    match &entry.kind {
        EntryKind::Var(_) => {
            head(out, entry.index);
            write_object(out, flat, entry.index, 0);
        },
        EntryKind::Record(subs) => {
            let ghost views = sub_views(subs@);
            let mut highest: u8 = 0;
            let mut k: usize = 0;
            while k < subs.len()
                invariant
                    k <= subs@.len(),
                    views == sub_views(subs@),
                    highest == max_sub(views, k as int),
                decreases subs@.len() - k,
            {
                assert(views[k as int] == subs@[k as int]@);
                if subs[k].subindex > highest {
                    highest = subs[k].subindex;
                }
                k += 1;
            }
            write_compound(
                out,
                entry.index,
                entry.name.as_str(),
                "0x9",
                subs.len() as u128 + 1,
                highest as u128,
            );
            let ghost begun = out@;
            let mut k: usize = 0;
            while k < subs.len()
                invariant
                    k <= subs@.len(),
                    views == sub_views(subs@),
                    all == eds_views(flat@),
                    out@ == with_members(begun, entry.index, views, all, k as int),
                decreases subs@.len() - k,
            {
                assert(views[k as int] == subs@[k as int]@);
                let sub: u8 = subs[k].subindex;
                sub_head(out, entry.index, sub as u64);
                write_object(out, flat, entry.index, sub);
                k += 1;
            }
        },
        EntryKind::Array(arr) => {
            write_compound(
                out,
                entry.index,
                entry.name.as_str(),
                "0x8",
                arr.count as u128 + 1,
                arr.count as u128,
            );
            let ghost begun = out@;
            let mut k: usize = 0;
            while k < arr.count
                invariant
                    k <= arr.count,
                    all == eds_views(flat@),
                    out@ == with_elements(begun, entry.index, all, k as int),
                decreases arr.count - k,
            {
                k += 1;
                sub_head(out, entry.index, k as u64);
                write_object(out, flat, entry.index, (k % 0x100) as u8);
            }
        },
    }
}

// ---- PDOs and SDO servers ----

/// A text with the head of a parameter record appended.
pub open spec fn with_record_head(out: Seq<char>, index: u16, name: Seq<char>, sub_number: nat) -> Seq<
    char,
> {
    let a = with_head(out, index);
    let b = with_line(a, "ParameterName="@, name);
    let c = with_line(b, "ObjectType=0x9"@, ""@);
    let d = with_line(c, "SubNumber="@, decimal(sub_number));
    with_line(d, ""@, ""@)
}

fn write_record_header(out: &mut Vec<char>, index: u16, name: &[char], sub_number: u64)
    ensures
        final(out)@ == with_record_head(old(out)@, index, name@, sub_number as nat),
{
    head(out, index);
    line(out, "ParameterName=", name);
    str_line(out, "ObjectType=0x9", "");
    decimal_line(out, "SubNumber=", sub_number as u128);
    str_line(out, "", "");
}

/// A parameter in a record.
pub struct ParamView {
    pub sub: int,
    pub name: Seq<char>,
    pub code: u16,
    pub access: Seq<char>,
    pub default_value: Seq<char>,
    /// The count of a record that can be changed has an upper limit.
    pub limited: bool,
}

/// A text with the section of a parameter appended.
pub open spec fn with_param(out: Seq<char>, index: u16, p: ParamView) -> Seq<char> {
    let a = with_sub_head(out, index, p.sub);
    let b = with_line(a, "ParameterName="@, p.name);
    let c = with_line(b, "ObjectType=0x7"@, ""@);
    let d = with_line(c, "DataType=0x"@, zero_filled(hex(p.code as nat), 4));
    let e = with_line(d, "AccessType="@, p.access);
    let f = with_line(e, "DefaultValue="@, p.default_value);
    let g = if p.limited {
        with_line(f, "HighLimit=64"@, ""@)
    } else {
        f
    };
    let h = with_line(g, "PDOMapping=0"@, ""@);
    with_line(h, ""@, ""@)
}

fn write_pdo_sub(
    out: &mut Vec<char>,
    index: u16,
    sub: u8,
    name: &[char],
    code: u16,
    access: &str,
    default_value: &[char],
    limited: bool,
)
    ensures
        final(out)@ == with_param(
            old(out)@,
            index,
            ParamView {
                sub: sub as int,
                name: name@,
                code,
                access: access@,
                default_value: default_value@,
                limited,
            },
        ),
{
    sub_head(out, index, sub as u64);
    line(out, "ParameterName=", name);
    str_line(out, "ObjectType=0x7", "");
    hex_line(out, "DataType=0x", code as u64, 4);
    str_line(out, "AccessType=", access);
    line(out, "DefaultValue=", default_value);
    if limited {
        str_line(out, "HighLimit=64", "");
    }
    str_line(out, "PDOMapping=0", "");
    str_line(out, "", "");
}

/// A number in hexadecimal after `0x`.
pub open spec fn hex_text(n: nat) -> Seq<char> {
    "0x"@ + hex(n)
}

fn to_hex_text(n: u64) -> (r: Vec<char>)
    ensures
        r@ == hex_text(n as nat),
{
    let mut out = chars_of("0x");
    append_hex(&mut out, n);
    out
}

/// A COB-ID as it stands in an EDS file.
pub open spec fn cob_text(cob: CobIdSpec) -> Seq<char> {
    match cob {
        CobIdSpec::Absolute(id) => hex_text(id as nat),
        CobIdSpec::NodeRelative(base) => "$NODEID+0x"@ + hex(base as nat),
    }
}

fn cob_text_of(cob: CobIdSpec) -> (r: Vec<char>)
    ensures
        r@ == cob_text(cob),
{
    match cob {
        CobIdSpec::Absolute(id) => to_hex_text(id as u64),
        CobIdSpec::NodeRelative(base) => {
            let mut out = chars_of("$NODEID+0x");
            append_hex(&mut out, base as u64);
            out
        },
    }
}

/// The COB-ID of a PDO: as declared, else the predefined default, which only
/// the first four PDOs have.
pub open spec fn pdo_cob(pdo: PdoDefView) -> CobIdSpec {
    match pdo.cob_id {
        Some(cob) => cob,
        None => if 1 <= pdo.number <= 4 {
            CobIdSpec::NodeRelative(
                match pdo.direction {
                    PdoDirection::Tpdo => (0x180 + 0x100 * (pdo.number - 1)) as u32,
                    PdoDirection::Rpdo => (0x200 + 0x100 * (pdo.number - 1)) as u32,
                },
            )
        } else {
            CobIdSpec::Absolute(0)
        },
    }
}

fn pdo_cob_id_default(pdo: &PdoDef) -> (r: Vec<char>)
    ensures
        r@ == cob_text(pdo_cob(pdo@)),
{
    let cob = match pdo.cob_id {
        Some(cob) => cob,
        None => if 1 <= pdo.number && pdo.number <= 4 {
            let first: u32 = match pdo.direction {
                PdoDirection::Tpdo => 0x180,
                PdoDirection::Rpdo => 0x200,
            };
            CobIdSpec::NodeRelative(first + 0x100 * (pdo.number as u32 - 1))
        } else {
            CobIdSpec::Absolute(0)
        },
    };
    cob_text_of(cob)
}

/// The name of a parameter record of a PDO.
pub open spec fn record_name(direction: PdoDirection, number: u16, what: Seq<char>) -> Seq<char> {
    (match direction {
        PdoDirection::Tpdo => "TPDO"@,
        PdoDirection::Rpdo => "RPDO"@,
    }) + decimal(number as nat) + what
}

fn record_name_of(direction: PdoDirection, number: u16, what: &str) -> (r: Vec<char>)
    ensures
        r@ == record_name(direction, number, what@),
{
    let mut out = match direction {
        PdoDirection::Tpdo => chars_of("TPDO"),
        PdoDirection::Rpdo => chars_of("RPDO"),
    };
    append_decimal(&mut out, number as u64);
    append_str(&mut out, what);
    out
}

/// The index of the record of a PDO, counted from the first one.
pub open spec fn record_at(base: int, number: u16) -> u16 {
    ((base + number + 0xFFFF) % 0x1_0000) as u16
}

fn record_index(base: u16, number: u16) -> (r: u16)
    ensures
        r == record_at(base as int, number),
{
    ((base as u32 + number as u32 + 0xFFFF) % 0x1_0000) as u16
}

/// The access to a mapping parameter.
pub open spec fn mapping_access(mapping: MappingKind) -> Seq<char> {
    match mapping {
        MappingKind::Mutable => "rw"@,
        MappingKind::Immutable => "const"@,
    }
}

/// The number of entries of a mapping parameter record: all that a frame can
/// hold, if the mapping can be changed, else the mapped ones.
pub open spec fn mapping_rows(mapping: MappingKind, mapped: nat) -> nat {
    match mapping {
        MappingKind::Mutable => 64,
        MappingKind::Immutable => if mapped <= 64 {
            mapped
        } else {
            64
        },
    }
}

/// A mapping entry.
pub open spec fn mapping_param(sub: int, mapping: MappingKind, mapped: Seq<PdoMapping>) -> ParamView {
    ParamView {
        sub,
        name: "Mapping Entry "@ + decimal(sub as nat),
        code: 0x0007,
        access: mapping_access(mapping),
        default_value: "0x"@ + zero_filled(
            hex(
                if sub <= mapped.len() {
                    mapped[sub - 1].to_mapping_value() as nat
                } else {
                    0
                },
            ),
            8,
        ),
        limited: false,
    }
}

/// A text with the first `n` mapping entries appended.
pub open spec fn with_mapping_rows(
    out: Seq<char>,
    index: u16,
    mapping: MappingKind,
    mapped: Seq<PdoMapping>,
    n: int,
) -> Seq<char>
    decreases n,
{
    if n <= 0 {
        out
    } else {
        with_param(
            with_mapping_rows(out, index, mapping, mapped, n - 1),
            index,
            mapping_param(n, mapping, mapped),
        )
    }
}

/// A text with the mapping parameter record of a PDO appended.
pub open spec fn with_mapping_record(
    out: Seq<char>,
    index: u16,
    name: Seq<char>,
    mapping: MappingKind,
    mapped: Seq<PdoMapping>,
) -> Seq<char> {
    let rows = mapping_rows(mapping, mapped.len());
    let a = with_record_head(out, index, name, rows + 1);
    let b = with_param(
        a,
        index,
        ParamView {
            sub: 0,
            name: "Number of Mapped Objects"@,
            code: 0x0005,
            access: mapping_access(mapping),
            default_value: hex_text(mapped.len()),
            limited: mapping == MappingKind::Mutable,
        },
    );
    with_mapping_rows(b, index, mapping, mapped, rows as int)
}

fn write_pdo_mapping_eds(
    out: &mut Vec<char>,
    index: u16,
    name: &[char],
    mapping: MappingKind,
    mapped: &Vec<PdoMapping>,
)
    ensures
        final(out)@ == with_mapping_record(old(out)@, index, name@, mapping, mapped@),
{
    let count: usize = mapped.len();
    let mutable = match mapping {
        MappingKind::Mutable => true,
        MappingKind::Immutable => false,
    };
    let rows: u8 = if mutable || count > 64 {
        64
    } else {
        count as u8
    };
    let access = if mutable {
        "rw"
    } else {
        "const"
    };
    write_record_header(out, index, name, rows as u64 + 1);
    let title = chars_of("Number of Mapped Objects");
    let number = to_hex_text(count as u64);
    write_pdo_sub(out, index, 0, title.as_slice(), 0x0005, access, number.as_slice(), mutable);
    let ghost begun = out@;
    let mut k: u8 = 0;
    while k < rows
        invariant
            k <= rows <= 64,
            count == mapped@.len(),
            access@ == mapping_access(mapping),
            out@ == with_mapping_rows(begun, index, mapping, mapped@, k as int),
        decreases rows - k,
    {
        let value: u32 = if (k as usize) < count {
            mapped[k as usize].to_mapping_value()
        } else {
            0
        };
        k += 1;
        let mut text = chars_of("0x");
        append_hex_filled(&mut text, value as u64, 8);
        let mut title = chars_of("Mapping Entry ");
        append_decimal(&mut title, k as u64);
        write_pdo_sub(
            out,
            index,
            k,
            title.as_slice(),
            0x0007,
            access,
            text.as_slice(),
            false,
        );
    }
}

/// A read-write communication parameter.
pub open spec fn comm_row(sub: int, name: Seq<char>, code: u16, default_value: Seq<char>) -> ParamView {
    ParamView { sub, name, code, access: "rw"@, default_value, limited: false }
}

/// A text with the communication parameter record of a PDO appended.
pub open spec fn with_comm_record(out: Seq<char>, index: u16, pdo: PdoDefView) -> Seq<char> {
    let tpdo = pdo.direction == PdoDirection::Tpdo;
    let a = with_record_head(
        out,
        index,
        record_name(pdo.direction, pdo.number, " Communication"@),
        if tpdo {
            5
        } else {
            4
        },
    );
    let b = with_param(
        a,
        index,
        ParamView {
            sub: 0,
            name: "Number of Entries"@,
            code: 0x0005,
            access: "ro"@,
            default_value: "5"@,
            limited: false,
        },
    );
    let c = with_param(b, index, comm_row(1, "COB-ID"@, 0x0007, cob_text(pdo_cob(pdo))));
    let d = with_param(
        c,
        index,
        comm_row(2, "Transmission Type"@, 0x0005, hex_text(pdo.transmission_type as nat)),
    );
    let e = if tpdo {
        with_param(
            d,
            index,
            comm_row(3, "Inhibit Time"@, 0x0006, hex_text(pdo.inhibit_time as nat)),
        )
    } else {
        d
    };
    with_param(e, index, comm_row(5, "Event Timer"@, 0x0006, hex_text(pdo.event_timer as nat)))
}

/// A text with the parameter records of a PDO appended.
#[verifier::opaque]
pub open spec fn with_pdo(out: Seq<char>, pdo: PdoDefView, mapped: Seq<PdoMapping>) -> Seq<char> {
    let comm = record_at(
        match pdo.direction {
            PdoDirection::Tpdo => 0x1800,
            PdoDirection::Rpdo => 0x1400,
        },
        pdo.number,
    );
    let map = record_at(
        match pdo.direction {
            PdoDirection::Tpdo => 0x1A00,
            PdoDirection::Rpdo => 0x1600,
        },
        pdo.number,
    );
    with_mapping_record(
        with_comm_record(out, comm, pdo),
        map,
        record_name(pdo.direction, pdo.number, " Mapping"@),
        pdo.mapping,
        mapped,
    )
}

fn write_pdo_eds(out: &mut Vec<char>, pdo: &PdoDef, mapped: &Vec<PdoMapping>)
    ensures
        final(out)@ == with_pdo(old(out)@, pdo@, mapped@),
{
    proof {
        reveal(with_pdo);
    }
    let tpdo = match pdo.direction {
        PdoDirection::Tpdo => true,
        PdoDirection::Rpdo => false,
    };
    let comm_base: u16 = if tpdo {
        0x1800
    } else {
        0x1400
    };
    let index: u16 = record_index(comm_base, pdo.number);
    let map_index: u16 = record_index(comm_base + 0x200, pdo.number);
    let name = record_name_of(pdo.direction, pdo.number, " Communication");
    write_record_header(
        out,
        index,
        name.as_slice(),
        if tpdo {
            5
        } else {
            4
        },
    );
    let title = chars_of("Number of Entries");
    let value = chars_of("5");
    write_pdo_sub(out, index, 0, title.as_slice(), 0x0005, "ro", value.as_slice(), false);
    let title = chars_of("COB-ID");
    let value = pdo_cob_id_default(pdo);
    write_pdo_sub(out, index, 1, title.as_slice(), 0x0007, "rw", value.as_slice(), false);
    let title = chars_of("Transmission Type");
    let value = to_hex_text(pdo.transmission_type as u64);
    write_pdo_sub(out, index, 2, title.as_slice(), 0x0005, "rw", value.as_slice(), false);
    if tpdo {
        let title = chars_of("Inhibit Time");
        let value = to_hex_text(pdo.inhibit_time as u64);
        write_pdo_sub(out, index, 3, title.as_slice(), 0x0006, "rw", value.as_slice(), false);
    }
    let title = chars_of("Event Timer");
    let value = to_hex_text(pdo.event_timer as u64);
    write_pdo_sub(out, index, 5, title.as_slice(), 0x0006, "rw", value.as_slice(), false);
    let name = record_name_of(pdo.direction, pdo.number, " Mapping");
    write_pdo_mapping_eds(out, map_index, name.as_slice(), pdo.mapping, mapped);
}

/// A const parameter of an SDO server.
pub open spec fn server_row(sub: int, name: Seq<char>, code: u16, default_value: Seq<char>) -> ParamView {
    ParamView { sub, name, code, access: "const"@, default_value, limited: false }
}

/// A text with the parameter record of an SDO server appended.
#[verifier::opaque]
pub open spec fn with_server(out: Seq<char>, s: SdoServerDef) -> Seq<char> {
    let index = record_at(0x1200, s.number);
    let a = with_record_head(out, index, "SDO Server Parameter"@, 3);
    let b = with_param(a, index, server_row(0, "Number of Entries"@, 0x0005, "2"@));
    let c = with_param(
        b,
        index,
        server_row(1, "COB-ID Client to Server"@, 0x0007, cob_text(s.cob_rx)),
    );
    with_param(c, index, server_row(2, "COB-ID Server to Client"@, 0x0007, cob_text(s.cob_tx)))
}

fn write_server_eds(out: &mut Vec<char>, s: &SdoServerDef)
    ensures
        final(out)@ == with_server(old(out)@, *s),
{
    proof {
        reveal(with_server);
    }
    let index: u16 = record_index(0x1200, s.number);
    let name = chars_of("SDO Server Parameter");
    write_record_header(out, index, name.as_slice(), 3);
    let title = chars_of("Number of Entries");
    let value = chars_of("2");
    write_pdo_sub(out, index, 0, title.as_slice(), 0x0005, "const", value.as_slice(), false);
    let title = chars_of("COB-ID Client to Server");
    let value = cob_text_of(s.cob_rx);
    write_pdo_sub(out, index, 1, title.as_slice(), 0x0007, "const", value.as_slice(), false);
    let title = chars_of("COB-ID Server to Client");
    let value = cob_text_of(s.cob_tx);
    write_pdo_sub(out, index, 2, title.as_slice(), 0x0007, "const", value.as_slice(), false);
}

// ---- Index lists ----

/// An ascending list with a number put in place, unless it is there already.
pub open spec fn inserted(list: Seq<u16>, x: u16) -> Seq<u16>
    decreases list.len(),
{
    if list.len() == 0 || list.last() < x {
        list.push(x)
    } else if list.last() == x {
        list
    } else {
        inserted(list.drop_last(), x).push(list.last())
    }
}

/// A list is strictly ascending.
pub open spec fn ascending(list: Seq<u16>) -> bool {
    forall|i: int, j: int| 0 <= i < j < list.len() ==> list[i] < list[j]
}

/// Putting a number in place keeps a list ascending, and adds just the number.
pub proof fn lemma_inserted(list: Seq<u16>, x: u16)
    requires
        ascending(list),
    ensures
        ascending(inserted(list, x)),
        forall|y: u16| #[trigger] inserted(list, x).contains(y) <==> list.contains(y) || y == x,
    decreases list.len(),
{
    let r = inserted(list, x);
    if list.len() == 0 || list.last() < x {
        assert(r.last() == x);
        assert forall|y: u16| #[trigger] r.contains(y) <==> list.contains(y) || y == x by {
            if list.contains(y) {
                let i = choose|i: int| 0 <= i < list.len() && list[i] == y;
                assert(r[i] == y);
            }
            if y == x {
                assert(r[r.len() - 1] == y);
            }
        }
    } else if list.last() != x {
        let front = list.drop_last();
        let mid = inserted(front, x);
        lemma_inserted(front, x);
        assert forall|y: u16| #[trigger] r.contains(y) <==> list.contains(y) || y == x by {
            if r.contains(y) {
                let i = choose|i: int| 0 <= i < r.len() && r[i] == y;
                if i < mid.len() {
                    assert(mid.contains(mid[i]));
                    if front.contains(y) {
                        let k = choose|k: int| 0 <= k < front.len() && front[k] == y;
                        assert(list[k] == y);
                    }
                } else {
                    assert(list[list.len() - 1] == y);
                }
            }
            if list.contains(y) {
                let k = choose|k: int| 0 <= k < list.len() && list[k] == y;
                if k < front.len() {
                    assert(front[k] == y);
                    assert(mid.contains(y));
                    let i = choose|i: int| 0 <= i < mid.len() && mid[i] == y;
                    assert(r[i] == y);
                } else {
                    assert(r[r.len() - 1] == y);
                }
            }
            if y == x {
                assert(mid.contains(y));
                let i = choose|i: int| 0 <= i < mid.len() && mid[i] == y;
                assert(r[i] == y);
            }
        }
        assert forall|i: int, j: int| 0 <= i < j < r.len() implies r[i] < r[j] by {
            if j == r.len() - 1 {
                assert(mid.contains(mid[i]));
                if front.contains(mid[i]) {
                    let k = choose|k: int| 0 <= k < front.len() && front[k] == mid[i];
                    assert(list[k] < list[list.len() - 1]);
                }
            }
        }
    } else {
        assert(list[list.len() - 1] == x);
    }
}

/// Put a number in place in an ascending list.
pub fn insert_sorted(list: &mut Vec<u16>, x: u16)
    ensures
        final(list)@ == inserted(old(list)@, x),
{
    let mut i: usize = list.len();
    let ghost all = list@;
    assert(all.take(i as int) =~= all);
    assert(all.skip(i as int) =~= Seq::<u16>::empty());
    assert(inserted(all, x) =~= inserted(all.take(i as int), x) + all.skip(i as int));
    while i > 0 && list[i - 1] > x
        invariant
            i <= list@.len(),
            list@ == all,
            inserted(all, x) == inserted(all.take(i as int), x) + all.skip(i as int),
        decreases i,
    {
        let ghost front = all.take(i as int);
        assert(front.drop_last() =~= all.take(i - 1));
        assert(front.last() == all[i - 1]);
        assert(inserted(front, x) == inserted(front.drop_last(), x).push(front.last()));
        assert(inserted(front, x) + all.skip(i as int) =~= inserted(all.take(i - 1), x) + all.skip(
            i - 1,
        ));
        i -= 1;
    }
    if i > 0 && list[i - 1] == x {
        assert(all.take(i as int).last() == x);
        assert(all.take(i as int) + all.skip(i as int) =~= all);
    } else {
        list.insert(i, x);
        assert(list@ =~= all.take(i as int).push(x) + all.skip(i as int));
    }
}

/// The numbers of a list in ascending order, each once.
pub open spec fn sorted(list: Seq<u16>) -> Seq<u16>
    decreases list.len(),
{
    if list.len() == 0 {
        Seq::empty()
    } else {
        inserted(sorted(list.drop_last()), list.last())
    }
}

/// Sorting gives the numbers of a list in ascending order, each once.
pub proof fn lemma_sorted(list: Seq<u16>)
    ensures
        ascending(sorted(list)),
        forall|y: u16| #[trigger] sorted(list).contains(y) <==> list.contains(y),
    decreases list.len(),
{
    if list.len() > 0 {
        lemma_sorted(list.drop_last());
        lemma_inserted(sorted(list.drop_last()), list.last());
        assert forall|y: u16| #[trigger] sorted(list).contains(y) <==> list.contains(y) by {
            if list.contains(y) && y != list.last() {
                let k = choose|k: int| 0 <= k < list.len() && list[k] == y;
                assert(list.drop_last()[k] == y);
            }
            if list.drop_last().contains(y) {
                let k = choose|k: int| 0 <= k < list.len() - 1 && list.drop_last()[k] == y;
                assert(list[k] == y);
            }
            assert(list[list.len() - 1] == list.last());
        }
    }
}

/// The indices of the entries.
pub open spec fn entry_indices(entries: Seq<OdEntryView>) -> Seq<u16> {
    entries.map_values(|e: OdEntryView| e.index)
}

/// The indices of the parameter records of PDOs.
pub open spec fn pdo_indices(pdos: Seq<PdoDefView>) -> Seq<u16>
    decreases pdos.len(),
{
    if pdos.len() == 0 {
        Seq::empty()
    } else {
        let p = pdos.last();
        let bases: (int, int) = match p.direction {
            PdoDirection::Tpdo => (0x1800, 0x1A00),
            PdoDirection::Rpdo => (0x1400, 0x1600),
        };
        pdo_indices(pdos.drop_last()).push(record_at(bases.0, p.number)).push(
            record_at(bases.1, p.number),
        )
    }
}

/// The indices of the parameter records of SDO servers.
pub open spec fn server_indices(servers: Seq<SdoServerDef>) -> Seq<u16> {
    servers.map_values(|s: SdoServerDef| record_at(0x1200, s.number))
}

/// The numbers of a list from a lower bound up to an upper bound.
pub open spec fn between(list: Seq<u16>, low: int, high: int) -> Seq<u16>
    decreases list.len(),
{
    if list.len() == 0 {
        Seq::empty()
    } else if low <= list.last() < high {
        between(list.drop_last(), low, high).push(list.last())
    } else {
        between(list.drop_last(), low, high)
    }
}

fn pick(list: &Vec<u16>, low: u32, high: u32) -> (r: Vec<u16>)
    ensures
        r@ == between(list@, low as int, high as int),
{
    let mut r: Vec<u16> = Vec::new();
    let mut i: usize = 0;
    assert(list@.take(0) =~= Seq::<u16>::empty());
    while i < list.len()
        invariant
            i <= list@.len(),
            r@ == between(list@.take(i as int), low as int, high as int),
        decreases list@.len() - i,
    {
        assert(list@.take(i + 1).drop_last() =~= list@.take(i as int));
        if low <= list[i] as u32 && (list[i] as u32) < high {
            r.push(list[i]);
        }
        i += 1;
    }
    assert(list@.take(i as int) =~= list@);
    r
}

/// A text with the first `n` rows of an index list appended.
pub open spec fn with_index_rows(out: Seq<char>, indices: Seq<u16>, n: int) -> Seq<char>
    decreases n,
{
    if n <= 0 || n > indices.len() {
        out
    } else {
        with_index_rows(out, indices, n - 1) + decimal(n as nat) + "=0x"@ + zero_filled(
            hex(indices[n - 1] as nat),
            4,
        ) + "\n"@
    }
}

/// A text with an index list appended.
pub open spec fn with_index_list(out: Seq<char>, section: Seq<char>, indices: Seq<u16>) -> Seq<char> {
    let a = out + "["@ + section + "]\n"@;
    let b = with_line(a, "SupportedObjects="@, decimal(indices.len()));
    with_line(with_index_rows(b, indices, indices.len() as int), ""@, ""@)
}

fn write_index_list(out: &mut Vec<char>, section: &str, indices: &Vec<u16>)
    ensures
        final(out)@ == with_index_list(old(out)@, section@, indices@),
{
    append_str(out, "[");
    append_str(out, section);
    append_str(out, "]\n");
    decimal_line(out, "SupportedObjects=", indices.len() as u128);
    let ghost begun = out@;
    let mut i: usize = 0;
    while i < indices.len()
        invariant
            i <= indices@.len(),
            out@ == with_index_rows(begun, indices@, i as int),
        decreases indices@.len() - i,
    {
        append_wide_decimal(out, i as u128 + 1);
        append_str(out, "=0x");
        append_hex_filled(out, indices[i] as u64, 4);
        append_str(out, "\n");
        i += 1;
    }
    str_line(out, "", "");
}

fn user_indices(entries: &Vec<OdEntry>) -> (r: Vec<u16>)
    ensures
        r@ == sorted(entry_indices(entry_views(entries@))),
{
    let ghost all = entry_indices(entry_views(entries@));
    let mut r: Vec<u16> = Vec::new();
    let mut i: usize = 0;
    assert(all.take(0) =~= Seq::<u16>::empty());
    while i < entries.len()
        invariant
            i <= entries@.len(),
            all == entry_indices(entry_views(entries@)),
            r@ == sorted(all.take(i as int)),
        decreases entries@.len() - i,
    {
        assert(all.take(i + 1).drop_last() =~= all.take(i as int));
        assert(all[i as int] == entries@[i as int].index);
        insert_sorted(&mut r, entries[i].index);
        i += 1;
    }
    assert(all.take(i as int) =~= all);
    r
}

/// The indices of the parameter records of PDOs and SDO servers.
pub open spec fn record_indices(pdos: Seq<PdoDefView>, servers: Seq<SdoServerDef>) -> Seq<u16> {
    pdo_indices(pdos) + server_indices(servers)
}

fn optional_indices(pdos: &Vec<PdoDef>, servers: &Vec<SdoServerDef>) -> (r: Vec<u16>)
    ensures
        r@ == sorted(record_indices(pdo_views(pdos@), servers@)),
{
    let ghost all = pdo_views(pdos@);
    let mut r: Vec<u16> = Vec::new();
    let mut i: usize = 0;
    assert(all.take(0) =~= Seq::<PdoDefView>::empty());
    while i < pdos.len()
        invariant
            i <= pdos@.len(),
            all == pdo_views(pdos@),
            r@ == sorted(pdo_indices(all.take(i as int))),
        decreases pdos@.len() - i,
    {
        let ghost front = pdo_indices(all.take(i as int));
        assert(all.take(i + 1).drop_last() =~= all.take(i as int));
        assert(all[i as int] == pdos@[i as int]@);
        let base: u16 = match pdos[i].direction {
            PdoDirection::Tpdo => 0x1800,
            PdoDirection::Rpdo => 0x1400,
        };
        let comm: u16 = record_index(base, pdos[i].number);
        let map: u16 = record_index(base + 0x200, pdos[i].number);
        insert_sorted(&mut r, comm);
        insert_sorted(&mut r, map);
        assert(front.push(comm).drop_last() =~= front);
        assert(front.push(comm).push(map).drop_last() =~= front.push(comm));
        assert(sorted(front.push(comm)) == inserted(sorted(front), comm));
        assert(pdo_indices(all.take(i + 1)) == front.push(comm).push(map));
        i += 1;
    }
    assert(all.take(i as int) =~= all);
    let ghost front = pdo_indices(all);
    let ghost tail = server_indices(servers@);
    let mut k: usize = 0;
    assert(front + tail.take(0) =~= front);
    while k < servers.len()
        invariant
            k <= servers@.len(),
            tail == server_indices(servers@),
            r@ == sorted(front + tail.take(k as int)),
        decreases servers@.len() - k,
    {
        assert((front + tail.take(k + 1)).drop_last() =~= front + tail.take(k as int));
        assert((front + tail.take(k + 1)).last() == tail[k as int]);
        insert_sorted(&mut r, record_index(0x1200, servers[k].number));
        k += 1;
    }
    assert(tail.take(k as int) =~= tail);
    r
}

// ---- The file ----

/// A text with the records of the first `n` PDOs appended, if their mapped
/// objects can be resolved.
pub open spec fn with_pdos(
    out: Seq<char>,
    pdos: Seq<PdoDefView>,
    flat: Seq<FlatView>,
    n: int,
) -> Result<Seq<char>, ErrorView>
    decreases n,
{
    if n <= 0 || n > pdos.len() {
        Ok(out)
    } else {
        match with_pdos(out, pdos, flat, n - 1) {
            Err(e) => Err(e),
            Ok(front) => match mapped_objects(
                pdos[n - 1],
                flat,
                pdos[n - 1].mappings.len() as int,
            ) {
                Err(e) => Err(e),
                Ok(mapped) => Ok(with_pdo(front, pdos[n - 1], mapped)),
            },
        }
    }
}

/// A text with the records of the first `n` SDO servers appended.
pub open spec fn with_servers(out: Seq<char>, servers: Seq<SdoServerDef>, n: int) -> Seq<char>
    decreases n,
{
    if n <= 0 || n > servers.len() {
        out
    } else {
        with_server(with_servers(out, servers, n - 1), servers[n - 1])
    }
}

/// The part of an EDS file before the objects.
#[verifier::opaque]
pub open spec fn preamble(od: DefinitionView) -> Seq<char> {
    let a = with_line(Seq::empty(), "[FileInfo]"@, ""@);
    let b = a + "FileName="@ + od.name + ".eds\n"@;
    let c = with_line(b, "FileVersion=1"@, ""@);
    let d = with_line(c, "CreatedBy=canopen-rs (object_dictionary! macro)"@, ""@);
    let e = with_line(d, ""@, ""@);
    let f = with_line(e, "[DeviceInfo]"@, ""@);
    let g = with_line(f, "VendorName="@, ""@);
    let h = with_line(g, "ProductName="@, od.name);
    let i = with_line(h, ""@, ""@);
    let user = sorted(entry_indices(od.entries));
    let standard = between(user, 0x6000, 0x1_0000);
    let j = with_index_list(i, "MandatoryObjects"@, between(user, 0, 0x2000));
    let k = with_index_list(
        j,
        "OptionalObjects"@,
        sorted(record_indices(od.pdos, od.sdo_servers)),
    );
    let l = with_index_list(k, "ManufacturerObjects"@, between(user, 0x2000, 0x6000));
    if standard.len() > 0 {
        with_index_list(l, "StandardizedObjects"@, standard)
    } else {
        l
    }
}

/// The EDS file of a definition.
pub open spec fn eds_text(od: DefinitionView) -> Result<Seq<char>, ErrorView> {
    let objects = with_entries(
        preamble(od),
        od.entries,
        eds_objects(od.entries),
        od.entries.len() as int,
    );
    match with_pdos(objects, od.pdos, variables(od.entries), od.pdos.len() as int) {
        Err(e) => Err(e),
        Ok(text) => Ok(with_servers(text, od.sdo_servers, od.sdo_servers.len() as int)),
    }
}

fn write_preamble(od: &OdDefinition) -> (r: Vec<char>)
    ensures
        r@ == preamble(od@),
{
    proof {
        reveal(preamble);
    }
    let mut out: Vec<char> = Vec::new();
    str_line(&mut out, "[FileInfo]", "");
    append_str(&mut out, "FileName=");
    append_str(&mut out, od.name.as_str());
    append_str(&mut out, ".eds\n");
    str_line(&mut out, "FileVersion=1", "");
    str_line(&mut out, "CreatedBy=canopen-rs (object_dictionary! macro)", "");
    str_line(&mut out, "", "");
    str_line(&mut out, "[DeviceInfo]", "");
    str_line(&mut out, "VendorName=", "");
    str_line(&mut out, "ProductName=", od.name.as_str());
    str_line(&mut out, "", "");
    let user = user_indices(&od.entries);
    let mandatory = pick(&user, 0, 0x2000);
    let optional = optional_indices(&od.pdos, &od.sdo_servers);
    let manufacturer = pick(&user, 0x2000, 0x6000);
    let standardised = pick(&user, 0x6000, 0x1_0000);
    write_index_list(&mut out, "MandatoryObjects", &mandatory);
    write_index_list(&mut out, "OptionalObjects", &optional);
    write_index_list(&mut out, "ManufacturerObjects", &manufacturer);
    if standardised.len() > 0 {
        write_index_list(&mut out, "StandardizedObjects", &standardised);
    }
    out
}

pub proof fn lemma_pdos_prefix(
    out: Seq<char>,
    pdos: Seq<PdoDefView>,
    flat: Seq<FlatView>,
    n: int,
    m: int,
)
    requires
        0 <= n <= m <= pdos.len(),
        with_pdos(out, pdos, flat, n) is Err,
    ensures
        with_pdos(out, pdos, flat, m) == with_pdos(out, pdos, flat, n),
    decreases m - n,
{
    if n < m {
        lemma_pdos_prefix(out, pdos, flat, n, m - 1);
    }
}

/// What a generated text says.
pub open spec fn text_result(r: Result<String, GenerateError>) -> Result<Seq<char>, ErrorView> {
    match r {
        Ok(t) => Ok(t@),
        Err(e) => Err(e@),
    }
}

/// Generate the EDS file of a definition.
pub fn generate_eds(od: &OdDefinition) -> (r: Result<String, GenerateError>)
    ensures
        text_result(r) == eds_text(od@),
{
    let mut out = write_preamble(od);
    let flat = flatten_for_eds(&od.entries);
    let ghost begun = out@;
    let ghost objects = eds_views(flat@);
    let mut i: usize = 0;
    while i < od.entries.len()
        invariant
            i <= od.entries@.len(),
            od@.entries == entry_views(od.entries@),
            objects == eds_views(flat@),
            out@ == with_entries(begun, od@.entries, objects, i as int),
        decreases od.entries@.len() - i,
    {
        assert(od@.entries[i as int] == od.entries@[i as int]@);
        write_entry(&mut out, &od.entries[i], &flat);
        i += 1;
    }
    let flat_entries = flatten(&od.entries);
    let ghost vars = flat_views(flat_entries@);
    let ghost before = out@;
    let mut i: usize = 0;
    while i < od.pdos.len()
        invariant
            i <= od.pdos@.len(),
            od@.pdos == pdo_views(od.pdos@),
            vars == flat_views(flat_entries@),
            vars == variables(od@.entries),
            before == with_entries(
                preamble(od@),
                od@.entries,
                eds_objects(od@.entries),
                od@.entries.len() as int,
            ),
            with_pdos(before, od@.pdos, vars, i as int) == Ok::<Seq<char>, ErrorView>(out@),
        decreases od.pdos@.len() - i,
    {
        assert(od@.pdos[i as int] == od.pdos@[i as int]@);
        match resolve_pdo_mappings(&od.pdos[i], &flat_entries) {
            Ok(mapped) => {
                write_pdo_eds(&mut out, &od.pdos[i], &mapped);
            },
            Err(e) => {
                proof {
                    lemma_pdos_prefix(before, od@.pdos, vars, i + 1, od@.pdos.len() as int);
                }
                return Err(e);
            },
        }
        i += 1;
    }
    let ghost with_all_pdos = out@;
    let mut i: usize = 0;
    while i < od.sdo_servers.len()
        invariant
            i <= od.sdo_servers@.len(),
            out@ == with_servers(with_all_pdos, od.sdo_servers@, i as int),
        decreases od.sdo_servers@.len() - i,
    {
        write_server_eds(&mut out, &od.sdo_servers[i]);
        i += 1;
    }
    Ok(string_of(out.as_slice()))
}

} // verus!
