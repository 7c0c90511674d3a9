//! The variables of a definition, and the objects that its PDOs map.

use crate::datatypes::DataType;
use crate::dictionary::definition::{
    data_type, data_type_of, entry_views, field_views, sub_views, EntryKind, FieldView, KindView,
    OdEntry, OdEntryView, PdoDef, PdoDefView, PdoDirection, PdoField, SubView, VarDef, VarView,
};
use crate::pdo::config::PdoMapping;
use crate::text::{append_decimal, append_str, chars_of, decimal, same_text, string_of};
use vstd::prelude::*;

verus! {

// ---- Variables ----

/// A variable with its address.
#[derive(Debug)]
pub struct FlatEntry {
    pub index: u16,
    pub subindex: u8,
    pub field_name: String,
    pub var: VarDef,
}

#[verifier::ext_equal]
pub struct FlatView {
    pub index: u16,
    pub subindex: u8,
    pub name: Seq<char>,
    pub var: VarView,
}

impl View for FlatEntry {
    type V = FlatView;

    open spec fn view(&self) -> FlatView {
        FlatView {
            index: self.index,
            subindex: self.subindex,
            name: self.field_name@,
            var: self.var@,
        }
    }
}

/// What variables say, one by one.
pub open spec fn flat_views(flat: Seq<FlatEntry>) -> Seq<FlatView> {
    flat.map_values(|f: FlatEntry| f@)
}

/// The variables of an entry. The elements of an array are none.
pub open spec fn variables_of(e: OdEntryView) -> Seq<FlatView> {
    match e.kind {
        KindView::Var(var) => seq![
            FlatView { index: e.index, subindex: 0, name: e.name, var },
        ],
        KindView::Record(subs) => subs.map_values(
            |s: SubView|
                FlatView { index: e.index, subindex: s.subindex, name: s.name, var: s.var },
        ),
        KindView::Array(_) => Seq::empty(),
    }
}

/// The variables of a definition.
pub open spec fn variables(entries: Seq<OdEntryView>) -> Seq<FlatView>
    decreases entries.len(),
{
    if entries.len() == 0 {
        Seq::empty()
    } else {
        variables(entries.drop_last()) + variables_of(entries.last())
    }
}

/// List the variables of a definition.
pub fn flatten(entries: &Vec<OdEntry>) -> (r: Vec<FlatEntry>)
    ensures
        flat_views(r@) == variables(entry_views(entries@)),
{
    let ghost all = entry_views(entries@);
    let mut flat: Vec<FlatEntry> = Vec::new();
    let mut i: usize = 0;
    assert(all.take(0) =~= Seq::<OdEntryView>::empty());
    assert(flat_views(flat@) =~= Seq::<FlatView>::empty());
    while i < entries.len()
        invariant
            i <= entries@.len(),
            all == entry_views(entries@),
            flat_views(flat@) == variables(all.take(i as int)),
        decreases entries@.len() - i,
    {
        let ghost before = flat@;
        let entry = &entries[i];
        assert(all[i as int] == entry@);
        assert(all.take(i + 1).drop_last() =~= all.take(i as int));
        match &entry.kind {
            EntryKind::Var(var) => {
                let f = FlatEntry {
                    index: entry.index,
                    subindex: 0,
                    field_name: entry.name.clone(),
                    var: var.clone(),
                };
                flat.push(f);
                assert(flat_views(flat@) =~= flat_views(before) + seq![f@]);
            },
            EntryKind::Record(subs) => {
                let ghost members = variables_of(entry@);
                let mut k: usize = 0;
                assert(flat_views(flat@) =~= flat_views(before) + members.take(0));
                while k < subs.len()
                    invariant
                        k <= subs@.len(),
                        members == sub_views(subs@).map_values(
                            |s: SubView|
                                FlatView {
                                    index: entry.index,
                                    subindex: s.subindex,
                                    name: s.name,
                                    var: s.var,
                                },
                        ),
                        flat_views(flat@) == flat_views(before) + members.take(k as int),
                    decreases subs@.len() - k,
                {
                    let ghost here = flat@;
                    let sub = &subs[k];
                    assert(sub_views(subs@)[k as int] == sub@);
                    let f = FlatEntry {
                        index: entry.index,
                        subindex: sub.subindex,
                        field_name: sub.name.clone(),
                        var: sub.var.clone(),
                    };
                    flat.push(f);
                    assert(flat_views(flat@) =~= flat_views(here).push(f@));
                    k += 1;
                    assert(flat_views(flat@) =~= flat_views(before) + members.take(k as int));
                }
                assert(members.take(k as int) =~= members);
            },
            EntryKind::Array(_) => {
                assert(flat_views(flat@) =~= flat_views(before) + Seq::<FlatView>::empty());
            },
        }
        i += 1;
    }
    assert(all.take(i as int) =~= all);
    flat
}

/// The first variable from `from` on with a name.
pub open spec fn variable_named(flat: Seq<FlatView>, name: Seq<char>, from: int) -> Option<int>
    decreases flat.len() - from,
{
    if from < 0 || from >= flat.len() {
        None
    } else if flat[from].name == name {
        Some(from)
    } else {
        variable_named(flat, name, from + 1)
    }
}

fn find_variable(flat: &Vec<FlatEntry>, name: &str) -> (r: Option<usize>)
    ensures
        match r {
            Some(i) => i < flat@.len() && variable_named(flat_views(flat@), name@, 0) == Some(
                i as int,
            ),
            None => variable_named(flat_views(flat@), name@, 0) is None,
        },
{
    let wanted = chars_of(name);
    let ghost all = flat_views(flat@);
    let mut i: usize = 0;
    while i < flat.len()
        invariant
            i <= flat@.len(),
            wanted@ == name@,
            all == flat_views(flat@),
            variable_named(all, name@, 0) == variable_named(all, name@, i as int),
        decreases flat@.len() - i,
    {
        assert(all[i as int] == flat@[i as int]@);
        let n = chars_of(flat[i].field_name.as_str());
        if same_text(n.as_slice(), wanted.as_slice()) {
            return Some(i);
        }
        i += 1;
    }
    None
}

// ---- Faults ----

/// What is wrong with a definition.
#[derive(Clone, Copy, Debug, PartialEq, Eq, Structural)]
pub enum Fault {
    /// A PDO maps a field that is not defined.
    UnknownField,
    /// A PDO maps a field that is not PDO-mappable.
    NotMappable,
    /// A PDO maps a field of variable length.
    VariableLength,
    /// A field has a type that is not supported.
    UnsupportedType,
    /// A PDO maps more objects than there can be entries for.
    MappingTooLong,
    /// A PDO number is not one of 1 to 512.
    PdoNumber,
    /// A PDO number is declared twice for a direction.
    DuplicatePdo,
    /// A variable-length field has no capacity.
    NoCapacity,
    /// The default of a field is not a value of its type.
    BadDefault,
    /// The number of an SDO server is not one of 2 to 128, or declared twice.
    SdoServerNumber,
    /// The COB-ID of an SDO server is in use for another one.
    SdoServerCobId,
}

/// Why a definition was refused.
#[derive(Debug)]
pub struct GenerateError {
    pub fault: Fault,
    /// The PDO that is at fault, such as `tpdo[1]`, if it is one.
    pub pdo: String,
    /// The field that is at fault, if it is one.
    pub field: String,
}

#[verifier::ext_equal]
pub struct ErrorView {
    pub fault: Fault,
    pub pdo: Seq<char>,
    pub field: Seq<char>,
}

impl View for GenerateError {
    type V = ErrorView;

    open spec fn view(&self) -> ErrorView {
        ErrorView { fault: self.fault, pdo: self.pdo@, field: self.field@ }
    }
}

/// The name of a direction.
pub open spec fn direction_name(direction: PdoDirection) -> Seq<char> {
    match direction {
        PdoDirection::Tpdo => "tpdo"@,
        PdoDirection::Rpdo => "rpdo"@,
    }
}

/// The label of a PDO, such as `tpdo[1]`.
pub open spec fn label_of(direction: PdoDirection, number: u16) -> Seq<char> {
    direction_name(direction) + "["@ + decimal(number as nat) + "]"@
}

pub fn pdo_label(direction: PdoDirection, number: u16) -> (r: String)
    ensures
        r@ == label_of(direction, number),
{
    let mut out: Vec<char> = match direction {
        PdoDirection::Tpdo => chars_of("tpdo"),
        PdoDirection::Rpdo => chars_of("rpdo"),
    };
    append_str(&mut out, "[");
    append_decimal(&mut out, number as u64);
    append_str(&mut out, "]");
    string_of(out.as_slice())
}

/// The label of a PDO, the field, and what is wrong with it.
pub open spec fn message_of(e: ErrorView) -> Seq<char> {
    match e.fault {
        Fault::UnknownField => e.pdo + " references unknown field `"@ + e.field
            + "`. Make sure it is defined as a VAR or RECORD sub-entry in the OD."@,
        Fault::NotMappable => e.pdo + " maps field `"@ + e.field
            + "` which is not PDO-mappable. Add `, pdo` to its definition."@,
        Fault::VariableLength => e.pdo + " maps field `"@ + e.field
            + "` which has variable length. Only fixed-size types can be PDO-mapped."@,
        Fault::UnsupportedType => e.pdo + "unsupported type of field `"@ + e.field + "`"@,
        Fault::MappingTooLong => e.pdo + " maps more than 64 objects"@ + e.field + ""@,
        Fault::PdoNumber => e.pdo + ": PDO number must be 1-512"@ + e.field + ""@,
        Fault::DuplicatePdo => "duplicate "@ + e.pdo
            + "[N] definition: each PDO number may only be declared once"@ + e.field,
        Fault::NoCapacity => e.pdo + "Variable-length type for field `"@ + e.field
            + "` requires a capacity. Use #[use_alloc] for dynamic allocation."@,
        Fault::BadDefault => e.pdo + "the default of field `"@ + e.field
            + "` is not a value of its type"@,
        Fault::SdoServerNumber => e.pdo
            + "SDO server numbers must be 2-128, each declared only once"@ + e.field + ""@,
        Fault::SdoServerCobId => e.pdo + "SDO server COB-IDs must not collide"@ + e.field + ""@,
    }
}

fn joined(a: &str, b: &str, c: &str, d: &str) -> (r: String)
    ensures
        r@ == a@ + b@ + c@ + d@,
{
    let mut out = chars_of(a);
    append_str(&mut out, b);
    append_str(&mut out, c);
    append_str(&mut out, d);
    string_of(out.as_slice())
}

impl GenerateError {
    /// The error in words.
    pub fn message(&self) -> (r: String)
        ensures
            r@ == message_of(self@),
    {
        let pdo = self.pdo.as_str();
        let field = self.field.as_str();
        match self.fault {
            Fault::UnknownField => joined(
                pdo,
                " references unknown field `",
                field,
                "`. Make sure it is defined as a VAR or RECORD sub-entry in the OD.",
            ),
            Fault::NotMappable => joined(
                pdo,
                " maps field `",
                field,
                "` which is not PDO-mappable. Add `, pdo` to its definition.",
            ),
            Fault::VariableLength => joined(
                pdo,
                " maps field `",
                field,
                "` which has variable length. Only fixed-size types can be PDO-mapped.",
            ),
            Fault::UnsupportedType => joined(pdo, "unsupported type of field `", field, "`"),
            Fault::MappingTooLong => joined(pdo, " maps more than 64 objects", field, ""),
            Fault::PdoNumber => joined(pdo, ": PDO number must be 1-512", field, ""),
            Fault::DuplicatePdo => joined(
                "duplicate ",
                pdo,
                "[N] definition: each PDO number may only be declared once",
                field,
            ),
            Fault::NoCapacity => joined(
                pdo,
                "Variable-length type for field `",
                field,
                "` requires a capacity. Use #[use_alloc] for dynamic allocation.",
            ),
            Fault::BadDefault => joined(
                pdo,
                "the default of field `",
                field,
                "` is not a value of its type",
            ),
            Fault::SdoServerNumber => joined(
                pdo,
                "SDO server numbers must be 2-128, each declared only once",
                field,
                "",
            ),
            Fault::SdoServerCobId => joined(pdo, "SDO server COB-IDs must not collide", field, ""),
        }
    }
}

// ---- Mapped objects ----

/// The number of bits of a value in a frame: one for a boolean.
pub open spec fn bits_of_type(t: DataType) -> u8 {
    match t.spec_size() {
        Some(n) => if t == DataType::Boolean {
            1
        } else {
            (8 * n) as u8
        },
        None => 0,
    }
}

/// The object that a mapping entry of a PDO refers to.
pub open spec fn mapped_object(f: FieldView, flat: Seq<FlatView>) -> Result<PdoMapping, Fault> {
    match f {
        FieldView::Raw(v) => Ok(PdoMapping::from_mapping_value(v)),
        FieldView::Named(name) => match variable_named(flat, name, 0) {
            None => Err(Fault::UnknownField),
            Some(i) => {
                let e = flat[i];
                if !e.var.pdo_mappable {
                    Err(Fault::NotMappable)
                } else {
                    match data_type_of(e.var.ty) {
                        None => Err(Fault::UnsupportedType),
                        Some(t) => if t.spec_size() is None {
                            Err(Fault::VariableLength)
                        } else {
                            Ok(
                                PdoMapping {
                                    index: e.index,
                                    subindex: e.subindex,
                                    bit_length: bits_of_type(t),
                                },
                            )
                        },
                    }
                }
            },
        },
    }
}

/// The name of a mapped field, if it is mapped by name.
pub open spec fn field_name(f: FieldView) -> Seq<char> {
    match f {
        FieldView::Named(n) => n,
        FieldView::Raw(_) => ""@,
    }
}

/// The objects that the first `n` mapping entries of a PDO refer to.
pub open spec fn mapped_objects(pdo: PdoDefView, flat: Seq<FlatView>, n: int) -> Result<
    Seq<PdoMapping>,
    ErrorView,
>
    decreases n,
{
    if n <= 0 || n > pdo.mappings.len() {
        Ok(Seq::empty())
    } else {
        match mapped_objects(pdo, flat, n - 1) {
            Err(e) => Err(e),
            Ok(front) => match mapped_object(pdo.mappings[n - 1], flat) {
                Ok(m) => Ok(front.push(m)),
                Err(fault) => Err(
                    ErrorView {
                        fault,
                        pdo: label_of(pdo.direction, pdo.number),
                        field: field_name(pdo.mappings[n - 1]),
                    },
                ),
            },
        }
    }
}

fn resolve_field(f: &PdoField, flat: &Vec<FlatEntry>) -> (r: Result<PdoMapping, Fault>)
    ensures
        r == mapped_object(f@, flat_views(flat@)),
{
    match f {
        PdoField::Raw(v) => Ok(PdoMapping::from_mapping_value(*v)),
        PdoField::Named(name) => match find_variable(flat, name.as_str()) {
            None => Err(Fault::UnknownField),
            Some(i) => {
                assert(flat_views(flat@)[i as int] == flat@[i as int]@);
                let e = &flat[i];
                if !e.var.pdo_mappable {
                    return Err(Fault::NotMappable);
                }
                match data_type(e.var.ty.as_str()) {
                    None => Err(Fault::UnsupportedType),
                    Some(t) => match t.size() {
                        None => Err(Fault::VariableLength),
                        Some(n) => Ok(
                            PdoMapping {
                                index: e.index,
                                subindex: e.subindex,
                                bit_length: if t == DataType::Boolean {
                                    1
                                } else {
                                    8 * n as u8
                                },
                            },
                        ),
                    },
                }
            },
        },
    }
}

pub proof fn lemma_mapped_prefix(pdo: PdoDefView, flat: Seq<FlatView>, n: int, m: int)
    requires
        0 <= n <= m <= pdo.mappings.len(),
        mapped_objects(pdo, flat, n) is Err,
    ensures
        mapped_objects(pdo, flat, m) == mapped_objects(pdo, flat, n),
    decreases m - n,
{
    if n < m {
        lemma_mapped_prefix(pdo, flat, n, m - 1);
    }
}

/// What resolved mappings say.
pub open spec fn resolved_view(r: Result<Vec<PdoMapping>, GenerateError>) -> Result<
    Seq<PdoMapping>,
    ErrorView,
> {
    match r {
        Ok(v) => Ok(v@),
        Err(e) => Err(e@),
    }
}

/// Resolve the mapped objects of a PDO.
pub fn resolve_pdo_mappings(pdo: &PdoDef, flat: &Vec<FlatEntry>) -> (r: Result<
    Vec<PdoMapping>,
    GenerateError,
>)
    ensures
        resolved_view(r) == mapped_objects(
            pdo@,
            flat_views(flat@),
            pdo@.mappings.len() as int,
        ),
{
    let ghost views = flat_views(flat@);
    let mut out: Vec<PdoMapping> = Vec::new();
    let mut i: usize = 0;
    while i < pdo.mappings.len()
        invariant
            i <= pdo.mappings@.len(),
            views == flat_views(flat@),
            pdo@.mappings == field_views(pdo.mappings@),
            mapped_objects(pdo@, views, i as int) == Ok::<Seq<PdoMapping>, ErrorView>(out@),
        decreases pdo.mappings@.len() - i,
    {
        let f = &pdo.mappings[i];
        assert(pdo@.mappings[i as int] == f@);
        match resolve_field(f, flat) {
            Ok(m) => {
                out.push(m);
            },
            Err(fault) => {
                let field = match f {
                    PdoField::Named(n) => n.clone(),
                    PdoField::Raw(_) => "".to_string(),
                };
                proof {
                    lemma_mapped_prefix(pdo@, views, i + 1, pdo@.mappings.len() as int);
                }
                return Err(
                    GenerateError { fault, pdo: pdo_label(pdo.direction, pdo.number), field },
                );
            },
        }
        i += 1;
    }
    Ok(out)
}

} // verus!
