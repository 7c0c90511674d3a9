//! From a definition to the dictionary that it describes.

use crate::datatypes::DataType;
use crate::dictionary::definition::{
    data_type, data_type_of, entry_views, pdo_views, text_view, AccessKind, ArrayDef, ArrayView,
    CobIdSpec, DefinitionView, EntryKind, KindView, MappingKind, OdDefinition, OdEntry, OdEntryView,
    PdoDef, PdoDefView, PdoDirection, SdoServerDef, VarView,
};
use crate::dictionary::eds_export::{eds_text, generate_eds};
use crate::dictionary::literal::{eval_literal, literal_bytes};
use crate::dictionary::mapping::{
    flat_views, flatten, label_of, mapped_objects, pdo_label, resolve_pdo_mappings, variables,
    ErrorView, Fault, FlatEntry, FlatView, GenerateError,
};
use crate::dictionary::names::{screaming_snake, to_screaming_snake};
use crate::dictionary::table::{
    array_views, cell_views, server_views, slot_views, value_views, ArrayCell,
    ArrayCellView, Cell, CellView, PdoSlot, ServerCell, ServerCellView, SlotView, Table, TableView,
};
use crate::od::AccessType;
use crate::pdo::config::PdoMapping;
use crate::text::{chars_of, utf8_of};
use vstd::prelude::*;
use vstd::slice::slice_subrange;
use vstd::utf8::encode_utf8;

verus! {

// ---- Compression ----

/// What `miniz_oxide::deflate::compress_to_vec` returns for data and a
/// compression level.
pub uninterp spec fn deflated(data: Seq<u8>, level: u8) -> Seq<u8>;

/// What `miniz_oxide::inflate::decompress_to_vec` returns for a deflate stream,
/// if it can be decompressed.
pub uninterp spec fn inflated(data: Seq<u8>) -> Option<Seq<u8>>;

/// Calls `miniz_oxide::deflate::compress_to_vec`, which compresses data to a
/// deflate stream that depends on the data and the level alone. Decompressing
/// the stream, as [`decompress`] does, gives the data back: one function writes
/// the blocks of a deflate stream for all of its input, and the other reads such
/// blocks.
#[verifier::external_body]
fn compress(data: &[u8], level: u8) -> (r: Vec<u8>)
    ensures
        r@ == deflated(data@, level),
        inflated(r@) == Some(data@),
{
    miniz_oxide::deflate::compress_to_vec(data, level)
}

/// What bytes are, if there are any.
pub open spec fn bytes_view(r: Option<Vec<u8>>) -> Option<Seq<u8>> {
    match r {
        Some(v) => Some(v@),
        None => None,
    }
}

/// Calls `miniz_oxide::inflate::decompress_to_vec`, which decompresses a deflate
/// stream. The result depends on the stream alone.
#[verifier::external_body]
fn decompress(data: &[u8]) -> (r: Option<Vec<u8>>)
    ensures
        bytes_view(r) == inflated(data@),
{
    miniz_oxide::inflate::decompress_to_vec(data).ok()
}

// ---- Variables ----

/// The access over the bus.
pub open spec fn access_type(access: AccessKind) -> AccessType {
    match access {
        AccessKind::Ro => AccessType::Ro,
        AccessKind::Rw => AccessType::Rw,
        AccessKind::Wo => AccessType::Wo,
        AccessKind::Const => AccessType::Const,
    }
}

fn to_access_type(access: AccessKind) -> (r: AccessType)
    ensures
        r == access_type(access),
{
    match access {
        AccessKind::Ro => AccessType::Ro,
        AccessKind::Rw => AccessType::Rw,
        AccessKind::Wo => AccessType::Wo,
        AccessKind::Const => AccessType::Const,
    }
}

/// So many zero bytes.
pub open spec fn zeros(n: nat) -> Seq<u8> {
    Seq::new(n, |i: int| 0u8)
}

/// The value of the `syn::LitStr` that a text parses to, if it does.
pub uninterp spec fn string_literal(text: Seq<char>) -> Option<Seq<char>>;

/// A text is a string literal in which every character stands for itself.
pub open spec fn plain_string(text: Seq<char>) -> bool {
    &&& text.len() >= 2
    &&& text[0] == '"'
    &&& text.last() == '"'
    &&& forall|i: int|
        0 < i < text.len() - 1 ==> text[i] != '"' && text[i] != '\\' && text[i] != '\r'
}

/// Parses a text to a `syn::LitStr`, and hands out `LitStr::value`. The result
/// depends on the text alone, as `proc_macro2` without its `proc-macro` feature
/// splits text by itself; between quotes, characters but quotes, backslashes and
/// carriage returns stand for themselves.
#[verifier::external_body]
fn parse_string(text: &str) -> (r: Option<String>)
    ensures
        text_view(r) == string_literal(text@),
        plain_string(text@) ==> text_view(r) == Some(text@.subrange(1, text@.len() - 1)),
{
    syn::parse_str::<syn::LitStr>(text).ok().map(|literal| literal.value())
}

/// The characters of a string literal.
pub fn read_string(text: &str) -> (r: Option<Vec<char>>)
    ensures
        match r {
            Some(v) => string_literal(text@) == Some(v@),
            None => string_literal(text@) is None,
        },
        plain_string(text@) ==> (r matches Some(v) && v@ == text@.subrange(1, text@.len() - 1)),
{
    match parse_string(text) {
        Some(s) => Some(chars_of(s.as_str())),
        None => None,
    }
}

/// The initial value of a variable-length variable: the default of a string,
/// unless it does not fit.
pub open spec fn initial_text(t: DataType, var: VarView, capacity: Option<usize>) -> Result<
    Seq<u8>,
    Fault,
> {
    match var.default_value {
        Some(text) if t == DataType::VisibleString => match string_literal(text) {
            Some(s) => if capacity matches Some(n) && encode_utf8(s).len() > n {
                Ok(Seq::empty())
            } else {
                Ok(encode_utf8(s))
            },
            None => Err(Fault::BadDefault),
        },
        _ => Ok(Seq::empty()),
    }
}

/// The initial value of a fixed-size variable: the default, else zero.
pub open spec fn initial_number(t: DataType, var: VarView, size: nat) -> Result<Seq<u8>, Fault> {
    match var.default_value {
        Some(text) => match literal_bytes(t, text, var.real_bits) {
            Some(v) => Ok(v),
            None => Err(Fault::BadDefault),
        },
        None => Ok(zeros(size)),
    }
}

/// The variable that a definition describes.
pub open spec fn cell_of(f: FlatView, use_alloc: bool) -> Result<CellView, Fault> {
    match data_type_of(f.var.ty) {
        None => Err(Fault::UnsupportedType),
        Some(t) => {
            let variable = t.spec_size() is None;
            let capacity = if variable && !use_alloc {
                f.var.capacity
            } else {
                None
            };
            if variable && !use_alloc && capacity is None {
                Err(Fault::NoCapacity)
            } else {
                let value = match t.spec_size() {
                    None => initial_text(t, f.var, capacity),
                    Some(n) => initial_number(t, f.var, n as nat),
                };
                match value {
                    Err(fault) => Err(fault),
                    Ok(value) => Ok(
                        CellView {
                            index: f.index,
                            subindex: f.subindex,
                            name: f.name,
                            data_type: t,
                            access: access_type(f.var.access),
                            pdo_mappable: f.var.pdo_mappable,
                            max_size: match f.var.capacity {
                                Some(n) => Some((n % 0x1_0000) as u16),
                                None => None,
                            },
                            capacity,
                            value,
                        },
                    ),
                }
            }
        },
    }
}

fn build_cell(f: &FlatEntry, use_alloc: bool) -> (r: Result<Cell, Fault>)
    ensures
        match r {
            Ok(c) => cell_of(f@, use_alloc) == Ok::<CellView, Fault>(c@),
            Err(fault) => cell_of(f@, use_alloc) == Err::<CellView, Fault>(fault),
        },
{
    let t = match data_type(f.var.ty.as_str()) {
        None => {
            return Err(Fault::UnsupportedType);
        },
        Some(t) => t,
    };
    let size = t.size();
    let variable = size.is_none();
    let capacity = if variable && !use_alloc {
        f.var.capacity
    } else {
        None
    };
    if variable && !use_alloc && capacity.is_none() {
        return Err(Fault::NoCapacity);
    }
    let value: Vec<u8> = match size {
        None => match &f.var.default_value {
            Some(text) => if t == DataType::VisibleString {
                match read_string(text.as_str()) {
                    Some(chars) => {
                        let v = utf8_of(chars.as_slice());
                        let fits = match capacity {
                            Some(n) => v.len() <= n,
                            None => true,
                        };
                        if fits {
                            v
                        } else {
                            Vec::new()
                        }
                    },
                    None => {
                        return Err(Fault::BadDefault);
                    },
                }
            } else {
                Vec::new()
            },
            None => Vec::new(),
        },
        Some(n) => match &f.var.default_value {
            Some(text) => match eval_literal(t, text.as_str(), f.var.real_bits) {
                Some(v) => v,
                None => {
                    return Err(Fault::BadDefault);
                },
            },
            None => {
                let v: Vec<u8> = vec![0u8; n];
                assert(v@ =~= zeros(n as nat));
                v
            },
        },
    };
    Ok(
        Cell {
            index: f.index,
            subindex: f.subindex,
            name: f.field_name.clone(),
            data_type: t,
            access: to_access_type(f.var.access),
            pdo_mappable: f.var.pdo_mappable,
            max_size: match f.var.capacity {
                Some(n) => Some((n % 0x1_0000) as u16),
                None => None,
            },
            capacity,
            value,
        },
    )
}

/// An error at a field.
pub open spec fn field_error(fault: Fault, field: Seq<char>) -> ErrorView {
    ErrorView { fault, pdo: ""@, field }
}

/// The variables that the first `n` definitions describe.
pub open spec fn cells_of(flat: Seq<FlatView>, use_alloc: bool, n: int) -> Result<
    Seq<CellView>,
    ErrorView,
>
    decreases n,
{
    if n <= 0 || n > flat.len() {
        Ok(Seq::empty())
    } else {
        match cells_of(flat, use_alloc, n - 1) {
            Err(e) => Err(e),
            Ok(front) => match cell_of(flat[n - 1], use_alloc) {
                Ok(c) => Ok(front.push(c)),
                Err(fault) => Err(field_error(fault, flat[n - 1].name)),
            },
        }
    }
}

proof fn lemma_cells_prefix(flat: Seq<FlatView>, use_alloc: bool, n: int, m: int)
    requires
        0 <= n <= m <= flat.len(),
        cells_of(flat, use_alloc, n) is Err,
    ensures
        cells_of(flat, use_alloc, m) == cells_of(flat, use_alloc, n),
    decreases m - n,
{
    if n < m {
        lemma_cells_prefix(flat, use_alloc, n, m - 1);
    }
}

fn build_cells(flat: &Vec<FlatEntry>, use_alloc: bool) -> (r: Result<Vec<Cell>, GenerateError>)
    ensures
        match r {
            Ok(v) => cells_of(flat_views(flat@), use_alloc, flat@.len() as int) == Ok::<
                Seq<CellView>,
                ErrorView,
            >(cell_views(v@)),
            Err(e) => cells_of(flat_views(flat@), use_alloc, flat@.len() as int) == Err::<
                Seq<CellView>,
                ErrorView,
            >(e@),
        },
{
    let ghost views = flat_views(flat@);
    let mut out: Vec<Cell> = Vec::new();
    let mut i: usize = 0;
    assert(cell_views(out@) =~= Seq::<CellView>::empty());
    while i < flat.len()
        invariant
            i <= flat@.len(),
            views == flat_views(flat@),
            cells_of(views, use_alloc, i as int) == Ok::<Seq<CellView>, ErrorView>(
                cell_views(out@),
            ),
        decreases flat@.len() - i,
    {
        let ghost before = out@;
        assert(views[i as int] == flat@[i as int]@);
        match build_cell(&flat[i], use_alloc) {
            Ok(c) => {
                out.push(c);
                assert(cell_views(out@) =~= cell_views(before).push(c@));
            },
            Err(fault) => {
                proof {
                    lemma_cells_prefix(views, use_alloc, i + 1, views.len() as int);
                }
                return Err(
                    GenerateError {
                        fault,
                        pdo: "".to_string(),
                        field: flat[i].field_name.clone(),
                    },
                );
            },
        }
        i += 1;
    }
    Ok(out)
}

// ---- Arrays ----

/// The array that a definition describes: of fixed-size elements, which are
/// zero at first.
pub open spec fn array_of(index: u16, name: Seq<char>, a: ArrayView) -> Result<
    ArrayCellView,
    Fault,
> {
    match data_type_of(a.element_type) {
        Some(t) => match t.spec_size() {
            Some(n) => Ok(
                ArrayCellView {
                    index,
                    name,
                    data_type: t,
                    access: access_type(a.access),
                    pdo_mappable: a.pdo_mappable,
                    values: Seq::new((a.count % 0x100) as nat, |i: int| zeros(n as nat)),
                },
            ),
            None => Err(Fault::UnsupportedType),
        },
        None => Err(Fault::UnsupportedType),
    }
}

fn build_array(index: u16, name: &String, a: &ArrayDef) -> (r: Result<ArrayCell, Fault>)
    ensures
        match r {
            Ok(c) => array_of(index, name@, a@) == Ok::<ArrayCellView, Fault>(c@),
            Err(fault) => array_of(index, name@, a@) == Err::<ArrayCellView, Fault>(fault),
        },
{
    match data_type(a.element_type.as_str()) {
        Some(t) => match t.size() {
            Some(n) => {
                let count: usize = a.count % 0x100;
                let ghost goal = Seq::new(count as nat, |i: int| zeros(n as nat));
                let mut values: Vec<Vec<u8>> = Vec::new();
                let mut k: usize = 0;
                assert(value_views(values@) =~= goal.take(0));
                while k < count
                    invariant
                        k <= count,
                        goal == Seq::new(count as nat, |i: int| zeros(n as nat)),
                        value_views(values@) == goal.take(k as int),
                    decreases count - k,
                {
                    let ghost before = values@;
                    let v: Vec<u8> = vec![0u8; n];
                    assert(v@ =~= zeros(n as nat));
                    values.push(v);
                    k += 1;
                    assert(value_views(values@) =~= value_views(before).push(v@));
                    assert(goal.take(k as int) =~= goal.take(k - 1).push(goal[k - 1]));
                }
                assert(goal.take(k as int) =~= goal);
                Ok(
                    ArrayCell {
                        index,
                        name: name.clone(),
                        data_type: t,
                        access: to_access_type(a.access),
                        pdo_mappable: a.pdo_mappable,
                        values,
                    },
                )
            },
            None => Err(Fault::UnsupportedType),
        },
        None => Err(Fault::UnsupportedType),
    }
}

/// The arrays that the first `n` entries describe.
pub open spec fn arrays_of(entries: Seq<OdEntryView>, n: int) -> Result<
    Seq<ArrayCellView>,
    ErrorView,
>
    decreases n,
{
    if n <= 0 || n > entries.len() {
        Ok(Seq::empty())
    } else {
        match arrays_of(entries, n - 1) {
            Err(e) => Err(e),
            Ok(front) => match entries[n - 1].kind {
                KindView::Array(a) => match array_of(
                    entries[n - 1].index,
                    entries[n - 1].name,
                    a,
                ) {
                    Ok(c) => Ok(front.push(c)),
                    Err(fault) => Err(field_error(fault, entries[n - 1].name)),
                },
                _ => Ok(front),
            },
        }
    }
}

proof fn lemma_arrays_prefix(entries: Seq<OdEntryView>, n: int, m: int)
    requires
        0 <= n <= m <= entries.len(),
        arrays_of(entries, n) is Err,
    ensures
        arrays_of(entries, m) == arrays_of(entries, n),
    decreases m - n,
{
    if n < m {
        lemma_arrays_prefix(entries, n, m - 1);
    }
}

/// Collect the arrays of a definition.
fn collect_arrays(entries: &Vec<OdEntry>) -> (r: Result<Vec<ArrayCell>, GenerateError>)
    ensures
        match r {
            Ok(v) => arrays_of(entry_views(entries@), entries@.len() as int) == Ok::<
                Seq<ArrayCellView>,
                ErrorView,
            >(array_views(v@)),
            Err(e) => arrays_of(entry_views(entries@), entries@.len() as int) == Err::<
                Seq<ArrayCellView>,
                ErrorView,
            >(e@),
        },
{
    let ghost views = entry_views(entries@);
    let mut out: Vec<ArrayCell> = Vec::new();
    let mut i: usize = 0;
    assert(array_views(out@) =~= Seq::<ArrayCellView>::empty());
    while i < entries.len()
        invariant
            i <= entries@.len(),
            views == entry_views(entries@),
            arrays_of(views, i as int) == Ok::<Seq<ArrayCellView>, ErrorView>(array_views(out@)),
        decreases entries@.len() - i,
    {
        let ghost before = out@;
        let e = &entries[i];
        assert(views[i as int] == e@);
        if let EntryKind::Array(a) = &e.kind {
            match build_array(e.index, &e.name, a) {
                Ok(c) => {
                    out.push(c);
                    assert(array_views(out@) =~= array_views(before).push(c@));
                },
                Err(fault) => {
                    proof {
                        lemma_arrays_prefix(views, i + 1, views.len() as int);
                    }
                    return Err(
                        GenerateError { fault, pdo: "".to_string(), field: e.name.clone() },
                    );
                },
            }
        }
        i += 1;
    }
    Ok(out)
}

// ---- PDOs ----

/// The mapping values of mapped objects.
pub open spec fn mapping_values(mapped: Seq<PdoMapping>) -> Seq<u32> {
    mapped.map_values(|m: PdoMapping| m.to_mapping_value())
}

/// The mapping entries of a PDO: all that a frame can hold, if the mapping can
/// be changed, else the mapped ones.
pub open spec fn mapping_entries(mapping: MappingKind, values: Seq<u32>) -> Seq<u32> {
    match mapping {
        MappingKind::Mutable => values + Seq::new((64 - values.len()) as nat, |i: int| 0u32),
        MappingKind::Immutable => values,
    }
}

/// An error at a PDO.
pub open spec fn pdo_error(fault: Fault, pdo: PdoDefView) -> ErrorView {
    ErrorView { fault, pdo: label_of(pdo.direction, pdo.number), field: ""@ }
}

/// The parameters of the PDO that a definition describes. At most 64 objects
/// can be mapped.
pub open spec fn slot_of(pdo: PdoDefView, flat: Seq<FlatView>) -> Result<SlotView, ErrorView> {
    match mapped_objects(pdo, flat, pdo.mappings.len() as int) {
        Err(e) => Err(e),
        Ok(mapped) => {
            let values = mapping_values(mapped);
            if !(1 <= pdo.number <= 512) {
                Err(pdo_error(Fault::PdoNumber, pdo))
            } else if values.len() > 64 {
                Err(pdo_error(Fault::MappingTooLong, pdo))
            } else {
                Ok(
                    SlotView {
                        number: pdo.number,
                        declared: pdo.cob_id,
                        cob_id: match pdo.cob_id {
                            Some(CobIdSpec::Absolute(id)) => id,
                            _ => 0,
                        },
                        transmission_type: pdo.transmission_type,
                        inhibit_time: pdo.inhibit_time,
                        event_timer: pdo.event_timer,
                        mapping: pdo.mapping,
                        declared_count: values.len() as u8,
                        mapping_count: values.len() as u8,
                        mappings: mapping_entries(pdo.mapping, values),
                    },
                )
            }
        },
    }
}

fn build_slot(pdo: &PdoDef, flat: &Vec<FlatEntry>) -> (r: Result<PdoSlot, GenerateError>)
    ensures
        match r {
            Ok(s) => slot_of(pdo@, flat_views(flat@)) == Ok::<SlotView, ErrorView>(s@),
            Err(e) => slot_of(pdo@, flat_views(flat@)) == Err::<SlotView, ErrorView>(e@),
        },
{
    let mapped = match resolve_pdo_mappings(pdo, flat) {
        Ok(m) => m,
        Err(e) => {
            return Err(e);
        },
    };
    let ghost values = mapping_values(mapped@);
    if pdo.number < 1 || pdo.number > 512 {
        return Err(
            GenerateError {
                fault: Fault::PdoNumber,
                pdo: pdo_label(pdo.direction, pdo.number),
                field: "".to_string(),
            },
        );
    }
    let count: usize = mapped.len();
    if count > 64 {
        return Err(
            GenerateError {
                fault: Fault::MappingTooLong,
                pdo: pdo_label(pdo.direction, pdo.number),
                field: "".to_string(),
            },
        );
    }
    let mut mappings: Vec<u32> = Vec::new();
    let mut i: usize = 0;
    while i < count
        invariant
            i <= count == mapped@.len(),
            values == mapping_values(mapped@),
            mappings@ == values.take(i as int),
        decreases count - i,
    {
        mappings.push(mapped[i].to_mapping_value());
        i += 1;
        assert(mappings@ =~= values.take(i as int));
    }
    assert(values.take(i as int) =~= values);
    if let MappingKind::Mutable = pdo.mapping {
        let mut k: usize = count;
        assert(mappings@ =~= values + Seq::new(0, |i: int| 0u32));
        while k < 64
            invariant
                count <= k <= 64,
                count == values.len(),
                mappings@ == values + Seq::new((k - count) as nat, |i: int| 0u32),
            decreases 64 - k,
        {
            mappings.push(0);
            k += 1;
            assert(mappings@ =~= values + Seq::new((k - count) as nat, |i: int| 0u32));
        }
    }
    Ok(
        PdoSlot {
            number: pdo.number,
            declared: pdo.cob_id,
            cob_id: match pdo.cob_id {
                Some(CobIdSpec::Absolute(id)) => id,
                _ => 0,
            },
            transmission_type: pdo.transmission_type,
            inhibit_time: pdo.inhibit_time,
            event_timer: pdo.event_timer,
            mapping: pdo.mapping,
            declared_count: count as u8,
            mapping_count: count as u8,
            mappings,
        },
    )
}

/// The parameters of the PDOs that the first `n` definitions describe: those
/// for transmission, and those for reception.
pub open spec fn slots_of(pdos: Seq<PdoDefView>, flat: Seq<FlatView>, n: int) -> Result<
    (Seq<SlotView>, Seq<SlotView>),
    ErrorView,
>
    decreases n,
{
    if n <= 0 || n > pdos.len() {
        Ok((Seq::empty(), Seq::empty()))
    } else {
        match slots_of(pdos, flat, n - 1) {
            Err(e) => Err(e),
            Ok((tpdos, rpdos)) => match slot_of(pdos[n - 1], flat) {
                Err(e) => Err(e),
                Ok(s) => match pdos[n - 1].direction {
                    PdoDirection::Tpdo => Ok((tpdos.push(s), rpdos)),
                    PdoDirection::Rpdo => Ok((tpdos, rpdos.push(s))),
                },
            },
        }
    }
}

proof fn lemma_slots_prefix(pdos: Seq<PdoDefView>, flat: Seq<FlatView>, n: int, m: int)
    requires
        0 <= n <= m <= pdos.len(),
        slots_of(pdos, flat, n) is Err,
    ensures
        slots_of(pdos, flat, m) == slots_of(pdos, flat, n),
    decreases m - n,
{
    if n < m {
        lemma_slots_prefix(pdos, flat, n, m - 1);
    }
}

fn build_slots(pdos: &Vec<PdoDef>, flat: &Vec<FlatEntry>) -> (r: Result<
    (Vec<PdoSlot>, Vec<PdoSlot>),
    GenerateError,
>)
    ensures
        match r {
            Ok(p) => slots_of(pdo_views(pdos@), flat_views(flat@), pdos@.len() as int) == Ok::<
                (Seq<SlotView>, Seq<SlotView>),
                ErrorView,
            >((slot_views(p.0@), slot_views(p.1@))),
            Err(e) => slots_of(pdo_views(pdos@), flat_views(flat@), pdos@.len() as int) == Err::<
                (Seq<SlotView>, Seq<SlotView>),
                ErrorView,
            >(e@),
        },
{
    let ghost views = pdo_views(pdos@);
    let ghost vars = flat_views(flat@);
    let mut tpdos: Vec<PdoSlot> = Vec::new();
    let mut rpdos: Vec<PdoSlot> = Vec::new();
    let mut i: usize = 0;
    assert(slot_views(tpdos@) =~= Seq::<SlotView>::empty());
    assert(slot_views(rpdos@) =~= Seq::<SlotView>::empty());
    while i < pdos.len()
        invariant
            i <= pdos@.len(),
            views == pdo_views(pdos@),
            vars == flat_views(flat@),
            slots_of(views, vars, i as int) == Ok::<(Seq<SlotView>, Seq<SlotView>), ErrorView>(
                (slot_views(tpdos@), slot_views(rpdos@)),
            ),
        decreases pdos@.len() - i,
    {
        let ghost t = tpdos@;
        let ghost r = rpdos@;
        assert(views[i as int] == pdos@[i as int]@);
        match build_slot(&pdos[i], flat) {
            Ok(s) => match pdos[i].direction {
                PdoDirection::Tpdo => {
                    tpdos.push(s);
                    assert(slot_views(tpdos@) =~= slot_views(t).push(s@));
                },
                PdoDirection::Rpdo => {
                    rpdos.push(s);
                    assert(slot_views(rpdos@) =~= slot_views(r).push(s@));
                },
            },
            Err(e) => {
                proof {
                    lemma_slots_prefix(views, vars, i + 1, views.len() as int);
                }
                return Err(e);
            },
        }
        i += 1;
    }
    Ok((tpdos, rpdos))
}

/// Each PDO number is declared once.
pub open spec fn numbers_differ(slots: Seq<SlotView>) -> bool {
    forall|i: int, j: int| 0 <= i < j < slots.len() ==> slots[i].number != slots[j].number
}

fn check_numbers(slots: &Vec<PdoSlot>) -> (r: bool)
    ensures
        r == numbers_differ(slot_views(slots@)),
{
    let ghost views = slot_views(slots@);
    let mut j: usize = 0;
    while j < slots.len()
        invariant
            j <= slots@.len(),
            views == slot_views(slots@),
            forall|a: int, b: int| 0 <= a < b < j ==> views[a].number != views[b].number,
        decreases slots@.len() - j,
    {
        assert(views[j as int] == slots@[j as int]@);
        let mut i: usize = 0;
        while i < j
            invariant
                i <= j < slots@.len(),
                views == slot_views(slots@),
                views[j as int] == slots@[j as int]@,
                forall|a: int| 0 <= a < i ==> views[a].number != views[j as int].number,
            decreases j - i,
        {
            assert(views[i as int] == slots@[i as int]@);
            if slots[i].number == slots[j].number {
                return false;
            }
            i += 1;
        }
        j += 1;
    }
    true
}

// ---- SDO servers ----

/// An SDO server has the number of an additional one, and no other server has
/// the same.
pub open spec fn server_number_ok(servers: Seq<SdoServerDef>, i: int) -> bool {
    2 <= servers[i].number <= 128 && forall|j: int|
        0 <= j < i ==> servers[j].number != servers[i].number
}

/// A COB-ID is that of the default SDO server, or of one of the first `n`
/// additional ones.
pub open spec fn cob_in_use(servers: Seq<SdoServerDef>, n: int, cob: CobIdSpec) -> bool {
    ||| cob == CobIdSpec::NodeRelative(0x600)
    ||| cob == CobIdSpec::NodeRelative(0x580)
    ||| exists|j: int|
        0 <= j < n && (#[trigger] servers[j].cob_rx == cob || servers[j].cob_tx == cob)
}

/// The COB-IDs of an SDO server are its own.
pub open spec fn server_cobs_ok(servers: Seq<SdoServerDef>, i: int) -> bool {
    &&& servers[i].cob_rx != servers[i].cob_tx
    &&& !cob_in_use(servers, i, servers[i].cob_rx)
    &&& !cob_in_use(servers, i, servers[i].cob_tx)
}

/// What is wrong with the first `n` SDO servers.
pub open spec fn servers_fault(servers: Seq<SdoServerDef>, n: int) -> Option<Fault>
    decreases n,
{
    if n <= 0 || n > servers.len() {
        None
    } else {
        match servers_fault(servers, n - 1) {
            Some(fault) => Some(fault),
            None => if !server_number_ok(servers, n - 1) {
                Some(Fault::SdoServerNumber)
            } else if !server_cobs_ok(servers, n - 1) {
                Some(Fault::SdoServerCobId)
            } else {
                None
            },
        }
    }
}

proof fn lemma_servers_prefix(servers: Seq<SdoServerDef>, n: int, m: int)
    requires
        0 <= n <= m <= servers.len(),
        servers_fault(servers, n) is Some,
    ensures
        servers_fault(servers, m) == servers_fault(servers, n),
    decreases m - n,
{
    if n < m {
        lemma_servers_prefix(servers, n, m - 1);
    }
}

fn same_cob(a: CobIdSpec, b: CobIdSpec) -> (r: bool)
    ensures
        r == (a == b),
{
    a == b
}

fn check_cob(servers: &Vec<SdoServerDef>, n: usize, cob: CobIdSpec) -> (r: bool)
    requires
        n <= servers@.len(),
    ensures
        r == cob_in_use(servers@, n as int, cob),
{
    if same_cob(cob, CobIdSpec::NodeRelative(0x600)) || same_cob(
        cob,
        CobIdSpec::NodeRelative(0x580),
    ) {
        return true;
    }
    let mut j: usize = 0;
    while j < n
        invariant
            j <= n <= servers@.len(),
            cob != CobIdSpec::NodeRelative(0x600),
            cob != CobIdSpec::NodeRelative(0x580),
            forall|a: int|
                0 <= a < j ==> #[trigger] servers@[a].cob_rx != cob && servers@[a].cob_tx != cob,
        decreases n - j,
    {
        if same_cob(servers[j].cob_rx, cob) || same_cob(servers[j].cob_tx, cob) {
            assert(servers@[j as int].cob_rx == cob || servers@[j as int].cob_tx == cob);
            return true;
        }
        j += 1;
    }
    false
}

fn check_server_number(servers: &Vec<SdoServerDef>, i: usize) -> (r: bool)
    requires
        i < servers@.len(),
    ensures
        r == server_number_ok(servers@, i as int),
{
    if servers[i].number < 2 || servers[i].number > 128 {
        return false;
    }
    let mut j: usize = 0;
    while j < i
        invariant
            j <= i < servers@.len(),
            forall|a: int| 0 <= a < j ==> servers@[a].number != servers@[i as int].number,
        decreases i - j,
    {
        if servers[j].number == servers[i].number {
            return false;
        }
        j += 1;
    }
    true
}

/// The parameters of an SDO server before a node ID is known.
pub open spec fn fresh_server(def: SdoServerDef) -> ServerCellView {
    ServerCellView {
        def,
        cob_rx: match def.cob_rx {
            CobIdSpec::Absolute(id) => id,
            CobIdSpec::NodeRelative(_) => 0,
        },
        cob_tx: match def.cob_tx {
            CobIdSpec::Absolute(id) => id,
            CobIdSpec::NodeRelative(_) => 0,
        },
    }
}

fn absolute(cob: CobIdSpec) -> (r: u32)
    ensures
        r == (match cob {
            CobIdSpec::Absolute(id) => id,
            CobIdSpec::NodeRelative(_) => 0,
        }),
{
    match cob {
        CobIdSpec::Absolute(id) => id,
        CobIdSpec::NodeRelative(_) => 0,
    }
}

fn build_servers(servers: &Vec<SdoServerDef>) -> (r: Result<Vec<ServerCell>, Fault>)
    ensures
        match r {
            Ok(v) => servers_fault(servers@, servers@.len() as int) is None && server_views(v@)
                == servers@.map_values(|s: SdoServerDef| fresh_server(s)),
            Err(fault) => servers_fault(servers@, servers@.len() as int) == Some(fault),
        },
{
    let ghost goal = servers@.map_values(|s: SdoServerDef| fresh_server(s));
    let mut out: Vec<ServerCell> = Vec::new();
    let mut i: usize = 0;
    assert(server_views(out@) =~= goal.take(0));
    while i < servers.len()
        invariant
            i <= servers@.len(),
            goal == servers@.map_values(|s: SdoServerDef| fresh_server(s)),
            servers_fault(servers@, i as int) is None,
            server_views(out@) == goal.take(i as int),
        decreases servers@.len() - i,
    {
        let ghost before = out@;
        let def = servers[i];
        if !check_server_number(servers, i) {
            proof {
                lemma_servers_prefix(servers@, i + 1, servers@.len() as int);
            }
            return Err(Fault::SdoServerNumber);
        }
        if same_cob(def.cob_rx, def.cob_tx) || check_cob(servers, i, def.cob_rx) || check_cob(
            servers,
            i,
            def.cob_tx,
        ) {
            proof {
                lemma_servers_prefix(servers@, i + 1, servers@.len() as int);
            }
            return Err(Fault::SdoServerCobId);
        }
        let c = ServerCell { def, cob_rx: absolute(def.cob_rx), cob_tx: absolute(def.cob_tx) };
        out.push(c);
        i += 1;
        assert(server_views(out@) =~= server_views(before).push(c@));
        assert(goal.take(i as int) =~= goal.take(i - 1).push(goal[i - 1]));
    }
    assert(goal.take(i as int) =~= goal);
    Ok(out)
}

// ---- The dictionary ----

/// An error that is neither at a field nor at a single PDO.
pub open spec fn general_error(fault: Fault, pdo: Seq<char>) -> ErrorView {
    ErrorView { fault, pdo, field: ""@ }
}

/// The dictionary that a definition describes, with its EDS file: the text
/// itself, and compressed at level 6.
pub open spec fn described(od: DefinitionView) -> Result<(TableView, Seq<char>), ErrorView> {
    let flat = variables(od.entries);
    match eds_text(od) {
        Err(e) => Err(e),
        Ok(eds) => match slots_of(od.pdos, flat, od.pdos.len() as int) {
            Err(e) => Err(e),
            Ok((tpdos, rpdos)) => if !numbers_differ(tpdos) {
                Err(general_error(Fault::DuplicatePdo, "tpdo"@))
            } else if !numbers_differ(rpdos) {
                Err(general_error(Fault::DuplicatePdo, "rpdo"@))
            } else {
                match cells_of(flat, od.use_alloc, flat.len() as int) {
                    Err(e) => Err(e),
                    Ok(cells) => match arrays_of(od.entries, od.entries.len() as int) {
                        Err(e) => Err(e),
                        Ok(arrays) => match servers_fault(
                            od.sdo_servers,
                            od.sdo_servers.len() as int,
                        ) {
                            Some(fault) => Err(general_error(fault, ""@)),
                            None => Ok(
                                (
                                    TableView {
                                        cells,
                                        arrays,
                                        tpdos,
                                        rpdos,
                                        servers: od.sdo_servers.map_values(
                                            |s: SdoServerDef| fresh_server(s),
                                        ),
                                        eds: deflated(encode_utf8(eds), 6),
                                    },
                                    eds,
                                ),
                            ),
                        },
                    },
                }
            },
        },
    }
}

/// The dictionary that a definition describes, and the text of its EDS file.
#[derive(Debug)]
pub struct Generated {
    pub table: Table,
    pub eds: String,
}

/// Build the dictionary that a definition describes. What [`Table::stored_eds`]
/// reads back of it is its EDS file.
pub fn generate(od: &OdDefinition) -> (r: Result<Generated, GenerateError>)
    ensures
        match r {
            Ok(g) => {
                &&& described(od@) == Ok::<(TableView, Seq<char>), ErrorView>((g.table@, g.eds@))
                &&& inflated(g.table@.eds) == Some(encode_utf8(g.eds@))
            },
            Err(e) => described(od@) == Err::<(TableView, Seq<char>), ErrorView>(e@),
        },
{
    let eds = match generate_eds(od) {
        Ok(eds) => eds,
        Err(e) => {
            return Err(e);
        },
    };
    let flat = flatten(&od.entries);
    let (tpdos, rpdos) = match build_slots(&od.pdos, &flat) {
        Ok(p) => p,
        Err(e) => {
            return Err(e);
        },
    };
    if !check_numbers(&tpdos) {
        return Err(
            GenerateError {
                fault: Fault::DuplicatePdo,
                pdo: "tpdo".to_string(),
                field: "".to_string(),
            },
        );
    }
    if !check_numbers(&rpdos) {
        return Err(
            GenerateError {
                fault: Fault::DuplicatePdo,
                pdo: "rpdo".to_string(),
                field: "".to_string(),
            },
        );
    }
    let cells = match build_cells(&flat, od.use_alloc) {
        Ok(c) => c,
        Err(e) => {
            return Err(e);
        },
    };
    let arrays = match collect_arrays(&od.entries) {
        Ok(a) => a,
        Err(e) => {
            return Err(e);
        },
    };
    let servers = match build_servers(&od.sdo_servers) {
        Ok(s) => s,
        Err(fault) => {
            return Err(GenerateError { fault, pdo: "".to_string(), field: "".to_string() });
        },
    };
    let compressed = compress(eds.as_str().as_bytes(), 6);
    Ok(Generated { table: Table { cells, arrays, tpdos, rpdos, servers, eds: compressed }, eds })
}

// ---- Address constants ----

/// A constant for the address of a variable, or for the index of an array.
#[derive(Debug)]
pub struct AddressConst {
    pub name: String,
    pub index: u16,
    /// The subindex of a variable. `None` for an array.
    pub subindex: Option<u8>,
}

#[verifier::ext_equal]
pub struct AddressView {
    pub name: Seq<char>,
    pub index: u16,
    pub subindex: Option<u8>,
}

impl View for AddressConst {
    type V = AddressView;

    open spec fn view(&self) -> AddressView {
        AddressView { name: self.name@, index: self.index, subindex: self.subindex }
    }
}

/// What constants say, one by one.
pub open spec fn address_views(list: Seq<AddressConst>) -> Seq<AddressView> {
    list.map_values(|a: AddressConst| a@)
}

/// A name in upper case.
pub open spec fn const_name(name: Seq<char>) -> Seq<char> {
    screaming_snake(name, name.len() as int)
}

/// The constants for the variables, then those for the arrays.
pub open spec fn addresses(t: TableView) -> Seq<AddressView> {
    t.cells.map_values(
        |c: CellView|
            AddressView { name: const_name(c.name), index: c.index, subindex: Some(c.subindex) },
    ) + t.arrays.map_values(
        |a: ArrayCellView|
            AddressView { name: const_name(a.name) + "_INDEX"@, index: a.index, subindex: None },
    )
}

impl Table {
    /// The EDS file that the dictionary holds, in UTF-8, if it can be
    /// decompressed.
    pub fn stored_eds(&self) -> (r: Option<Vec<u8>>)
        ensures
            bytes_view(r) == inflated(self@.eds),
    {
        decompress(self.eds.as_slice())
    }

    /// The constants for the addresses of the entries: one per variable, such
    /// as `ECHO_IN`, and one per array, such as `THRESHOLDS_INDEX`.
    pub fn address_consts(&self) -> (r: Vec<AddressConst>)
        ensures
            address_views(r@) == addresses(self@),
    {
        let ghost goal = addresses(self@);
        let ghost n = self.cells@.len() as int;
        let mut out: Vec<AddressConst> = Vec::new();
        let mut i: usize = 0;
        assert(address_views(out@) =~= goal.take(0));
        while i < self.cells.len()
            invariant
                i <= self.cells@.len(),
                goal == addresses(self@),
                goal.len() == self.cells@.len() + self.arrays@.len(),
                address_views(out@) == goal.take(i as int),
            decreases self.cells@.len() - i,
        {
            let ghost before = out@;
            let c = &self.cells[i];
            assert(self@.cells[i as int] == c@);
            let a = AddressConst {
                name: to_screaming_snake(c.name.as_str()),
                index: c.index,
                subindex: Some(c.subindex),
            };
            out.push(a);
            i += 1;
            assert(address_views(out@) =~= address_views(before).push(a@));
            assert(goal.take(i as int) =~= goal.take(i - 1).push(goal[i - 1]));
            assert(goal[i - 1] =~= a@);
        }
        let mut k: usize = 0;
        while k < self.arrays.len()
            invariant
                k <= self.arrays@.len(),
                n == self.cells@.len(),
                goal == addresses(self@),
                goal.len() == self.cells@.len() + self.arrays@.len(),
                address_views(out@) == goal.take(n + k),
            decreases self.arrays@.len() - k,
        {
            let ghost before = out@;
            let a = &self.arrays[k];
            assert(self@.arrays[k as int] == a@);
            let upper = to_screaming_snake(a.name.as_str());
            let mut name = chars_of(upper.as_str());
            crate::text::append_str(&mut name, "_INDEX");
            let c = AddressConst {
                name: crate::text::string_of(name.as_slice()),
                index: a.index,
                subindex: None,
            };
            out.push(c);
            k += 1;
            assert(address_views(out@) =~= address_views(before).push(c@));
            assert(goal.take(n + k) =~= goal.take(n + k - 1).push(goal[n + k - 1]));
            assert(goal[n + k - 1] =~= c@);
        }
        assert(goal.take(n + k) =~= goal);
        out
    }
}

} // verus!
