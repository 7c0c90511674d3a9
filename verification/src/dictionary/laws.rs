//! What holds of every dictionary that a definition describes.

use crate::bytes::{lemma_u32_bytes_roundtrip, u32_bytes};
use crate::dictionary::codegen::{described, mapping_values, slot_of, slots_of};
use crate::dictionary::definition::{DefinitionView, MappingKind, PdoDefView, PdoDirection};
use crate::dictionary::device::writable_cell;
use crate::dictionary::mapping::{mapped_objects, variables, FlatView};
use crate::dictionary::table::{
    admits_writes, array_at, cell_at, lemma_array_at, lemma_cell_at, lemma_slot_at, map_base,
    pdo_place, slot_at, stored, total_bits, ArrayCellView, CellView, PdoPlace, SlotView, TableView,
};
use crate::od::{AccessType, OdContents, OdError};
use vstd::prelude::*;

verus! {

// ---- Finding entries again ----

proof fn lemma_cell_kept(cells: Seq<CellView>, i: int, c: CellView, index: u16, sub: u8, from: int)
    requires
        0 <= i < cells.len(),
        c.index == cells[i].index,
        c.subindex == cells[i].subindex,
        0 <= from,
    ensures
        cell_at(cells.update(i, c), index, sub, from) == cell_at(cells, index, sub, from),
    decreases cells.len() - from,
{
    if from < cells.len() {
        lemma_cell_kept(cells, i, c, index, sub, from + 1);
    }
}

proof fn lemma_array_kept(
    arrays: Seq<ArrayCellView>,
    i: int,
    a: ArrayCellView,
    index: u16,
    sub: u8,
    from: int,
)
    requires
        0 <= i < arrays.len(),
        a.index == arrays[i].index,
        a.values.len() == arrays[i].values.len(),
        0 <= from,
    ensures
        array_at(arrays.update(i, a), index, sub, from) == array_at(arrays, index, sub, from),
    decreases arrays.len() - from,
{
    if from < arrays.len() {
        lemma_array_kept(arrays, i, a, index, sub, from + 1);
    }
}

proof fn lemma_slot_kept(slots: Seq<SlotView>, i: int, s: SlotView, number: int, from: int)
    requires
        0 <= i < slots.len(),
        s.number == slots[i].number,
        0 <= from,
    ensures
        slot_at(slots.update(i, s), number, from) == slot_at(slots, number, from),
    decreases slots.len() - from,
{
    if from < slots.len() {
        lemma_slot_kept(slots, i, s, number, from + 1);
    }
}

proof fn lemma_place_kept(
    direction: PdoDirection,
    slots: Seq<SlotView>,
    i: int,
    s: SlotView,
    index: u16,
    sub: u8,
)
    requires
        0 <= i < slots.len(),
        s.number == slots[i].number,
        s.mappings.len() == slots[i].mappings.len(),
    ensures
        pdo_place(direction, slots.update(i, s), index, sub) == pdo_place(
            direction,
            slots,
            index,
            sub,
        ),
{
    let comm = index - crate::dictionary::table::comm_base(direction);
    let map = index - map_base(direction);
    lemma_slot_kept(slots, i, s, comm + 1, 0);
    lemma_slot_kept(slots, i, s, map + 1, 0);
    lemma_slot_at(slots, comm + 1, 0);
    lemma_slot_at(slots, map + 1, 0);
}

/// Where a PDO parameter lies, there is a PDO with its number.
proof fn lemma_place_bounds(direction: PdoDirection, slots: Seq<SlotView>, index: u16, sub: u8)
    ensures
        match pdo_place(direction, slots, index, sub) {
            PdoPlace::Comm(i) => {
                &&& 0 <= i < slots.len()
                &&& index == crate::dictionary::table::comm_base(direction) + slots[i].number - 1
            },
            PdoPlace::Mapping(i) => {
                &&& 0 <= i < slots.len()
                &&& index == map_base(direction) + slots[i].number - 1
                &&& sub <= slots[i].mappings.len()
            },
            PdoPlace::Nowhere => true,
        },
{
    let comm = index - crate::dictionary::table::comm_base(direction);
    let map = index - map_base(direction);
    lemma_slot_at(slots, comm + 1, 0);
    lemma_slot_at(slots, map + 1, 0);
}

// ---- Writing and reading ----

/// A value that was written over the bus to a readable variable is read back:
/// a boolean as 0 or 1, any other value as it was written.
pub proof fn lemma_write_then_read(t: TableView, index: u16, sub: u8, data: Seq<u8>)
    requires
        cell_at(t.cells, index, sub, 0) matches Some(i) && t.cells[i].access == AccessType::Rw,
        t.write_result(index, sub, data) is Ok,
    ensures
        ({
            let i = cell_at(t.cells, index, sub, 0)->0;
            t.after_write(index, sub, data).value_of(index, sub) == Ok::<Seq<u8>, OdError>(
                stored(t.cells[i].data_type, data),
            )
        }),
{
    let i = cell_at(t.cells, index, sub, 0)->0;
    lemma_cell_at(t.cells, index, sub, 0);
    lemma_cell_kept(t.cells, i, t.cells[i].written(data), index, sub, 0);
}

/// An array element that was written over the bus is read back.
pub proof fn lemma_write_then_read_element(t: TableView, index: u16, sub: u8, data: Seq<u8>)
    requires
        cell_at(t.cells, index, sub, 0) is None,
        array_at(t.arrays, index, sub, 0) matches Some(i) && t.arrays[i].access == AccessType::Rw,
        t.write_result(index, sub, data) is Ok,
    ensures
        ({
            let i = array_at(t.arrays, index, sub, 0)->0;
            t.after_write(index, sub, data).value_of(index, sub) == Ok::<Seq<u8>, OdError>(
                stored(t.arrays[i].data_type, data),
            )
        }),
{
    let i = array_at(t.arrays, index, sub, 0)->0;
    lemma_array_at(t.arrays, index, sub, 0);
    lemma_array_kept(t.arrays, i, t.arrays[i].written(sub, data), index, sub, 0);
}

proof fn lemma_pdo_write_elsewhere(
    t: TableView,
    direction: PdoDirection,
    index: u16,
    sub: u8,
    data: Seq<u8>,
    other: u16,
    other_sub: u8,
)
    requires
        other != index || other_sub != sub,
        t.pdo_write(direction, index, sub, data) is Some,
    ensures
        ({
            let after = (t.pdo_write(direction, index, sub, data)->0).1;
            &&& after.pdo_value(direction, other, other_sub) == t.pdo_value(
                direction,
                other,
                other_sub,
            )
            &&& after.pdo_meta(direction, other, other_sub) == t.pdo_meta(
                direction,
                other,
                other_sub,
            )
        }),
{
    let slots = t.slots(direction);
    lemma_place_bounds(direction, slots, index, sub);
    lemma_place_bounds(direction, slots, other, other_sub);
    match pdo_place(direction, slots, index, sub) {
        PdoPlace::Comm(i) => {
            lemma_place_kept(
                direction,
                slots,
                i,
                slots[i].comm_written(sub, data),
                other,
                other_sub,
            );
        },
        PdoPlace::Mapping(i) => {
            lemma_place_kept(
                direction,
                slots,
                i,
                slots[i].map_written(sub, data),
                other,
                other_sub,
            );
        },
        PdoPlace::Nowhere => {},
    }
}

/// A write over the bus, successful or not, changes no entry but the one that
/// it addresses.
pub proof fn lemma_write_elsewhere(
    t: TableView,
    index: u16,
    sub: u8,
    data: Seq<u8>,
    other: u16,
    other_sub: u8,
)
    requires
        other != index || other_sub != sub,
    ensures
        t.after_write(index, sub, data).value_of(other, other_sub) == t.value_of(other, other_sub),
{
    let after = t.after_write(index, sub, data);
    lemma_cell_at(t.cells, index, sub, 0);
    lemma_cell_at(t.cells, other, other_sub, 0);
    lemma_array_at(t.arrays, index, sub, 0);
    lemma_array_at(t.arrays, other, other_sub, 0);
    if let Some(i) = cell_at(t.cells, index, sub, 0) {
        lemma_cell_kept(t.cells, i, t.cells[i].written(data), other, other_sub, 0);
    } else if let Some(i) = array_at(t.arrays, index, sub, 0) {
        lemma_array_kept(t.arrays, i, t.arrays[i].written(sub, data), other, other_sub, 0);
    } else if t.pdo_write(PdoDirection::Tpdo, index, sub, data) is Some {
        lemma_pdo_write_elsewhere(
            t,
            PdoDirection::Tpdo,
            index,
            sub,
            data,
            other,
            other_sub,
        );
    } else if t.pdo_write(PdoDirection::Rpdo, index, sub, data) is Some {
        lemma_pdo_write_elsewhere(
            t,
            PdoDirection::Rpdo,
            index,
            sub,
            data,
            other,
            other_sub,
        );
    }
}

/// A write over the bus that is refused changes nothing, unless the data were
/// too long: that leaves a variable-length value empty.
pub proof fn lemma_refused_write(t: TableView, index: u16, sub: u8, data: Seq<u8>)
    requires
        t.write_result(index, sub, data) matches Err(e) && e != OdError::ValueTooLong,
    ensures
        t.after_write(index, sub, data) == t,
{
    let after = t.after_write(index, sub, data);
    lemma_cell_at(t.cells, index, sub, 0);
    lemma_array_at(t.arrays, index, sub, 0);
    lemma_place_bounds(PdoDirection::Tpdo, t.tpdos, index, sub);
    lemma_place_bounds(PdoDirection::Rpdo, t.rpdos, index, sub);
    assert(after.cells =~= t.cells);
    if let Some(i) = array_at(t.arrays, index, sub, 0) {
        if cell_at(t.cells, index, sub, 0) is None && sub > 0 {
            assert(after.arrays[i].values =~= t.arrays[i].values);
        }
    }
    assert(after.arrays =~= t.arrays);
    assert(after.tpdos =~= t.tpdos);
    assert(after.rpdos =~= t.rpdos);
}

/// Entries that are read-only or const refuse every write.
pub proof fn lemma_read_only(t: TableView, index: u16, sub: u8, data: Seq<u8>)
    requires
        cell_at(t.cells, index, sub, 0) matches Some(i) && (t.cells[i].access == AccessType::Ro
            || t.cells[i].access == AccessType::Const),
    ensures
        t.write_result(index, sub, data) == Err::<(), OdError>(OdError::ReadOnly),
        t.after_write(index, sub, data) == t,
{
    lemma_refused_write(t, index, sub, data);
}

/// An entry is described exactly if it can be addressed by a read.
pub proof fn lemma_described_is_addressable(t: TableView, index: u16, sub: u8)
    ensures
        t.type_of(index, sub) is Some <==> t.value_of(index, sub) != Err::<Seq<u8>, OdError>(
            OdError::NotFound,
        ),
{
}

/// Writes over the bus change values, never the descriptions of entries.
pub proof fn lemma_descriptions_stay(
    t: TableView,
    index: u16,
    sub: u8,
    data: Seq<u8>,
    other: u16,
    other_sub: u8,
)
    ensures
        t.after_write(index, sub, data).meta_of(other, other_sub) == t.meta_of(other, other_sub),
{
    lemma_cell_at(t.cells, index, sub, 0);
    lemma_cell_at(t.cells, other, other_sub, 0);
    lemma_array_at(t.arrays, index, sub, 0);
    lemma_array_at(t.arrays, other, other_sub, 0);
    lemma_place_bounds(PdoDirection::Tpdo, t.tpdos, index, sub);
    lemma_place_bounds(PdoDirection::Rpdo, t.rpdos, index, sub);
    lemma_place_bounds(PdoDirection::Tpdo, t.tpdos, other, other_sub);
    lemma_place_bounds(PdoDirection::Rpdo, t.rpdos, other, other_sub);
    if let Some(i) = cell_at(t.cells, index, sub, 0) {
        lemma_cell_kept(t.cells, i, t.cells[i].written(data), other, other_sub, 0);
    } else if let Some(i) = array_at(t.arrays, index, sub, 0) {
        lemma_array_kept(t.arrays, i, t.arrays[i].written(sub, data), other, other_sub, 0);
    } else {
        match pdo_place(PdoDirection::Tpdo, t.tpdos, index, sub) {
            PdoPlace::Comm(i) => {
                lemma_place_kept(
                    PdoDirection::Tpdo,
                    t.tpdos,
                    i,
                    t.tpdos[i].comm_written(sub, data),
                    other,
                    other_sub,
                );
            },
            PdoPlace::Mapping(i) => {
                lemma_place_kept(
                    PdoDirection::Tpdo,
                    t.tpdos,
                    i,
                    t.tpdos[i].map_written(sub, data),
                    other,
                    other_sub,
                );
            },
            PdoPlace::Nowhere => {
                match pdo_place(PdoDirection::Rpdo, t.rpdos, index, sub) {
                    PdoPlace::Comm(i) => {
                        lemma_place_kept(
                            PdoDirection::Rpdo,
                            t.rpdos,
                            i,
                            t.rpdos[i].comm_written(sub, data),
                            other,
                            other_sub,
                        );
                    },
                    PdoPlace::Mapping(i) => {
                        lemma_place_kept(
                            PdoDirection::Rpdo,
                            t.rpdos,
                            i,
                            t.rpdos[i].map_written(sub, data),
                            other,
                            other_sub,
                        );
                    },
                    PdoPlace::Nowhere => {},
                }
            },
        }
    }
}

// ---- Mappings ----

/// The mapped objects of a PDO fit into a frame, and there is an entry for each.
pub open spec fn fits_frame(s: SlotView) -> bool {
    s.mapping_count <= s.mappings.len() <= 64 && total_bits(s.mappings, s.mapping_count as int)
        <= 64
}

/// The mapped objects of all PDOs fit into frames.
pub open spec fn all_fit(t: TableView) -> bool {
    &&& forall|i: int| 0 <= i < t.tpdos.len() ==> fits_frame(#[trigger] t.tpdos[i])
    &&& forall|i: int| 0 <= i < t.rpdos.len() ==> fits_frame(#[trigger] t.rpdos[i])
}

proof fn lemma_bits_of_front(a: Seq<u32>, b: Seq<u32>, n: int)
    requires
        n <= a.len(),
    ensures
        total_bits(a + b, n) == total_bits(a, n),
    decreases n,
{
    if 0 < n {
        lemma_bits_of_front(a, b, n - 1);
    }
}

/// The objects that a definition maps fit into a frame.
pub open spec fn declared_to_fit(pdo: PdoDefView, flat: Seq<FlatView>) -> bool {
    match mapped_objects(pdo, flat, pdo.mappings.len() as int) {
        Ok(mapped) => total_bits(mapping_values(mapped), mapped.len() as int) <= 64,
        Err(_) => true,
    }
}

proof fn lemma_fresh_slot(pdo: PdoDefView, flat: Seq<FlatView>)
    requires
        declared_to_fit(pdo, flat),
    ensures
        slot_of(pdo, flat) matches Ok(s) ==> fits_frame(s),
{
    match mapped_objects(pdo, flat, pdo.mappings.len() as int) {
        Ok(mapped) => {
            let values = mapping_values(mapped);
            if values.len() <= 64 {
                lemma_bits_of_front(
                    values,
                    Seq::new((64 - values.len()) as nat, |i: int| 0u32),
                    values.len() as int,
                );
            }
        },
        Err(_) => {},
    }
}

proof fn lemma_fresh_slots(pdos: Seq<PdoDefView>, flat: Seq<FlatView>, n: int)
    requires
        forall|i: int| 0 <= i < pdos.len() ==> declared_to_fit(#[trigger] pdos[i], flat),
    ensures
        slots_of(pdos, flat, n) matches Ok((tpdos, rpdos)) ==> {
            &&& forall|i: int| 0 <= i < tpdos.len() ==> fits_frame(#[trigger] tpdos[i])
            &&& forall|i: int| 0 <= i < rpdos.len() ==> fits_frame(#[trigger] rpdos[i])
        },
    decreases n,
{
    if 0 < n <= pdos.len() {
        lemma_fresh_slots(pdos, flat, n - 1);
        lemma_fresh_slot(pdos[n - 1], flat);
    }
}

/// In the dictionary that a definition describes, the mapped objects of all
/// PDOs fit into frames, if the definition maps no more than that.
pub proof fn lemma_described_mappings_fit(od: DefinitionView)
    requires
        forall|i: int|
            0 <= i < od.pdos.len() ==> declared_to_fit(
                #[trigger] od.pdos[i],
                variables(od.entries),
            ),
    ensures
        described(od) matches Ok((t, _)) ==> all_fit(t),
{
    lemma_fresh_slots(od.pdos, variables(od.entries), od.pdos.len() as int);
}

proof fn lemma_slot_write_fits(s: SlotView, sub: u8, data: Seq<u8>)
    requires
        fits_frame(s),
        sub <= s.mappings.len(),
    ensures
        fits_frame(s.comm_written(sub, data)),
        fits_frame(s.map_written(sub, data)),
{
}

/// Whatever is written over the bus, the mapped objects of all PDOs fit into
/// frames.
pub proof fn lemma_mappings_always_fit(t: TableView, index: u16, sub: u8, data: Seq<u8>)
    requires
        all_fit(t),
    ensures
        all_fit(t.after_write(index, sub, data)),
{
    lemma_place_bounds(PdoDirection::Tpdo, t.tpdos, index, sub);
    lemma_place_bounds(PdoDirection::Rpdo, t.rpdos, index, sub);
    match pdo_place(PdoDirection::Tpdo, t.tpdos, index, sub) {
        PdoPlace::Comm(i) => {
            assert(fits_frame(t.tpdos[i]));
            assert(fits_frame(t.tpdos[i].comm_written(sub, data)));
        },
        PdoPlace::Mapping(i) => {
            assert(fits_frame(t.tpdos[i]));
            lemma_slot_write_fits(t.tpdos[i], sub, data);
        },
        PdoPlace::Nowhere => {},
    }
    match pdo_place(PdoDirection::Rpdo, t.rpdos, index, sub) {
        PdoPlace::Comm(i) => {
            assert(fits_frame(t.rpdos[i]));
            assert(fits_frame(t.rpdos[i].comm_written(sub, data)));
        },
        PdoPlace::Mapping(i) => {
            assert(fits_frame(t.rpdos[i]));
            lemma_slot_write_fits(t.rpdos[i], sub, data);
        },
        PdoPlace::Nowhere => {},
    }
}

/// The mapping of a PDO that can be changed is changed by first setting the
/// count to 0, which always succeeds, then writing entries, which is refused
/// while the count is not 0.
pub proof fn lemma_mapping_lock(s: SlotView, sub: u8, value: u32)
    requires
        s.mapping == MappingKind::Mutable,
        1 <= sub <= s.mappings.len(),
        value % 0x100 <= 64,
    ensures
        s.mapping_count != 0 ==> s.map_write_result(sub, u32_bytes(value)) == Err::<(), OdError>(
            OdError::ReadOnly,
        ),
        s.map_write_result(0, seq![0u8]) is Ok,
        ({
            let unlocked = s.map_written(0, seq![0u8]);
            &&& unlocked.map_write_result(sub, u32_bytes(value)) is Ok
            &&& unlocked.map_written(sub, u32_bytes(value)).map_value(sub) == u32_bytes(value)
        }),
{
    lemma_u32_bytes_roundtrip(value, u32_bytes(value));
}

/// The mapping of a PDO that is immutable never changes.
pub proof fn lemma_immutable_mapping(s: SlotView, sub: u8, data: Seq<u8>)
    requires
        s.mapping == MappingKind::Immutable,
    ensures
        s.map_write_result(sub, data) == Err::<(), OdError>(OdError::ReadOnly),
        s.map_written(sub, data) == s,
        s.comm_written(sub, data).mappings == s.mappings,
        s.comm_written(sub, data).mapping_count == s.mapping_count,
{
}

// ---- Changes ----

/// What the stack cannot write, it reports no change of.
pub proof fn lemma_changes_are_of_writable_entries(t: TableView, index: u16, sub: u8)
    requires
        forall|i: int|
            0 <= i < t.cells.len() && (#[trigger] t.cells[i]).index == index && t.cells[i].subindex
                == sub ==> !admits_writes(t.cells[i].access),
        forall|i: int|
            0 <= i < t.arrays.len() ==> (#[trigger] t.arrays[i]).index != index || !admits_writes(
                t.arrays[i].access,
            ),
    ensures
        t.change_at(index, sub) is None,
{
    lemma_no_writable_cell(t.cells, index, sub, 0);
    lemma_no_writable_array(t.arrays, index, sub, 0);
}

proof fn lemma_no_writable_cell(cells: Seq<CellView>, index: u16, sub: u8, from: int)
    requires
        0 <= from,
        forall|i: int|
            0 <= i < cells.len() && (#[trigger] cells[i]).index == index && cells[i].subindex == sub
                ==> !admits_writes(cells[i].access),
    ensures
        writable_cell(cells, index, sub, from) is None,
    decreases cells.len() - from,
{
    if from < cells.len() {
        lemma_no_writable_cell(cells, index, sub, from + 1);
    }
}

proof fn lemma_no_writable_array(arrays: Seq<ArrayCellView>, index: u16, sub: u8, from: int)
    requires
        0 <= from,
        forall|i: int|
            0 <= i < arrays.len() ==> (#[trigger] arrays[i]).index != index || !admits_writes(
                arrays[i].access,
            ),
    ensures
        crate::dictionary::device::writable_array(arrays, index, sub, from) is None,
    decreases arrays.len() - from,
{
    if from < arrays.len() {
        lemma_no_writable_array(arrays, index, sub, from + 1);
    }
}

} // verus!
