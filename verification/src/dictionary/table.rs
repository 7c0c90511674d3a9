//! The dictionary that a definition describes, as a table of objects.

use crate::bytes::{to_vec, u16_bytes, u16_from_le, u16_to_le, u32_bytes, u32_from_le, u32_to_le};
use crate::bytes::{le_u16, le_u32};
use crate::cobid::NodeId;
use crate::datatypes::DataType;
use crate::dictionary::definition::{CobIdSpec, MappingKind, PdoDirection, SdoServerDef};
use crate::od::{AccessType, ObjectDictionary, OdContents, OdEntryMeta, OdError};
use vstd::prelude::*;
use vstd::utf8::valid_utf8;

verus! {

/// Calls `std::str::from_utf8`, which succeeds exactly on valid UTF-8.
#[verifier::external_body]
fn is_utf8(data: &[u8]) -> (r: bool)
    ensures
        r == valid_utf8(data@),
{
    std::str::from_utf8(data).is_ok()
}

// ---- Variables ----

/// A variable with its current value.
#[derive(Clone, Debug)]
pub struct Cell {
    pub index: u16,
    pub subindex: u8,
    pub name: String,
    pub data_type: DataType,
    pub access: AccessType,
    pub pdo_mappable: bool,
    /// The size that the variable is described with.
    pub max_size: Option<u16>,
    /// Largest size that a variable-length value may have, if there is one.
    pub capacity: Option<usize>,
    pub value: Vec<u8>,
}

#[verifier::ext_equal]
pub struct CellView {
    pub index: u16,
    pub subindex: u8,
    pub name: Seq<char>,
    pub data_type: DataType,
    pub access: AccessType,
    pub pdo_mappable: bool,
    pub max_size: Option<u16>,
    pub capacity: Option<usize>,
    pub value: Seq<u8>,
}

impl View for Cell {
    type V = CellView;

    open spec fn view(&self) -> CellView {
        CellView {
            index: self.index,
            subindex: self.subindex,
            name: self.name@,
            data_type: self.data_type,
            access: self.access,
            pdo_mappable: self.pdo_mappable,
            max_size: self.max_size,
            capacity: self.capacity,
            value: self.value@,
        }
    }
}

/// A value as it is stored: a boolean as 0 or 1, any other value as it is.
pub open spec fn stored(t: DataType, data: Seq<u8>) -> Seq<u8> {
    if t == DataType::Boolean {
        seq![
            if data[0] == 0 {
                0u8
            } else {
                1u8
            },
        ]
    } else {
        data
    }
}

/// An access admits writes over the bus.
pub open spec fn admits_writes(access: AccessType) -> bool {
    access == AccessType::Rw || access == AccessType::Wo
}

/// Whether data can be written to a variable.
pub open spec fn write_outcome(
    t: DataType,
    access: AccessType,
    capacity: Option<usize>,
    data: Seq<u8>,
) -> Result<(), OdError> {
    if !admits_writes(access) {
        Err(OdError::ReadOnly)
    } else {
        match t.spec_size() {
            Some(n) => if data.len() == n {
                Ok(())
            } else {
                Err(OdError::DataTypeMismatch)
            },
            None => if t == DataType::VisibleString && !valid_utf8(data) {
                Err(OdError::DataTypeMismatch)
            } else if capacity matches Some(n) && data.len() > n {
                Err(OdError::ValueTooLong)
            } else {
                Ok(())
            },
        }
    }
}

/// The value of a variable after a write. Data beyond the capacity leave the
/// variable empty.
pub open spec fn value_after(value: Seq<u8>, t: DataType, outcome: Result<(), OdError>, data: Seq<u8>) -> Seq<
    u8,
> {
    match outcome {
        Ok(()) => stored(t, data),
        Err(OdError::ValueTooLong) => Seq::empty(),
        Err(_) => value,
    }
}

impl CellView {
    /// What a read over the bus yields.
    pub open spec fn read(self) -> Result<Seq<u8>, OdError> {
        if self.access == AccessType::Wo {
            Err(OdError::WriteOnly)
        } else {
            Ok(self.value)
        }
    }

    /// Whether data can be written over the bus.
    pub open spec fn write_result(self, data: Seq<u8>) -> Result<(), OdError> {
        write_outcome(self.data_type, self.access, self.capacity, data)
    }

    /// The variable after a write.
    pub open spec fn written(self, data: Seq<u8>) -> CellView {
        CellView {
            value: value_after(self.value, self.data_type, self.write_result(data), data),
            ..self
        }
    }

    /// A value is one of the variable's type.
    pub open spec fn is_value(self, value: Seq<u8>) -> bool {
        write_outcome(self.data_type, AccessType::Rw, self.capacity, value) is Ok
    }

    /// The description of the variable.
    pub open spec fn meta(self) -> MetaView {
        MetaView {
            index: self.index,
            subindex: self.subindex,
            data_type: self.data_type,
            access: self.access,
            pdo_mappable: self.pdo_mappable,
            name: self.name,
            max_size: self.max_size,
        }
    }
}

fn check_write(t: DataType, access: AccessType, capacity: Option<usize>, data: &[u8]) -> (r: Result<
    (),
    OdError,
>)
    ensures
        r == write_outcome(t, access, capacity, data@),
{
    match access {
        AccessType::Rw | AccessType::Wo => {},
        _ => {
            return Err(OdError::ReadOnly);
        },
    }
    match t.size() {
        Some(n) => if data.len() == n {
            Ok(())
        } else {
            Err(OdError::DataTypeMismatch)
        },
        None => {
            if t == DataType::VisibleString && !is_utf8(data) {
                return Err(OdError::DataTypeMismatch);
            }
            match capacity {
                Some(n) => if data.len() > n {
                    Err(OdError::ValueTooLong)
                } else {
                    Ok(())
                },
                None => Ok(()),
            }
        },
    }
}

fn store_value(value: &mut Vec<u8>, t: DataType, outcome: Result<(), OdError>, data: &[u8])
    requires
        outcome is Ok && t == DataType::Boolean ==> data@.len() == 1,
    ensures
        final(value)@ == value_after(old(value)@, t, outcome, data@),
{
    match outcome {
        Ok(()) => {
            if t == DataType::Boolean {
                let b: u8 = if data[0] == 0 {
                    0
                } else {
                    1
                };
                *value = vec![b];
                assert(value@ =~= stored(t, data@));
            } else {
                *value = to_vec(data);
            }
        },
        Err(OdError::ValueTooLong) => {
            *value = Vec::new();
        },
        Err(_) => {},
    }
}

impl Cell {
    fn write(&mut self, data: &[u8]) -> (r: Result<(), OdError>)
        ensures
            r == old(self)@.write_result(data@),
            final(self)@ == old(self)@.written(data@),
    {
        let r = check_write(self.data_type, self.access, self.capacity, data);
        store_value(&mut self.value, self.data_type, r, data);
        r
    }

    /// Set the value, if it is one of the variable's type.
    pub(crate) fn set(&mut self, value: &[u8]) -> (r: bool)
        ensures
            r == old(self)@.is_value(value@),
            final(self)@ == (if r {
                CellView { value: stored(old(self)@.data_type, value@), ..old(self)@ }
            } else {
                old(self)@
            }),
    {
        let r = check_write(self.data_type, AccessType::Rw, self.capacity, value);
        if r.is_err() {
            return false;
        }
        store_value(&mut self.value, self.data_type, r, value);
        true
    }
}

/// What variables hold, one by one.
pub open spec fn cell_views(cells: Seq<Cell>) -> Seq<CellView> {
    cells.map_values(|c: Cell| c@)
}

/// The first variable from `from` on with an address.
pub open spec fn cell_at(cells: Seq<CellView>, index: u16, subindex: u8, from: int) -> Option<int>
    decreases cells.len() - from,
{
    if from < 0 || from >= cells.len() {
        None
    } else if cells[from].index == index && cells[from].subindex == subindex {
        Some(from)
    } else {
        cell_at(cells, index, subindex, from + 1)
    }
}

pub proof fn lemma_cell_at(cells: Seq<CellView>, index: u16, subindex: u8, from: int)
    requires
        0 <= from,
    ensures
        cell_at(cells, index, subindex, from) matches Some(i) ==> from <= i < cells.len()
            && cells[i].index == index && cells[i].subindex == subindex,
    decreases cells.len() - from,
{
    if from < cells.len() && !(cells[from].index == index && cells[from].subindex == subindex) {
        lemma_cell_at(cells, index, subindex, from + 1);
    }
}

// ---- Arrays ----

/// An array with the current values of its elements, which all have the same
/// fixed size. The elements are at the subindices from 1 on.
#[derive(Clone, Debug)]
pub struct ArrayCell {
    pub index: u16,
    pub name: String,
    pub data_type: DataType,
    pub access: AccessType,
    pub pdo_mappable: bool,
    pub values: Vec<Vec<u8>>,
}

#[verifier::ext_equal]
pub struct ArrayCellView {
    pub index: u16,
    pub name: Seq<char>,
    pub data_type: DataType,
    pub access: AccessType,
    pub pdo_mappable: bool,
    pub values: Seq<Seq<u8>>,
}

/// The values of elements.
pub open spec fn value_views(values: Seq<Vec<u8>>) -> Seq<Seq<u8>> {
    values.map_values(|v: Vec<u8>| v@)
}

impl View for ArrayCell {
    type V = ArrayCellView;

    open spec fn view(&self) -> ArrayCellView {
        ArrayCellView {
            index: self.index,
            name: self.name@,
            data_type: self.data_type,
            access: self.access,
            pdo_mappable: self.pdo_mappable,
            values: value_views(self.values@),
        }
    }
}

impl ArrayCellView {
    /// What a read over the bus yields: the number of elements at subindex 0.
    pub open spec fn read(self, subindex: u8) -> Result<Seq<u8>, OdError> {
        if subindex == 0 {
            Ok(seq![self.values.len() as u8])
        } else if self.access == AccessType::Wo {
            Err(OdError::WriteOnly)
        } else {
            Ok(self.values[subindex - 1])
        }
    }

    /// Whether data can be written over the bus.
    pub open spec fn write_result(self, subindex: u8, data: Seq<u8>) -> Result<(), OdError> {
        if subindex == 0 {
            Err(OdError::ReadOnly)
        } else {
            write_outcome(self.data_type, self.access, None, data)
        }
    }

    /// The array after a write.
    pub open spec fn written(self, subindex: u8, data: Seq<u8>) -> ArrayCellView {
        if subindex == 0 {
            self
        } else {
            ArrayCellView {
                values: self.values.update(
                    subindex - 1,
                    value_after(
                        self.values[subindex - 1],
                        self.data_type,
                        self.write_result(subindex, data),
                        data,
                    ),
                ),
                ..self
            }
        }
    }

    /// The description of an element, or of the number of elements.
    pub open spec fn meta(self, subindex: u8) -> MetaView {
        if subindex == 0 {
            MetaView {
                index: self.index,
                subindex: 0,
                data_type: DataType::U8,
                access: AccessType::Ro,
                pdo_mappable: false,
                name: "number_of_entries"@,
                max_size: None,
            }
        } else {
            MetaView {
                index: self.index,
                subindex,
                data_type: self.data_type,
                access: self.access,
                pdo_mappable: self.pdo_mappable,
                name: self.name,
                max_size: None,
            }
        }
    }
}

impl ArrayCell {
    fn read(&self, subindex: u8) -> (r: Result<Vec<u8>, OdError>)
        requires
            subindex <= self@.values.len(),
        ensures
            value_result(r) == self@.read(subindex),
    {
        if subindex == 0 {
            #[verifier::truncate]
            let n: u8 = self.values.len() as u8;
            let v: Vec<u8> = vec![n];
            assert(v@ =~= seq![self@.values.len() as u8]);
            return Ok(v);
        }
        if let AccessType::Wo = self.access {
            return Err(OdError::WriteOnly);
        }
        assert(self@.values[subindex - 1] == self.values@[subindex - 1]@);
        Ok(to_vec(self.values[subindex as usize - 1].as_slice()))
    }

    fn write(&mut self, subindex: u8, data: &[u8]) -> (r: Result<(), OdError>)
        requires
            subindex <= old(self)@.values.len(),
        ensures
            r == old(self)@.write_result(subindex, data@),
            final(self)@ == old(self)@.written(subindex, data@),
    {
        if subindex == 0 {
            return Err(OdError::ReadOnly);
        }
        let ghost before = self@.values;
        let i: usize = subindex as usize - 1;
        assert(before[i as int] == self.values@[i as int]@);
        let r = check_write(self.data_type, self.access, None, data);
        let mut v: Vec<u8> = Vec::new();
        std::mem::swap(&mut v, &mut self.values[i]);
        store_value(&mut v, self.data_type, r, data);
        self.values[i] = v;
        assert(self@.values =~= before.update(i as int, v@));
        r
    }
}

impl ArrayCell {
    /// Set an element, counted from 0, if the value is one of its type.
    pub(crate) fn set(&mut self, element: usize, value: &[u8]) -> (r: bool)
        ensures
            r == (element < old(self)@.values.len() && old(self)@.data_type.spec_size() == Some(
                value@.len() as usize,
            )),
            final(self)@ == (if r {
                ArrayCellView {
                    values: old(self)@.values.update(
                        element as int,
                        stored(old(self)@.data_type, value@),
                    ),
                    ..old(self)@
                }
            } else {
                old(self)@
            }),
    {
        let len: usize = value.len();
        let fits = match self.data_type.size() {
            Some(n) => n == len,
            None => false,
        };
        if element >= self.values.len() || !fits {
            return false;
        }
        let ghost before = self@.values;
        let mut v: Vec<u8> = Vec::new();
        store_value(&mut v, self.data_type, Ok(()), value);
        self.values[element] = v;
        assert(self@.values =~= before.update(element as int, v@));
        true
    }
}

/// What arrays hold, one by one.
pub open spec fn array_views(arrays: Seq<ArrayCell>) -> Seq<ArrayCellView> {
    arrays.map_values(|a: ArrayCell| a@)
}

/// The first array from `from` on with an index that has a subindex.
pub open spec fn array_at(
    arrays: Seq<ArrayCellView>,
    index: u16,
    subindex: u8,
    from: int,
) -> Option<int>
    decreases arrays.len() - from,
{
    if from < 0 || from >= arrays.len() {
        None
    } else if arrays[from].index == index && subindex <= arrays[from].values.len() {
        Some(from)
    } else {
        array_at(arrays, index, subindex, from + 1)
    }
}

pub proof fn lemma_array_at(arrays: Seq<ArrayCellView>, index: u16, subindex: u8, from: int)
    requires
        0 <= from,
    ensures
        array_at(arrays, index, subindex, from) matches Some(i) ==> from <= i < arrays.len()
            && arrays[i].index == index && subindex <= arrays[i].values.len(),
    decreases arrays.len() - from,
{
    if from < arrays.len() && !(arrays[from].index == index && subindex
        <= arrays[from].values.len()) {
        lemma_array_at(arrays, index, subindex, from + 1);
    }
}

// ---- PDO parameters ----

/// The communication and mapping parameters of a PDO.
#[derive(Clone, Debug)]
pub struct PdoSlot {
    pub number: u16,
    /// The COB-ID that it was declared with.
    pub declared: Option<CobIdSpec>,
    /// The COB-ID parameter. 0 = as declared.
    pub cob_id: u32,
    pub transmission_type: u8,
    pub inhibit_time: u16,
    pub event_timer: u16,
    pub mapping: MappingKind,
    /// The number of objects that it was declared to map.
    pub declared_count: u8,
    pub mapping_count: u8,
    pub mappings: Vec<u32>,
}

#[verifier::ext_equal]
pub struct SlotView {
    pub number: u16,
    pub declared: Option<CobIdSpec>,
    pub cob_id: u32,
    pub transmission_type: u8,
    pub inhibit_time: u16,
    pub event_timer: u16,
    pub mapping: MappingKind,
    pub declared_count: u8,
    pub mapping_count: u8,
    pub mappings: Seq<u32>,
}

impl View for PdoSlot {
    type V = SlotView;

    open spec fn view(&self) -> SlotView {
        SlotView {
            number: self.number,
            declared: self.declared,
            cob_id: self.cob_id,
            transmission_type: self.transmission_type,
            inhibit_time: self.inhibit_time,
            event_timer: self.event_timer,
            mapping: self.mapping,
            declared_count: self.declared_count,
            mapping_count: self.mapping_count,
            mappings: self.mappings@,
        }
    }
}

/// The number of bits that the first mapping values map.
pub open spec fn total_bits(mappings: Seq<u32>, n: int) -> int
    decreases n,
{
    if n <= 0 || n > mappings.len() {
        0
    } else {
        total_bits(mappings, n - 1) + mappings[n - 1] % 0x100
    }
}

/// The index of the first communication parameter record of a direction.
pub open spec fn comm_base(direction: PdoDirection) -> int {
    match direction {
        PdoDirection::Tpdo => 0x1800,
        PdoDirection::Rpdo => 0x1400,
    }
}

/// The index of the first mapping parameter record of a direction.
pub open spec fn map_base(direction: PdoDirection) -> int {
    match direction {
        PdoDirection::Tpdo => 0x1A00,
        PdoDirection::Rpdo => 0x1600,
    }
}

/// The name and type of a communication parameter, if a PDO has it: the
/// inhibit time is for transmission only, and subindex 4 is reserved.
pub open spec fn comm_param(direction: PdoDirection, subindex: u8) -> Option<(Seq<char>, DataType)> {
    if subindex == 0 {
        Some(("highest_subindex"@, DataType::U8))
    } else if subindex == 1 {
        Some(("cob_id"@, DataType::U32))
    } else if subindex == 2 {
        Some(("transmission_type"@, DataType::U8))
    } else if subindex == 3 && direction == PdoDirection::Tpdo {
        Some(("inhibit_time"@, DataType::U16))
    } else if subindex == 5 {
        Some(("event_timer"@, DataType::U16))
    } else {
        None
    }
}

impl SlotView {
    /// The value of a communication parameter.
    pub open spec fn comm_value(self, subindex: u8) -> Seq<u8> {
        if subindex == 0 {
            seq![5u8]
        } else if subindex == 1 {
            u32_bytes(self.cob_id)
        } else if subindex == 2 {
            seq![self.transmission_type]
        } else if subindex == 3 {
            u16_bytes(self.inhibit_time)
        } else {
            u16_bytes(self.event_timer)
        }
    }

    /// The value of a mapping parameter: the count, or an entry.
    pub open spec fn map_value(self, subindex: u8) -> Seq<u8> {
        if subindex == 0 {
            seq![self.mapping_count]
        } else {
            u32_bytes(self.mappings[subindex - 1])
        }
    }

    /// Whether data can be written to a communication parameter.
    pub open spec fn comm_write_result(self, subindex: u8, data: Seq<u8>) -> Result<(), OdError> {
        if subindex == 0 {
            Err(OdError::ReadOnly)
        } else if data.len() == self.comm_value(subindex).len() {
            Ok(())
        } else {
            Err(OdError::DataTypeMismatch)
        }
    }

    /// The PDO after a write to a communication parameter.
    pub open spec fn comm_written(self, subindex: u8, data: Seq<u8>) -> SlotView {
        if self.comm_write_result(subindex, data) is Err {
            self
        } else if subindex == 1 {
            SlotView { cob_id: le_u32(data), ..self }
        } else if subindex == 2 {
            SlotView { transmission_type: data[0], ..self }
        } else if subindex == 3 {
            SlotView { inhibit_time: le_u16(data), ..self }
        } else {
            SlotView { event_timer: le_u16(data), ..self }
        }
    }

    /// Whether data can be written to a mapping parameter. The entries are
    /// locked while the count is not 0, the count is bounded by the entries
    /// that there are, and the mapped bits by the 64 bits of a frame.
    pub open spec fn map_write_result(self, subindex: u8, data: Seq<u8>) -> Result<(), OdError> {
        if self.mapping == MappingKind::Immutable {
            Err(OdError::ReadOnly)
        } else if subindex == 0 {
            if data.len() != 1 {
                Err(OdError::DataTypeMismatch)
            } else if data[0] > self.mappings.len() || total_bits(self.mappings, data[0] as int)
                > 64 {
                Err(OdError::ValueRange)
            } else {
                Ok(())
            }
        } else if self.mapping_count != 0 {
            Err(OdError::ReadOnly)
        } else if data.len() != 4 {
            Err(OdError::DataTypeMismatch)
        } else if le_u32(data) % 0x100 > 64 {
            Err(OdError::ValueRange)
        } else {
            Ok(())
        }
    }

    /// The PDO after a write to a mapping parameter.
    pub open spec fn map_written(self, subindex: u8, data: Seq<u8>) -> SlotView {
        if self.map_write_result(subindex, data) is Err {
            self
        } else if subindex == 0 {
            SlotView { mapping_count: data[0], ..self }
        } else {
            SlotView { mappings: self.mappings.update(subindex - 1, le_u32(data)), ..self }
        }
    }

    /// The highest subindex of the mapping parameter record: the number of
    /// objects that were declared to be mapped, or of the entries that can be
    /// mapped where none were.
    pub open spec fn map_subs(self) -> u8 {
        if self.declared_count > 0 {
            self.declared_count
        } else {
            self.mappings.len() as u8
        }
    }

    /// The access to a mapping parameter.
    pub open spec fn map_access(self) -> AccessType {
        match self.mapping {
            MappingKind::Mutable => AccessType::Rw,
            MappingKind::Immutable => AccessType::Const,
        }
    }

    /// The description of a mapping parameter.
    pub open spec fn map_meta(self, index: u16, subindex: u8) -> MetaView {
        MetaView {
            index,
            subindex,
            data_type: if subindex == 0 {
                DataType::U8
            } else {
                DataType::U32
            },
            access: self.map_access(),
            pdo_mappable: false,
            name: if subindex == 0 {
                "mapping_count"@
            } else {
                "mapping_entry"@
            },
            max_size: None,
        }
    }
}

/// The description of a communication parameter.
pub open spec fn comm_meta(index: u16, subindex: u8, param: (Seq<char>, DataType)) -> MetaView {
    MetaView {
        index,
        subindex,
        data_type: param.1,
        access: if subindex == 0 {
            AccessType::Ro
        } else {
            AccessType::Rw
        },
        pdo_mappable: false,
        name: param.0,
        max_size: None,
    }
}

/// What PDO parameters hold, one by one.
pub open spec fn slot_views(slots: Seq<PdoSlot>) -> Seq<SlotView> {
    slots.map_values(|s: PdoSlot| s@)
}

/// The first PDO from `from` on with a number.
pub open spec fn slot_at(slots: Seq<SlotView>, number: int, from: int) -> Option<int>
    decreases slots.len() - from,
{
    if from < 0 || from >= slots.len() {
        None
    } else if slots[from].number == number {
        Some(from)
    } else {
        slot_at(slots, number, from + 1)
    }
}

pub proof fn lemma_slot_at(slots: Seq<SlotView>, number: int, from: int)
    requires
        0 <= from,
    ensures
        slot_at(slots, number, from) matches Some(i) ==> from <= i < slots.len() && slots[i].number
            == number,
    decreases slots.len() - from,
{
    if from < slots.len() && slots[from].number != number {
        lemma_slot_at(slots, number, from + 1);
    }
}

/// Where an address lies in the parameters of the PDOs of a direction.
pub enum PdoPlace {
    Comm(int),
    Mapping(int),
    Nowhere,
}

/// Where an address lies in the parameters of the PDOs of a direction.
pub open spec fn pdo_place(
    direction: PdoDirection,
    slots: Seq<SlotView>,
    index: u16,
    subindex: u8,
) -> PdoPlace {
    let comm = index - comm_base(direction);
    let map = index - map_base(direction);
    if 0 <= comm < 0x200 {
        match slot_at(slots, comm + 1, 0) {
            Some(i) if comm_param(direction, subindex) is Some => PdoPlace::Comm(i),
            _ => PdoPlace::Nowhere,
        }
    } else if 0 <= map < 0x200 {
        match slot_at(slots, map + 1, 0) {
            Some(i) if subindex <= slots[i].mappings.len() => PdoPlace::Mapping(i),
            _ => PdoPlace::Nowhere,
        }
    } else {
        PdoPlace::Nowhere
    }
}

impl PdoSlot {
    fn comm_bytes(&self, subindex: u8) -> (r: Vec<u8>)
        ensures
            r@ == self@.comm_value(subindex),
    {
        if subindex == 0 {
            let v: Vec<u8> = vec![5u8];
            assert(v@ =~= seq![5u8]);
            v
        } else if subindex == 1 {
            to_vec(u32_to_le(self.cob_id).as_slice())
        } else if subindex == 2 {
            let v: Vec<u8> = vec![self.transmission_type];
            assert(v@ =~= seq![self.transmission_type]);
            v
        } else if subindex == 3 {
            to_vec(u16_to_le(self.inhibit_time).as_slice())
        } else {
            to_vec(u16_to_le(self.event_timer).as_slice())
        }
    }

    fn map_bytes(&self, subindex: u8) -> (r: Vec<u8>)
        requires
            subindex <= self@.mappings.len(),
        ensures
            r@ == self@.map_value(subindex),
    {
        if subindex == 0 {
            let v: Vec<u8> = vec![self.mapping_count];
            assert(v@ =~= seq![self.mapping_count]);
            v
        } else {
            to_vec(u32_to_le(self.mappings[subindex as usize - 1]).as_slice())
        }
    }

    fn write_comm(&mut self, subindex: u8, data: &[u8]) -> (r: Result<(), OdError>)
        ensures
            r == old(self)@.comm_write_result(subindex, data@),
            final(self)@ == old(self)@.comm_written(subindex, data@),
    {
        if subindex == 0 {
            return Err(OdError::ReadOnly);
        }
        let size: usize = if subindex == 1 {
            4
        } else if subindex == 2 {
            1
        } else {
            2
        };
        if data.len() != size {
            return Err(OdError::DataTypeMismatch);
        }
        if subindex == 1 {
            self.cob_id = u32_from_le(data);
        } else if subindex == 2 {
            self.transmission_type = data[0];
        } else if subindex == 3 {
            self.inhibit_time = u16_from_le(data);
        } else {
            self.event_timer = u16_from_le(data);
        }
        Ok(())
    }

    /// The bits that the first `n` entries map, as far as they are at most 64.
    fn fits_frame(&self, n: usize) -> (r: bool)
        requires
            n <= self@.mappings.len(),
            n <= 255,
        ensures
            r == (total_bits(self@.mappings, n as int) <= 64),
    {
        let mut bits: u32 = 0;
        let mut i: usize = 0;
        while i < n
            invariant
                i <= n <= self.mappings@.len(),
                n <= 255,
                bits == total_bits(self.mappings@, i as int),
                bits <= 255 * i,
            decreases n - i,
        {
            bits += self.mappings[i] % 0x100;
            i += 1;
        }
        bits <= 64
    }

    fn write_map(&mut self, subindex: u8, data: &[u8]) -> (r: Result<(), OdError>)
        requires
            subindex <= old(self)@.mappings.len(),
        ensures
            r == old(self)@.map_write_result(subindex, data@),
            final(self)@ == old(self)@.map_written(subindex, data@),
    {
        if let MappingKind::Immutable = self.mapping {
            return Err(OdError::ReadOnly);
        }
        if subindex == 0 {
            if data.len() != 1 {
                return Err(OdError::DataTypeMismatch);
            }
            let n: usize = data[0] as usize;
            if n > self.mappings.len() || !self.fits_frame(n) {
                return Err(OdError::ValueRange);
            }
            self.mapping_count = data[0];
            return Ok(());
        }
        if self.mapping_count != 0 {
            return Err(OdError::ReadOnly);
        }
        if data.len() != 4 {
            return Err(OdError::DataTypeMismatch);
        }
        let v: u32 = u32_from_le(data);
        if v % 0x100 > 64 {
            return Err(OdError::ValueRange);
        }
        self.mappings.set(subindex as usize - 1, v);
        Ok(())
    }
}

fn find_slot(slots: &Vec<PdoSlot>, number: u16) -> (r: Option<usize>)
    ensures
        match r {
            Some(i) => i < slots@.len() && slot_at(slot_views(slots@), number as int, 0) == Some(
                i as int,
            ),
            None => slot_at(slot_views(slots@), number as int, 0) is None,
        },
{
    let ghost all = slot_views(slots@);
    let mut i: usize = 0;
    while i < slots.len()
        invariant
            i <= slots@.len(),
            all == slot_views(slots@),
            slot_at(all, number as int, 0) == slot_at(all, number as int, i as int),
        decreases slots@.len() - i,
    {
        assert(all[i as int] == slots@[i as int]@);
        if slots[i].number == number {
            return Some(i);
        }
        i += 1;
    }
    None
}

/// Where an address lies.
enum FoundPdo {
    Comm(usize),
    Mapping(usize),
    Nowhere,
}

spec fn found_view(f: FoundPdo) -> PdoPlace {
    match f {
        FoundPdo::Comm(i) => PdoPlace::Comm(i as int),
        FoundPdo::Mapping(i) => PdoPlace::Mapping(i as int),
        FoundPdo::Nowhere => PdoPlace::Nowhere,
    }
}

/// The name and type of a communication parameter.
fn comm_param_of(direction: PdoDirection, subindex: u8) -> (r: Option<(&'static str, DataType)>)
    ensures
        match r {
            Some((n, t)) => comm_param(direction, subindex) == Some((n@, t)),
            None => comm_param(direction, subindex) is None,
        },
{
    if subindex == 0 {
        Some(("highest_subindex", DataType::U8))
    } else if subindex == 1 {
        Some(("cob_id", DataType::U32))
    } else if subindex == 2 {
        Some(("transmission_type", DataType::U8))
    } else if subindex == 3 && direction == PdoDirection::Tpdo {
        Some(("inhibit_time", DataType::U16))
    } else if subindex == 5 {
        Some(("event_timer", DataType::U16))
    } else {
        None
    }
}

fn find_pdo(direction: PdoDirection, slots: &Vec<PdoSlot>, index: u16, subindex: u8) -> (r: FoundPdo)
    ensures
        found_view(r) == pdo_place(direction, slot_views(slots@), index, subindex),
        match r {
            FoundPdo::Comm(i) => i < slots@.len(),
            FoundPdo::Mapping(i) => i < slots@.len() && subindex <= slots@[i as int]@.mappings.len(),
            FoundPdo::Nowhere => true,
        },
{
    let comm: u16 = match direction {
        PdoDirection::Tpdo => 0x1800,
        PdoDirection::Rpdo => 0x1400,
    };
    let map: u16 = comm + 0x200;
    if comm <= index && index < comm + 0x200 {
        match find_slot(slots, index - comm + 1) {
            Some(i) => if comm_param_of(direction, subindex).is_some() {
                FoundPdo::Comm(i)
            } else {
                FoundPdo::Nowhere
            },
            None => FoundPdo::Nowhere,
        }
    } else if map <= index && index < map + 0x200 {
        match find_slot(slots, index - map + 1) {
            Some(i) => {
                assert(slot_views(slots@)[i as int] == slots@[i as int]@);
                if subindex as usize <= slots[i].mappings.len() {
                    FoundPdo::Mapping(i)
                } else {
                    FoundPdo::Nowhere
                }
            },
            None => FoundPdo::Nowhere,
        }
    } else {
        FoundPdo::Nowhere
    }
}

// ---- Additional SDO servers ----

/// The parameters of an additional SDO server.
#[derive(Clone, Debug)]
pub struct ServerCell {
    pub def: SdoServerDef,
    /// Client to server. 0 = not resolved yet.
    pub cob_rx: u32,
    /// Server to client. 0 = not resolved yet.
    pub cob_tx: u32,
}

pub struct ServerCellView {
    pub def: SdoServerDef,
    pub cob_rx: u32,
    pub cob_tx: u32,
}

impl View for ServerCell {
    type V = ServerCellView;

    open spec fn view(&self) -> ServerCellView {
        ServerCellView { def: self.def, cob_rx: self.cob_rx, cob_tx: self.cob_tx }
    }
}

/// The COB-ID of an SDO channel on a node.
pub open spec fn resolved_cob(cob: CobIdSpec, node_id: NodeId) -> u16 {
    match cob {
        CobIdSpec::Absolute(id) => (id % 0x800) as u16,
        CobIdSpec::NodeRelative(base) => ((base + node_id.raw()) % 0x1_0000) as u16,
    }
}

/// Resolve the COB-ID of an SDO channel on a node.
pub fn resolve_cob(cob: CobIdSpec, node_id: NodeId) -> (r: u16)
    ensures
        r == resolved_cob(cob, node_id),
{
    match cob {
        CobIdSpec::Absolute(id) => (id % 0x800) as u16,
        CobIdSpec::NodeRelative(base) => ((base as u64 + node_id.raw() as u64) % 0x1_0000) as u16,
    }
}

impl ServerCellView {
    /// The value of a parameter.
    pub open spec fn value(self, subindex: u8) -> Seq<u8> {
        if subindex == 0 {
            seq![2u8]
        } else if subindex == 1 {
            u32_bytes(self.cob_rx)
        } else {
            u32_bytes(self.cob_tx)
        }
    }

    /// The parameters resolved for a node.
    pub open spec fn resolved(self, node_id: NodeId) -> ServerCellView {
        ServerCellView {
            cob_rx: resolved_cob(self.def.cob_rx, node_id) as u32,
            cob_tx: resolved_cob(self.def.cob_tx, node_id) as u32,
            ..self
        }
    }

    /// The description of a parameter.
    pub open spec fn meta(self, index: u16, subindex: u8) -> MetaView {
        MetaView {
            index,
            subindex,
            data_type: if subindex == 0 {
                DataType::U8
            } else {
                DataType::U32
            },
            access: AccessType::Const,
            pdo_mappable: false,
            name: if subindex == 0 {
                "highest_subindex"@
            } else if subindex == 1 {
                "cob_rx"@
            } else {
                "cob_tx"@
            },
            max_size: None,
        }
    }
}

impl ServerCell {
    fn bytes(&self, subindex: u8) -> (r: Vec<u8>)
        ensures
            r@ == self@.value(subindex),
    {
        if subindex == 0 {
            let v: Vec<u8> = vec![2u8];
            assert(v@ =~= seq![2u8]);
            v
        } else if subindex == 1 {
            to_vec(u32_to_le(self.cob_rx).as_slice())
        } else {
            to_vec(u32_to_le(self.cob_tx).as_slice())
        }
    }
}

/// What the parameters of the servers hold, one by one.
pub open spec fn server_views(servers: Seq<ServerCell>) -> Seq<ServerCellView> {
    servers.map_values(|s: ServerCell| s@)
}

/// The first server from `from` on whose record has an index: 0x1201 for
/// server 2, and so on.
pub open spec fn server_at(servers: Seq<ServerCellView>, index: u16, from: int) -> Option<int>
    decreases servers.len() - from,
{
    if from < 0 || from >= servers.len() {
        None
    } else if servers[from].def.number + 0x11FF == index {
        Some(from)
    } else {
        server_at(servers, index, from + 1)
    }
}

pub proof fn lemma_server_at(servers: Seq<ServerCellView>, index: u16, from: int)
    requires
        0 <= from,
    ensures
        server_at(servers, index, from) matches Some(i) ==> from <= i < servers.len()
            && servers[i].def.number + 0x11FF == index,
    decreases servers.len() - from,
{
    if from < servers.len() && servers[from].def.number + 0x11FF != index {
        lemma_server_at(servers, index, from + 1);
    }
}

fn find_server(servers: &Vec<ServerCell>, index: u16) -> (r: Option<usize>)
    ensures
        match r {
            Some(i) => i < servers@.len() && server_at(server_views(servers@), index, 0) == Some(
                i as int,
            ),
            None => server_at(server_views(servers@), index, 0) is None,
        },
{
    let ghost all = server_views(servers@);
    let mut i: usize = 0;
    while i < servers.len()
        invariant
            i <= servers@.len(),
            all == server_views(servers@),
            server_at(all, index, 0) == server_at(all, index, i as int),
        decreases servers@.len() - i,
    {
        assert(all[i as int] == servers@[i as int]@);
        if servers[i].def.number as u32 + 0x11FF == index as u32 {
            return Some(i);
        }
        i += 1;
    }
    None
}

// ---- The table ----

/// The description of an entry.
#[verifier::ext_equal]
pub struct MetaView {
    pub index: u16,
    pub subindex: u8,
    pub data_type: DataType,
    pub access: AccessType,
    pub pdo_mappable: bool,
    pub name: Seq<char>,
    pub max_size: Option<u16>,
}

/// What the description of an entry says.
pub open spec fn meta_view(m: OdEntryMeta) -> MetaView {
    MetaView {
        index: m.index,
        subindex: m.subindex,
        data_type: m.data_type,
        access: m.access,
        pdo_mappable: m.pdo_mappable,
        name: m.name@,
        max_size: m.max_size,
    }
}

/// What a computed value says.
pub open spec fn value_result(r: Result<Vec<u8>, OdError>) -> Result<Seq<u8>, OdError> {
    match r {
        Ok(v) => Ok(v@),
        Err(e) => Err(e),
    }
}

/// The object that holds the compressed EDS file of the dictionary.
pub const STORE_EDS: u16 = 0x1021;

/// The object that tells the format of the stored EDS file.
pub const STORE_FORMAT: u16 = 0x1022;

/// What a dictionary holds.
#[verifier::ext_equal]
pub struct TableView {
    pub cells: Seq<CellView>,
    pub arrays: Seq<ArrayCellView>,
    pub tpdos: Seq<SlotView>,
    pub rpdos: Seq<SlotView>,
    pub servers: Seq<ServerCellView>,
    /// The EDS file, compressed.
    pub eds: Seq<u8>,
}

impl TableView {
    /// The PDOs of a direction.
    pub open spec fn slots(self, direction: PdoDirection) -> Seq<SlotView> {
        match direction {
            PdoDirection::Tpdo => self.tpdos,
            PdoDirection::Rpdo => self.rpdos,
        }
    }

    /// The table with other PDOs of a direction.
    pub open spec fn with_slots(self, direction: PdoDirection, slots: Seq<SlotView>) -> TableView {
        match direction {
            PdoDirection::Tpdo => TableView { tpdos: slots, ..self },
            PdoDirection::Rpdo => TableView { rpdos: slots, ..self },
        }
    }

    /// The value of a PDO parameter, if there is one at an address.
    pub open spec fn pdo_value(self, direction: PdoDirection, index: u16, subindex: u8) -> Option<
        Seq<u8>,
    > {
        let slots = self.slots(direction);
        match pdo_place(direction, slots, index, subindex) {
            PdoPlace::Comm(i) => Some(slots[i].comm_value(subindex)),
            PdoPlace::Mapping(i) => Some(slots[i].map_value(subindex)),
            PdoPlace::Nowhere => None,
        }
    }

    /// The value at an address, as it is read over the bus.
    pub open spec fn value_of(self, index: u16, subindex: u8) -> Result<Seq<u8>, OdError> {
        if let Some(i) = cell_at(self.cells, index, subindex, 0) {
            self.cells[i].read()
        } else if let Some(i) = array_at(self.arrays, index, subindex, 0) {
            self.arrays[i].read(subindex)
        } else if let Some(v) = self.pdo_value(PdoDirection::Tpdo, index, subindex) {
            Ok(v)
        } else if let Some(v) = self.pdo_value(PdoDirection::Rpdo, index, subindex) {
            Ok(v)
        } else {
            self.fixed_value(index, subindex)
        }
    }

    /// The value of an object that only the device itself can change.
    pub open spec fn fixed_value(self, index: u16, subindex: u8) -> Result<Seq<u8>, OdError> {
        match server_at(self.servers, index, 0) {
            Some(i) if subindex <= 2 => Ok(self.servers[i].value(subindex)),
            _ => if index == STORE_EDS && subindex == 0 {
                Ok(self.eds)
            } else if index == STORE_FORMAT && subindex == 0 {
                Ok(seq![1u8])
            } else {
                Err(OdError::NotFound)
            },
        }
    }

    /// Whether a PDO parameter can be written, and the table after the write,
    /// if there is such a parameter at an address.
    pub open spec fn pdo_write(
        self,
        direction: PdoDirection,
        index: u16,
        subindex: u8,
        data: Seq<u8>,
    ) -> Option<(Result<(), OdError>, TableView)> {
        let slots = self.slots(direction);
        match pdo_place(direction, slots, index, subindex) {
            PdoPlace::Comm(i) => Some(
                (
                    slots[i].comm_write_result(subindex, data),
                    self.with_slots(direction, slots.update(i, slots[i].comm_written(subindex, data))),
                ),
            ),
            PdoPlace::Mapping(i) => Some(
                (
                    slots[i].map_write_result(subindex, data),
                    self.with_slots(direction, slots.update(i, slots[i].map_written(subindex, data))),
                ),
            ),
            PdoPlace::Nowhere => None,
        }
    }

    /// Whether data can be written at an address, and the table after the write.
    pub open spec fn write_at(self, index: u16, subindex: u8, data: Seq<u8>) -> (
        Result<(), OdError>,
        TableView,
    ) {
        if let Some(i) = cell_at(self.cells, index, subindex, 0) {
            (
                self.cells[i].write_result(data),
                TableView { cells: self.cells.update(i, self.cells[i].written(data)), ..self },
            )
        } else if let Some(i) = array_at(self.arrays, index, subindex, 0) {
            (
                self.arrays[i].write_result(subindex, data),
                TableView {
                    arrays: self.arrays.update(i, self.arrays[i].written(subindex, data)),
                    ..self
                },
            )
        } else if let Some(w) = self.pdo_write(PdoDirection::Tpdo, index, subindex, data) {
            w
        } else if let Some(w) = self.pdo_write(PdoDirection::Rpdo, index, subindex, data) {
            w
        } else if self.fixed_value(index, subindex) is Ok {
            (Err(OdError::ReadOnly), self)
        } else {
            (Err(OdError::NotFound), self)
        }
    }

    /// The description of a PDO parameter, if there is one at an address.
    pub open spec fn pdo_meta(self, direction: PdoDirection, index: u16, subindex: u8) -> Option<
        MetaView,
    > {
        let slots = self.slots(direction);
        match pdo_place(direction, slots, index, subindex) {
            PdoPlace::Comm(i) => Some(
                comm_meta(index, subindex, comm_param(direction, subindex)->0),
            ),
            PdoPlace::Mapping(i) => Some(slots[i].map_meta(index, subindex)),
            PdoPlace::Nowhere => None,
        }
    }

    /// The description of the entry at an address.
    pub open spec fn meta_of(self, index: u16, subindex: u8) -> Option<MetaView> {
        if let Some(i) = cell_at(self.cells, index, subindex, 0) {
            Some(self.cells[i].meta())
        } else if let Some(m) = self.pdo_meta(PdoDirection::Tpdo, index, subindex) {
            Some(m)
        } else if let Some(m) = self.pdo_meta(PdoDirection::Rpdo, index, subindex) {
            Some(m)
        } else if let Some(i) = array_at(self.arrays, index, subindex, 0) {
            Some(self.arrays[i].meta(subindex))
        } else {
            self.fixed_meta(index, subindex)
        }
    }

    /// The description of an object that only the device itself can change.
    pub open spec fn fixed_meta(self, index: u16, subindex: u8) -> Option<MetaView> {
        match server_at(self.servers, index, 0) {
            Some(i) if subindex <= 2 => Some(self.servers[i].meta(index, subindex)),
            _ => if index == STORE_EDS && subindex == 0 {
                Some(
                    MetaView {
                        index,
                        subindex,
                        data_type: DataType::Domain,
                        access: AccessType::Ro,
                        pdo_mappable: false,
                        name: "store_eds"@,
                        max_size: Some((self.eds.len() % 0x1_0000) as u16),
                    },
                )
            } else if index == STORE_FORMAT && subindex == 0 {
                Some(
                    MetaView {
                        index,
                        subindex,
                        data_type: DataType::U8,
                        access: AccessType::Ro,
                        pdo_mappable: false,
                        name: "store_format"@,
                        max_size: None,
                    },
                )
            } else {
                None
            },
        }
    }

    /// The highest subindex of the PDO parameter record with an index.
    pub open spec fn pdo_subs(self, direction: PdoDirection, index: u16) -> Option<u8> {
        let slots = self.slots(direction);
        match pdo_place(direction, slots, index, 0) {
            PdoPlace::Comm(i) => Some(5),
            PdoPlace::Mapping(i) => Some(slots[i].map_subs()),
            PdoPlace::Nowhere => None,
        }
    }
}

/// The highest subindex among the first `n` variables with an index.
pub open spec fn highest_sub(cells: Seq<CellView>, index: u16, n: int) -> Option<u8>
    decreases n,
{
    if n <= 0 || n > cells.len() {
        None
    } else {
        let front = highest_sub(cells, index, n - 1);
        let c = cells[n - 1];
        if c.index != index {
            front
        } else {
            match front {
                Some(s) if s >= c.subindex => Some(s),
                _ => Some(c.subindex),
            }
        }
    }
}

/// The number of elements of the last of the first `n` arrays with an index.
pub open spec fn last_count(arrays: Seq<ArrayCellView>, index: u16, n: int) -> Option<u8>
    decreases n,
{
    if n <= 0 || n > arrays.len() {
        None
    } else if arrays[n - 1].index == index {
        Some(arrays[n - 1].values.len() as u8)
    } else {
        last_count(arrays, index, n - 1)
    }
}

impl OdContents for TableView {
    open spec fn type_of(&self, index: u16, subindex: u8) -> Option<DataType> {
        match self.meta_of(index, subindex) {
            Some(m) => Some(m.data_type),
            None => None,
        }
    }

    open spec fn read_result(&self, index: u16, subindex: u8, capacity: nat) -> Result<
        Seq<u8>,
        OdError,
    > {
        match self.value_of(index, subindex) {
            Ok(v) => if v.len() <= capacity {
                Ok(v)
            } else {
                Err(OdError::ValueTooLong)
            },
            Err(e) => Err(e),
        }
    }

    open spec fn write_result(&self, index: u16, subindex: u8, data: Seq<u8>) -> Result<
        (),
        OdError,
    > {
        self.write_at(index, subindex, data).0
    }

    open spec fn after_write(&self, index: u16, subindex: u8, data: Seq<u8>) -> Self {
        self.write_at(index, subindex, data).1
    }

    open spec fn validate_result(&self, index: u16, subindex: u8, data: Seq<u8>) -> Result<
        (),
        OdError,
    > {
        Ok(())
    }

    open spec fn subs_of(&self, index: u16) -> Option<u8> {
        if let Some(n) = last_count(self.arrays, index, self.arrays.len() as int) {
            Some(n)
        } else if let Some(n) = self.pdo_subs(PdoDirection::Tpdo, index) {
            Some(n)
        } else if let Some(n) = self.pdo_subs(PdoDirection::Rpdo, index) {
            Some(n)
        } else if server_at(self.servers, index, 0) is Some {
            Some(2)
        } else {
            highest_sub(self.cells, index, self.cells.len() as int)
        }
    }

    open spec fn after_store_sdo_cob_ids(&self, node_id: NodeId) -> Self {
        TableView {
            servers: self.servers.map_values(|s: ServerCellView| s.resolved(node_id)),
            ..*self
        }
    }
}

/// The dictionary that a definition describes.
#[derive(Clone, Debug)]
pub struct Table {
    pub cells: Vec<Cell>,
    pub arrays: Vec<ArrayCell>,
    pub tpdos: Vec<PdoSlot>,
    pub rpdos: Vec<PdoSlot>,
    pub servers: Vec<ServerCell>,
    pub eds: Vec<u8>,
}

impl View for Table {
    type V = TableView;

    open spec fn view(&self) -> TableView {
        TableView {
            cells: cell_views(self.cells@),
            arrays: array_views(self.arrays@),
            tpdos: slot_views(self.tpdos@),
            rpdos: slot_views(self.rpdos@),
            servers: server_views(self.servers@),
            eds: self.eds@,
        }
    }
}

/// Copy a value to the front of a buffer that is large enough.
fn put(value: &[u8], buf: &mut [u8]) -> (r: Result<usize, OdError>)
    ensures
        final(buf)@.len() == old(buf)@.len(),
        match r {
            Ok(n) => {
                &&& n == value@.len()
                &&& n <= old(buf)@.len()
                &&& final(buf)@.take(n as int) == value@
                &&& final(buf)@.skip(n as int) == old(buf)@.skip(n as int)
            },
            Err(e) => e == OdError::ValueTooLong && value@.len() > old(buf)@.len(),
        },
{
    let n: usize = value.len();
    let size: usize = buf.len();
    if n > size {
        return Err(OdError::ValueTooLong);
    }
    let mut i: usize = 0;
    while i < n
        invariant
            i <= n <= size,
            n == value@.len(),
            buf@.len() == size,
            old(buf)@.len() == size,
            forall|j: int| 0 <= j < i ==> buf@[j] == value@[j],
            forall|j: int| n <= j < size ==> buf@[j] == old(buf)@[j],
        decreases n - i,
    {
        buf[i] = value[i];
        i += 1;
    }
    assert(buf@.take(n as int) =~= value@);
    assert(buf@.skip(n as int) =~= old(buf)@.skip(n as int));
    Ok(n)
}

impl Table {
    fn find_cell(&self, index: u16, subindex: u8) -> (r: Option<usize>)
        ensures
            match r {
                Some(i) => i < self.cells@.len() && cell_at(self@.cells, index, subindex, 0) == Some(
                    i as int,
                ),
                None => cell_at(self@.cells, index, subindex, 0) is None,
            },
    {
        let ghost all = self@.cells;
        let mut i: usize = 0;
        while i < self.cells.len()
            invariant
                i <= self.cells@.len(),
                all == cell_views(self.cells@),
                cell_at(all, index, subindex, 0) == cell_at(all, index, subindex, i as int),
            decreases self.cells@.len() - i,
        {
            assert(all[i as int] == self.cells@[i as int]@);
            if self.cells[i].index == index && self.cells[i].subindex == subindex {
                return Some(i);
            }
            i += 1;
        }
        None
    }

    fn find_array(&self, index: u16, subindex: u8) -> (r: Option<usize>)
        ensures
            match r {
                Some(i) => {
                    &&& i < self.arrays@.len()
                    &&& subindex <= self.arrays@[i as int]@.values.len()
                    &&& array_at(self@.arrays, index, subindex, 0) == Some(i as int)
                },
                None => array_at(self@.arrays, index, subindex, 0) is None,
            },
    {
        let ghost all = self@.arrays;
        let mut i: usize = 0;
        while i < self.arrays.len()
            invariant
                i <= self.arrays@.len(),
                all == array_views(self.arrays@),
                array_at(all, index, subindex, 0) == array_at(all, index, subindex, i as int),
            decreases self.arrays@.len() - i,
        {
            assert(all[i as int] == self.arrays@[i as int]@);
            if self.arrays[i].index == index && subindex as usize <= self.arrays[i].values.len() {
                return Some(i);
            }
            i += 1;
        }
        None
    }

    fn pdo_bytes(&self, direction: PdoDirection, index: u16, subindex: u8) -> (r: Option<Vec<u8>>)
        ensures
            match r {
                Some(v) => self@.pdo_value(direction, index, subindex) == Some(v@),
                None => self@.pdo_value(direction, index, subindex) is None,
            },
    {
        let slots = match direction {
            PdoDirection::Tpdo => &self.tpdos,
            PdoDirection::Rpdo => &self.rpdos,
        };
        assert(slot_views(slots@) == self@.slots(direction));
        match find_pdo(direction, slots, index, subindex) {
            FoundPdo::Comm(i) => {
                assert(slot_views(slots@)[i as int] == slots@[i as int]@);
                Some(slots[i].comm_bytes(subindex))
            },
            FoundPdo::Mapping(i) => {
                assert(slot_views(slots@)[i as int] == slots@[i as int]@);
                Some(slots[i].map_bytes(subindex))
            },
            FoundPdo::Nowhere => None,
        }
    }

    fn fixed_bytes(&self, index: u16, subindex: u8) -> (r: Result<Vec<u8>, OdError>)
        ensures
            value_result(r) == self@.fixed_value(index, subindex),
    {
        if subindex <= 2 {
            if let Some(i) = find_server(&self.servers, index) {
                assert(self@.servers[i as int] == self.servers@[i as int]@);
                return Ok(self.servers[i].bytes(subindex));
            }
        }
        if index == STORE_EDS && subindex == 0 {
            Ok(to_vec(self.eds.as_slice()))
        } else if index == STORE_FORMAT && subindex == 0 {
            let v: Vec<u8> = vec![1u8];
            assert(v@ =~= seq![1u8]);
            Ok(v)
        } else {
            Err(OdError::NotFound)
        }
    }

    fn value(&self, index: u16, subindex: u8) -> (r: Result<Vec<u8>, OdError>)
        ensures
            value_result(r) == self@.value_of(index, subindex),
    {
        if let Some(i) = self.find_cell(index, subindex) {
            assert(self@.cells[i as int] == self.cells@[i as int]@);
            if let AccessType::Wo = self.cells[i].access {
                return Err(OdError::WriteOnly);
            }
            return Ok(to_vec(self.cells[i].value.as_slice()));
        }
        if let Some(i) = self.find_array(index, subindex) {
            assert(self@.arrays[i as int] == self.arrays@[i as int]@);
            return self.arrays[i].read(subindex);
        }
        if let Some(v) = self.pdo_bytes(PdoDirection::Tpdo, index, subindex) {
            return Ok(v);
        }
        if let Some(v) = self.pdo_bytes(PdoDirection::Rpdo, index, subindex) {
            return Ok(v);
        }
        self.fixed_bytes(index, subindex)
    }

    fn write_pdo(&mut self, direction: PdoDirection, index: u16, subindex: u8, data: &[u8]) -> (r:
        Option<Result<(), OdError>>)
        ensures
            match r {
                Some(result) => old(self)@.pdo_write(direction, index, subindex, data@) == Some(
                    (result, final(self)@),
                ),
                None => old(self)@.pdo_write(direction, index, subindex, data@) is None
                    && final(self)@ == old(self)@,
            },
    {
        let ghost before = self@;
        let mut slots: Vec<PdoSlot> = Vec::new();
        match direction {
            PdoDirection::Tpdo => {
                std::mem::swap(&mut slots, &mut self.tpdos);
            },
            PdoDirection::Rpdo => {
                std::mem::swap(&mut slots, &mut self.rpdos);
            },
        }
        let ghost views = slot_views(slots@);
        assert(views == before.slots(direction));
        let r = match find_pdo(direction, &slots, index, subindex) {
            FoundPdo::Comm(i) => {
                assert(views[i as int] == slots@[i as int]@);
                let result = slots[i].write_comm(subindex, data);
                assert(slot_views(slots@) =~= views.update(
                    i as int,
                    views[i as int].comm_written(subindex, data@),
                ));
                Some(result)
            },
            FoundPdo::Mapping(i) => {
                assert(views[i as int] == slots@[i as int]@);
                let result = slots[i].write_map(subindex, data);
                assert(slot_views(slots@) =~= views.update(
                    i as int,
                    views[i as int].map_written(subindex, data@),
                ));
                Some(result)
            },
            FoundPdo::Nowhere => None,
        };
        match direction {
            PdoDirection::Tpdo => {
                self.tpdos = slots;
            },
            PdoDirection::Rpdo => {
                self.rpdos = slots;
            },
        }
        assert(self@ =~= before.with_slots(direction, slot_views(slots@)));
        assert(before.with_slots(direction, views) =~= before);
        r
    }

    fn pdo_meta_of(&self, direction: PdoDirection, index: u16, subindex: u8) -> (r: Option<
        OdEntryMeta,
    >)
        ensures
            match r {
                Some(m) => self@.pdo_meta(direction, index, subindex) == Some(meta_view(m)),
                None => self@.pdo_meta(direction, index, subindex) is None,
            },
    {
        let slots = match direction {
            PdoDirection::Tpdo => &self.tpdos,
            PdoDirection::Rpdo => &self.rpdos,
        };
        assert(slot_views(slots@) == self@.slots(direction));
        match find_pdo(direction, slots, index, subindex) {
            FoundPdo::Comm(_) => match comm_param_of(direction, subindex) {
                Some((name, data_type)) => Some(
                    OdEntryMeta {
                        index,
                        subindex,
                        data_type,
                        access: if subindex == 0 {
                            AccessType::Ro
                        } else {
                            AccessType::Rw
                        },
                        pdo_mappable: false,
                        name: name.to_string(),
                        max_size: None,
                    },
                ),
                None => None,
            },
            FoundPdo::Mapping(i) => {
                assert(slot_views(slots@)[i as int] == slots@[i as int]@);
                Some(
                    OdEntryMeta {
                        index,
                        subindex,
                        data_type: if subindex == 0 {
                            DataType::U8
                        } else {
                            DataType::U32
                        },
                        access: match slots[i].mapping {
                            MappingKind::Mutable => AccessType::Rw,
                            MappingKind::Immutable => AccessType::Const,
                        },
                        pdo_mappable: false,
                        name: if subindex == 0 {
                            "mapping_count".to_string()
                        } else {
                            "mapping_entry".to_string()
                        },
                        max_size: None,
                    },
                )
            },
            FoundPdo::Nowhere => None,
        }
    }

    fn fixed_meta_of(&self, index: u16, subindex: u8) -> (r: Option<OdEntryMeta>)
        ensures
            match r {
                Some(m) => self@.fixed_meta(index, subindex) == Some(meta_view(m)),
                None => self@.fixed_meta(index, subindex) is None,
            },
    {
        if subindex <= 2 {
            if let Some(i) = find_server(&self.servers, index) {
                assert(self@.servers[i as int] == self.servers@[i as int]@);
                return Some(
                    OdEntryMeta {
                        index,
                        subindex,
                        data_type: if subindex == 0 {
                            DataType::U8
                        } else {
                            DataType::U32
                        },
                        access: AccessType::Const,
                        pdo_mappable: false,
                        name: if subindex == 0 {
                            "highest_subindex".to_string()
                        } else if subindex == 1 {
                            "cob_rx".to_string()
                        } else {
                            "cob_tx".to_string()
                        },
                        max_size: None,
                    },
                );
            }
        }
        if index == STORE_EDS && subindex == 0 {
            Some(
                OdEntryMeta {
                    index,
                    subindex,
                    data_type: DataType::Domain,
                    access: AccessType::Ro,
                    pdo_mappable: false,
                    name: "store_eds".to_string(),
                    max_size: Some((self.eds.len() % 0x1_0000) as u16),
                },
            )
        } else if index == STORE_FORMAT && subindex == 0 {
            Some(
                OdEntryMeta {
                    index,
                    subindex,
                    data_type: DataType::U8,
                    access: AccessType::Ro,
                    pdo_mappable: false,
                    name: "store_format".to_string(),
                    max_size: None,
                },
            )
        } else {
            None
        }
    }

    fn pdo_subs_of(&self, direction: PdoDirection, index: u16) -> (r: Option<u8>)
        ensures
            r == self@.pdo_subs(direction, index),
    {
        let slots = match direction {
            PdoDirection::Tpdo => &self.tpdos,
            PdoDirection::Rpdo => &self.rpdos,
        };
        assert(slot_views(slots@) == self@.slots(direction));
        match find_pdo(direction, slots, index, 0) {
            FoundPdo::Comm(_) => Some(5),
            FoundPdo::Mapping(i) => {
                assert(slot_views(slots@)[i as int] == slots@[i as int]@);
                if slots[i].declared_count > 0 {
                    Some(slots[i].declared_count)
                } else {
                    #[verifier::truncate]
                    let n: u8 = slots[i].mappings.len() as u8;
                    Some(n)
                }
            },
            FoundPdo::Nowhere => None,
        }
    }
}

impl ObjectDictionary for Table {
    type Contents = TableView;

    open spec fn contents(&self) -> TableView {
        self@
    }

    fn lookup(&self, index: u16, subindex: u8) -> (r: Option<OdEntryMeta>)
        ensures
            match r {
                Some(m) => self@.meta_of(index, subindex) == Some(meta_view(m)),
                None => self@.meta_of(index, subindex) is None,
            },
    {
        if let Some(i) = self.find_cell(index, subindex) {
            proof {
                lemma_cell_at(self@.cells, index, subindex, 0);
            }
            assert(self@.cells[i as int] == self.cells@[i as int]@);
            let c = &self.cells[i];
            return Some(
                OdEntryMeta {
                    index: c.index,
                    subindex: c.subindex,
                    data_type: c.data_type,
                    access: c.access,
                    pdo_mappable: c.pdo_mappable,
                    name: c.name.clone(),
                    max_size: c.max_size,
                },
            );
        }
        if let Some(m) = self.pdo_meta_of(PdoDirection::Tpdo, index, subindex) {
            return Some(m);
        }
        if let Some(m) = self.pdo_meta_of(PdoDirection::Rpdo, index, subindex) {
            return Some(m);
        }
        if let Some(i) = self.find_array(index, subindex) {
            proof {
                lemma_array_at(self@.arrays, index, subindex, 0);
            }
            assert(self@.arrays[i as int] == self.arrays@[i as int]@);
            let a = &self.arrays[i];
            return if subindex == 0 {
                Some(
                    OdEntryMeta {
                        index: a.index,
                        subindex: 0,
                        data_type: DataType::U8,
                        access: AccessType::Ro,
                        pdo_mappable: false,
                        name: "number_of_entries".to_string(),
                        max_size: None,
                    },
                )
            } else {
                Some(
                    OdEntryMeta {
                        index: a.index,
                        subindex,
                        data_type: a.data_type,
                        access: a.access,
                        pdo_mappable: a.pdo_mappable,
                        name: a.name.clone(),
                        max_size: None,
                    },
                )
            };
        }
        self.fixed_meta_of(index, subindex)
    }

    fn read(&self, index: u16, subindex: u8, buf: &mut [u8]) -> (r: Result<usize, OdError>) {
        match self.value(index, subindex) {
            Ok(v) => put(v.as_slice(), buf),
            Err(e) => Err(e),
        }
    }

    fn write(&mut self, index: u16, subindex: u8, data: &[u8]) -> (r: Result<(), OdError>) {
        let ghost before = self@;
        if let Some(i) = self.find_cell(index, subindex) {
            assert(before.cells[i as int] == self.cells@[i as int]@);
            let r = self.cells[i].write(data);
            assert(self@.cells =~= before.cells.update(
                i as int,
                before.cells[i as int].written(data@),
            ));
            return r;
        }
        if let Some(i) = self.find_array(index, subindex) {
            assert(before.arrays[i as int] == self.arrays@[i as int]@);
            let r = self.arrays[i].write(subindex, data);
            assert(self@.arrays =~= before.arrays.update(
                i as int,
                before.arrays[i as int].written(subindex, data@),
            ));
            return r;
        }
        if let Some(r) = self.write_pdo(PdoDirection::Tpdo, index, subindex, data) {
            return r;
        }
        if let Some(r) = self.write_pdo(PdoDirection::Rpdo, index, subindex, data) {
            return r;
        }
        match self.fixed_bytes(index, subindex) {
            Ok(_) => Err(OdError::ReadOnly),
            Err(_) => Err(OdError::NotFound),
        }
    }

    fn validate_write(&self, index: u16, subindex: u8, data: &[u8]) -> (r: Result<(), OdError>) {
        Ok(())
    }

    fn sub_count(&self, index: u16) -> (r: Option<u8>) {
        let ghost arrays = self@.arrays;
        let mut n: usize = self.arrays.len();
        while n > 0
            invariant
                n <= self.arrays@.len(),
                arrays == self@.arrays,
                arrays == array_views(self.arrays@),
                last_count(arrays, index, arrays.len() as int) == last_count(
                    arrays,
                    index,
                    n as int,
                ),
            decreases n,
        {
            assert(arrays[n - 1] == self.arrays@[n - 1]@);
            if self.arrays[n - 1].index == index {
                #[verifier::truncate]
                let count: u8 = self.arrays[n - 1].values.len() as u8;
                return Some(count);
            }
            n -= 1;
        }
        if let Some(n) = self.pdo_subs_of(PdoDirection::Tpdo, index) {
            return Some(n);
        }
        if let Some(n) = self.pdo_subs_of(PdoDirection::Rpdo, index) {
            return Some(n);
        }
        if find_server(&self.servers, index).is_some() {
            return Some(2);
        }
        let ghost cells = self@.cells;
        let mut highest: Option<u8> = None;
        let mut i: usize = 0;
        while i < self.cells.len()
            invariant
                i <= self.cells@.len(),
                cells == cell_views(self.cells@),
                highest == highest_sub(cells, index, i as int),
            decreases self.cells@.len() - i,
        {
            assert(cells[i as int] == self.cells@[i as int]@);
            if self.cells[i].index == index {
                let sub: u8 = self.cells[i].subindex;
                highest = match highest {
                    Some(s) => if s >= sub {
                        Some(s)
                    } else {
                        Some(sub)
                    },
                    None => Some(sub),
                };
            }
            i += 1;
        }
        highest
    }

    fn store_sdo_server_cob_ids(&mut self, node_id: NodeId) {
        let ghost before = self@;
        let ghost goal = before.servers.map_values(|s: ServerCellView| s.resolved(node_id));
        let mut i: usize = 0;
        while i < self.servers.len()
            invariant
                i <= self.servers@.len(),
                self.servers@.len() == before.servers.len(),
                goal == before.servers.map_values(|s: ServerCellView| s.resolved(node_id)),
                self@ == (TableView { servers: self@.servers, ..before }),
                forall|j: int| 0 <= j < i ==> self@.servers[j] == goal[j],
                forall|j: int| i <= j < before.servers.len() ==> self@.servers[j] == before.servers[j],
            decreases self.servers@.len() - i,
        {
            let ghost so_far = self@.servers;
            assert(so_far[i as int] == self.servers@[i as int]@);
            let def = self.servers[i].def;
            let cell = ServerCell {
                def,
                cob_rx: resolve_cob(def.cob_rx, node_id) as u32,
                cob_tx: resolve_cob(def.cob_tx, node_id) as u32,
            };
            self.servers.set(i, cell);
            assert(self@.servers =~= so_far.update(i as int, goal[i as int]));
            i += 1;
        }
        assert(self@.servers =~= goal);
    }
}

} // verus!
