//! What the dictionary of a definition holds, and at which addresses.

use crate::bytes::{le_u16, le_u32, lemma_u16_bytes_roundtrip, lemma_u32_bytes_roundtrip};
use crate::cobid::NodeId;
use crate::datatypes::DataType;
use crate::dictionary::codegen::{
    array_of, cells_of, cob_in_use, server_cobs_ok, server_number_ok, servers_fault, slot_of,
    slots_of,
};
use crate::dictionary::definition::{
    data_type_of, AccessKind, CobIdSpec, MappingKind, PdoDefView, PdoDirection, SdoServerDef,
};
use crate::dictionary::device::{writable_array, writable_cell};
use crate::dictionary::literal::literal_bytes;
use crate::dictionary::mapping::{mapped_objects, ErrorView, FlatView};
use crate::dictionary::names::camel_case;
use crate::dictionary::sdo_client_codegen::{
    read_type, var_methods, write_type, ClientAccess, ClientSub, ClientType,
};
use crate::dictionary::table::{
    cell_at, comm_meta, comm_param, highest_sub, last_count, server_at, slot_at, ArrayCellView,
    CellView, ServerCellView, SlotView, TableView,
};
use crate::od::{AccessType, OdContents, OdError};
use crate::pdo::config::PdoMapping;
use vstd::prelude::*;

verus! {

// ---- Variables ----

/// The access that the dictionary grants to an entry.
pub open spec fn granted(access: AccessKind) -> AccessType {
    match access {
        AccessKind::Ro => AccessType::Ro,
        AccessKind::Rw => AccessType::Rw,
        AccessKind::Wo => AccessType::Wo,
        AccessKind::Const => AccessType::Const,
    }
}

/// The dictionary of a definition has a cell for each variable, in order: at
/// its address, of its type, with its access. A number starts with its default,
/// or with zero.
pub proof fn lemma_cells_of_variables(flat: Seq<FlatView>, use_alloc: bool, n: int)
    requires
        0 <= n <= flat.len(),
        cells_of(flat, use_alloc, n) is Ok,
    ensures
        ({
            let cells = cells_of(flat, use_alloc, n)->Ok_0;
            &&& cells.len() == n
            &&& forall|i: int|
                0 <= i < n ==> {
                    let c = #[trigger] cells[i];
                    let f = flat[i];
                    &&& c.index == f.index
                    &&& c.subindex == f.subindex
                    &&& c.name == f.name
                    &&& data_type_of(f.var.ty) == Some(c.data_type)
                    &&& c.access == granted(f.var.access)
                    &&& c.pdo_mappable == f.var.pdo_mappable
                    &&& c.data_type.spec_size() matches Some(size) ==> {
                        &&& f.var.default_value matches Some(text) ==> Some(c.value)
                            == literal_bytes(c.data_type, text, f.var.real_bits)
                        &&& f.var.default_value is None ==> c.value.len() == size && forall|k: int|
                            0 <= k < size ==> (#[trigger] c.value[k]) == 0
                    }
                    &&& c.data_type.spec_size() is None && !use_alloc ==> c.capacity
                        == f.var.capacity && c.capacity is Some
                    &&& c.data_type.spec_size() is Some ==> c.capacity is None
                }
        }),
    decreases n,
{
    if n > 0 {
        lemma_cells_of_variables(flat, use_alloc, n - 1);
        let front = cells_of(flat, use_alloc, n - 1)->Ok_0;
        let cells = cells_of(flat, use_alloc, n)->Ok_0;
        assert forall|i: int| 0 <= i < n - 1 implies (#[trigger] cells[i]) == front[i] by {}
    }
}

/// What a cell holds can be read, unless it is write-only; it can be written if
/// it is read-write or write-only, by a value of its type: a number has the size
/// of its type, and a string no more bytes than there is room for.
pub proof fn lemma_cell_access(c: CellView, data: Seq<u8>)
    ensures
        c.access != AccessType::Wo ==> c.read() == Ok::<Seq<u8>, OdError>(c.value),
        c.access == AccessType::Wo ==> c.read() == Err::<Seq<u8>, OdError>(OdError::WriteOnly),
        c.access == AccessType::Ro || c.access == AccessType::Const ==> c.write_result(data)
            == Err::<(), OdError>(OdError::ReadOnly) && c.written(data) == c,
        c.access == AccessType::Rw || c.access == AccessType::Wo ==> match c.data_type.spec_size() {
            Some(size) => {
                &&& data.len() == size ==> c.write_result(data) is Ok
                &&& data.len() != size ==> c.write_result(data) == Err::<(), OdError>(
                    OdError::DataTypeMismatch,
                ) && c.written(data) == c
                &&& data.len() == size && c.data_type != DataType::Boolean ==> c.written(
                    data,
                ).value == data
                &&& data.len() == size && c.data_type == DataType::Boolean ==> c.written(data).value
                    == seq![
                    if data[0] == 0 {
                        0u8
                    } else {
                        1u8
                    },
                ]
            },
            None => {
                &&& c.data_type != DataType::VisibleString && (c.capacity matches Some(n) ==> data.len()
                    <= n) ==> c.write_result(data) is Ok && c.written(data).value == data
                &&& c.data_type != DataType::VisibleString && (c.capacity matches Some(n)
                    && data.len() > n) ==> c.write_result(data) == Err::<(), OdError>(
                    OdError::ValueTooLong,
                )
            },
        },
{
}

/// The value of a cell that no cell before it has the address of is what a read
/// of its address yields, as far as the buffer is large enough.
pub proof fn lemma_cell_is_read(t: TableView, i: int, capacity: nat)
    requires
        0 <= i < t.cells.len(),
        forall|j: int|
            0 <= j < i ==> (#[trigger] t.cells[j]).index != t.cells[i].index || t.cells[j].subindex
                != t.cells[i].subindex,
        t.cells[i].access != AccessType::Wo,
    ensures
        t.cells[i].value.len() <= capacity ==> t.read_result(
            t.cells[i].index,
            t.cells[i].subindex,
            capacity,
        ) == Ok::<Seq<u8>, OdError>(t.cells[i].value),
        t.cells[i].value.len() > capacity ==> t.read_result(
            t.cells[i].index,
            t.cells[i].subindex,
            capacity,
        ) == Err::<Seq<u8>, OdError>(OdError::ValueTooLong),
        t.type_of(t.cells[i].index, t.cells[i].subindex) == Some(t.cells[i].data_type),
{
    lemma_first_cell(t.cells, i, 0);
}

proof fn lemma_first_cell(cells: Seq<CellView>, i: int, from: int)
    requires
        0 <= from <= i < cells.len(),
        forall|j: int|
            0 <= j < i ==> (#[trigger] cells[j]).index != cells[i].index || cells[j].subindex
                != cells[i].subindex,
    ensures
        cell_at(cells, cells[i].index, cells[i].subindex, from) == Some(i),
    decreases i - from,
{
    if from < i {
        assert(cells[from].index != cells[i].index || cells[from].subindex != cells[i].subindex);
        lemma_first_cell(cells, i, from + 1);
    }
}

/// An array has as many elements as are declared, at most 255, each zero at
/// first. Its subindex 0 holds their number, and cannot be written.
pub proof fn lemma_array(index: u16, name: Seq<char>, a: crate::dictionary::definition::ArrayView)
    requires
        array_of(index, name, a) is Ok,
        a.count <= 255,
    ensures
        ({
            let cell = array_of(index, name, a)->Ok_0;
            &&& cell.index == index
            &&& cell.access == granted(a.access)
            &&& cell.values.len() == a.count
            &&& cell.read(0) == Ok::<Seq<u8>, OdError>(seq![a.count as u8])
            &&& forall|data: Seq<u8>|
                #[trigger] cell.write_result(0, data) == Err::<(), OdError>(OdError::ReadOnly)
            &&& forall|k: int|
                0 <= k < a.count ==> (#[trigger] cell.values[k]).len()
                    == cell.data_type.spec_size()->0
            &&& forall|k: int, b: int|
                0 <= k < a.count && 0 <= b < cell.values[k].len() ==> #[trigger] cell.values[k][b]
                    == 0
        }),
{
}

// ---- PDO parameters ----

/// The first slot of a list that has a number.
pub open spec fn first_with_number(slots: Seq<SlotView>, i: int) -> bool {
    0 <= i < slots.len() && forall|j: int|
        0 <= j < i ==> (#[trigger] slots[j]).number != slots[i].number
}

proof fn lemma_first_slot(slots: Seq<SlotView>, i: int, from: int)
    requires
        first_with_number(slots, i),
        0 <= from <= i,
    ensures
        slot_at(slots, slots[i].number as int, from) == Some(i),
    decreases i - from,
{
    if from < i {
        assert(slots[from].number != slots[i].number);
        lemma_first_slot(slots, i, from + 1);
    }
}

/// The parameters of transmit PDO n are at 0x17FF + n and 0x19FF + n: the
/// COB-ID at subindex 1, the transmission type at 2, the inhibit time at 3, the
/// event timer at 5; the number of mapped objects and the objects.
pub proof fn lemma_tpdo_parameters(t: TableView, i: int)
    requires
        first_with_number(t.tpdos, i),
        1 <= t.tpdos[i].number <= 512,
        t.tpdos[i].mappings.len() <= 64,
    ensures
        ({
            let s = t.tpdos[i];
            let comm = (0x17FF + s.number) as u16;
            let map = (0x19FF + s.number) as u16;
            &&& t.pdo_value(PdoDirection::Tpdo, comm, 0) == Some(seq![5u8])
            &&& t.pdo_value(PdoDirection::Tpdo, comm, 1) matches Some(v) && v.len() == 4 && le_u32(v)
                == s.cob_id
            &&& t.pdo_value(PdoDirection::Tpdo, comm, 2) == Some(seq![s.transmission_type])
            &&& t.pdo_value(PdoDirection::Tpdo, comm, 3) matches Some(v) && v.len() == 2 && le_u16(v)
                == s.inhibit_time
            &&& t.pdo_value(PdoDirection::Tpdo, comm, 4) is None
            &&& t.pdo_value(PdoDirection::Tpdo, comm, 5) matches Some(v) && v.len() == 2 && le_u16(v)
                == s.event_timer
            &&& t.pdo_value(PdoDirection::Tpdo, map, 0) == Some(seq![s.mapping_count])
            &&& forall|k: u8|
                1 <= k <= s.mappings.len() ==> ((#[trigger] t.pdo_value(
                    PdoDirection::Tpdo,
                    map,
                    k,
                )) matches Some(v) && v.len() == 4 && le_u32(v) == s.mappings[k - 1])
        }),
{
    let s = t.tpdos[i];
    lemma_first_slot(t.tpdos, i, 0);
    lemma_u32_bytes_roundtrip(s.cob_id, crate::bytes::u32_bytes(s.cob_id));
    lemma_u16_bytes_roundtrip(s.inhibit_time, crate::bytes::u16_bytes(s.inhibit_time));
    lemma_u16_bytes_roundtrip(s.event_timer, crate::bytes::u16_bytes(s.event_timer));
    let map = (0x19FF + s.number) as u16;
    assert forall|k: u8| 1 <= k <= s.mappings.len() implies ((#[trigger] t.pdo_value(
        PdoDirection::Tpdo,
        map,
        k,
    )) matches Some(v) && v.len() == 4 && le_u32(v) == s.mappings[k - 1]) by {
        let m = s.mappings[k - 1];
        lemma_u32_bytes_roundtrip(m, crate::bytes::u32_bytes(m));
    }
}

/// The parameters of receive PDO n are at 0x13FF + n and 0x15FF + n; there is
/// no inhibit time.
pub proof fn lemma_rpdo_parameters(t: TableView, i: int)
    requires
        first_with_number(t.rpdos, i),
        1 <= t.rpdos[i].number <= 512,
        t.rpdos[i].mappings.len() <= 64,
    ensures
        ({
            let s = t.rpdos[i];
            let comm = (0x13FF + s.number) as u16;
            let map = (0x15FF + s.number) as u16;
            &&& t.pdo_value(PdoDirection::Rpdo, comm, 0) == Some(seq![5u8])
            &&& t.pdo_value(PdoDirection::Rpdo, comm, 1) matches Some(v) && v.len() == 4 && le_u32(v)
                == s.cob_id
            &&& t.pdo_value(PdoDirection::Rpdo, comm, 2) == Some(seq![s.transmission_type])
            &&& t.pdo_value(PdoDirection::Rpdo, comm, 3) is None
            &&& t.pdo_value(PdoDirection::Rpdo, comm, 5) matches Some(v) && v.len() == 2 && le_u16(v)
                == s.event_timer
            &&& t.pdo_value(PdoDirection::Rpdo, map, 0) == Some(seq![s.mapping_count])
            &&& forall|k: u8|
                1 <= k <= s.mappings.len() ==> ((#[trigger] t.pdo_value(
                    PdoDirection::Rpdo,
                    map,
                    k,
                )) matches Some(v) && v.len() == 4 && le_u32(v) == s.mappings[k - 1])
        }),
{
    let s = t.rpdos[i];
    lemma_first_slot(t.rpdos, i, 0);
    lemma_u32_bytes_roundtrip(s.cob_id, crate::bytes::u32_bytes(s.cob_id));
    lemma_u16_bytes_roundtrip(s.event_timer, crate::bytes::u16_bytes(s.event_timer));
    let map = (0x15FF + s.number) as u16;
    assert forall|k: u8| 1 <= k <= s.mappings.len() implies ((#[trigger] t.pdo_value(
        PdoDirection::Rpdo,
        map,
        k,
    )) matches Some(v) && v.len() == 4 && le_u32(v) == s.mappings[k - 1]) by {
        let m = s.mappings[k - 1];
        lemma_u32_bytes_roundtrip(m, crate::bytes::u32_bytes(m));
    }
}

/// A communication parameter of a PDO that is written is what is read
/// afterwards, and the others stay. The number of parameters cannot be written.
pub proof fn lemma_comm_write_then_read(s: SlotView, sub: u8, data: Seq<u8>, other: u8)
    requires
        sub == 1 || sub == 2 || sub == 3 || sub == 5,
        other != sub,
        other == 0 || other == 1 || other == 2 || other == 3 || other == 5,
    ensures
        s.comm_write_result(sub, data) is Ok <==> data.len() == (if sub == 1 {
            4int
        } else if sub == 2 {
            1
        } else {
            2
        }),
        s.comm_write_result(sub, data) is Ok ==> s.comm_written(sub, data).comm_value(sub) == data,
        s.comm_write_result(sub, data) is Err ==> s.comm_written(sub, data) == s,
        s.comm_written(sub, data).comm_value(other) == s.comm_value(other),
        s.comm_write_result(0, data) == Err::<(), OdError>(OdError::ReadOnly),
        s.comm_written(sub, data).mappings == s.mappings,
        s.comm_written(sub, data).number == s.number,
{
    if data.len() == 4 {
        lemma_u32_bytes_roundtrip(le_u32(data), data);
    }
    if data.len() == 2 {
        lemma_u16_bytes_roundtrip(le_u16(data), data);
    }
    if s.comm_write_result(sub, data) is Ok {
        assert(s.comm_written(sub, data).comm_value(sub) =~= data);
    }
}

/// The mapping of a PDO can be changed while no object is mapped: an entry that
/// is written is what is read afterwards. Then the number of mapped objects may
/// be set, if together they have no more than 64 bits.
pub proof fn lemma_map_write_then_read(s: SlotView, sub: u8, data: Seq<u8>, count: u8)
    requires
        s.mapping == MappingKind::Mutable,
        s.mappings.len() == 64,
        1 <= sub <= 64,
        data.len() == 4,
    ensures
        s.mapping_count == 0 && data[0] <= 64 ==> {
            &&& s.map_write_result(sub, data) is Ok
            &&& s.map_written(sub, data).map_value(sub) == data
            &&& s.map_written(sub, data).mapping_count == 0
        },
        s.mapping_count == 0 && data[0] > 64 ==> s.map_write_result(sub, data) == Err::<
            (),
            OdError,
        >(OdError::ValueRange),
        s.mapping_count != 0 ==> s.map_write_result(sub, data) == Err::<(), OdError>(
            OdError::ReadOnly,
        ),
        s.map_write_result(0, seq![count]) is Ok <==> count <= 64
            && crate::dictionary::table::total_bits(s.mappings, count as int) <= 64,
        s.map_write_result(0, seq![count]) is Ok ==> s.map_written(0, seq![count]).map_value(0)
            == seq![count] && s.map_written(0, seq![count]).mappings == s.mappings,
{
    lemma_u32_bytes_roundtrip(le_u32(data), data);
    assert(le_u32(data) % 0x100 == data[0]) by {
        assert(le_u32(data) == data[0] + 0x100 * data[1] + 0x1_0000 * data[2] + 0x100_0000
            * data[3]);
    }
}

/// A PDO of a definition starts with what is declared: its parameters, and the
/// values of its mapped objects, behind which a mapping that can be changed has
/// room for 64. Its COB-ID is the declared one if it does not depend on the node
/// ID, and is found out later if it does.
pub proof fn lemma_slot_of_pdo(pdo: PdoDefView, flat: Seq<FlatView>, mapped: Seq<PdoMapping>)
    requires
        mapped_objects(pdo, flat, pdo.mappings.len() as int) == Ok::<Seq<PdoMapping>, ErrorView>(
            mapped,
        ),
    ensures
        slot_of(pdo, flat) is Ok <==> 1 <= pdo.number <= 512 && mapped.len() <= 64,
        slot_of(pdo, flat) matches Ok(s) ==> {
            &&& s.number == pdo.number
            &&& s.transmission_type == pdo.transmission_type
            &&& s.inhibit_time == pdo.inhibit_time
            &&& s.event_timer == pdo.event_timer
            &&& s.mapping == pdo.mapping
            &&& s.mapping_count == mapped.len()
            &&& s.declared == pdo.cob_id
            &&& pdo.cob_id matches Some(CobIdSpec::Absolute(id)) ==> s.cob_id == id
            &&& !(pdo.cob_id matches Some(CobIdSpec::Absolute(_))) ==> s.cob_id == 0
            &&& forall|i: int|
                0 <= i < mapped.len() ==> (#[trigger] s.mappings[i])
                    == mapped[i].to_mapping_value()
            &&& s.mappings.len() == if pdo.mapping == MappingKind::Mutable {
                64
            } else {
                mapped.len()
            }
            &&& forall|i: int| mapped.len() <= i < s.mappings.len() ==> (#[trigger] s.mappings[i]) == 0
        },
{
}

/// The PDOs of a definition stay in order, those of each direction for
/// themselves.
pub proof fn lemma_slots_in_order(pdos: Seq<PdoDefView>, flat: Seq<FlatView>, n: int)
    requires
        0 < n <= pdos.len(),
        slots_of(pdos, flat, n) is Ok,
    ensures
        slots_of(pdos, flat, n - 1) is Ok,
        slot_of(pdos[n - 1], flat) is Ok,
        ({
            let (t, r) = slots_of(pdos, flat, n)->Ok_0;
            let (t0, r0) = slots_of(pdos, flat, n - 1)->Ok_0;
            let s = slot_of(pdos[n - 1], flat)->Ok_0;
            match pdos[n - 1].direction {
                PdoDirection::Tpdo => t == t0.push(s) && r == r0,
                PdoDirection::Rpdo => t == t0 && r == r0.push(s),
            }
        }),
{
}

/// A PDO is sent or received with its COB-ID as it is set; as long as none is
/// set, with the declared one, plus the node ID; or, for the first four, with the
/// predefined one: 0x180, 0x280, 0x380 and 0x480 for those that are sent, and
/// 0x200, 0x300, 0x400 and 0x500 for those that are received, plus the node ID.
pub proof fn lemma_pdo_cob_ids(s: SlotView, node: NodeId)
    requires
        1 <= node.raw() <= 127,
        1 <= s.number <= 512,
    ensures
        s.cob_id != 0 ==> s.tpdo(node).cob_id == s.cob_id % 0x800 && s.rpdo(node).cob_id == s.cob_id
            % 0x800,
        s.cob_id == 0 ==> match s.declared {
            Some(CobIdSpec::NodeRelative(base)) => base <= 0x7FF ==> {
                &&& s.tpdo(node).cob_id == base + node.raw()
                &&& s.rpdo(node).cob_id == base + node.raw()
            },
            _ => {
                &&& s.number == 1 ==> s.tpdo(node).cob_id == 0x180 + node.raw() && s.rpdo(
                    node,
                ).cob_id == 0x200 + node.raw()
                &&& s.number == 2 ==> s.tpdo(node).cob_id == 0x280 + node.raw() && s.rpdo(
                    node,
                ).cob_id == 0x300 + node.raw()
                &&& s.number == 3 ==> s.tpdo(node).cob_id == 0x380 + node.raw() && s.rpdo(
                    node,
                ).cob_id == 0x400 + node.raw()
                &&& s.number == 4 ==> s.tpdo(node).cob_id == 0x480 + node.raw() && s.rpdo(
                    node,
                ).cob_id == 0x500 + node.raw()
                &&& s.number > 4 ==> s.tpdo(node).cob_id == 0 && !s.tpdo(node).enabled
            },
        },
        s.tpdo(node).enabled <==> s.cob_id < 0x8000_0000 && s.tpdo(node).cob_id != 0,
        s.rpdo(node).enabled <==> s.cob_id < 0x8000_0000 && s.rpdo(node).cob_id != 0,
        s.tpdo(node).transmission_type == s.transmission_type,
        s.tpdo(node).inhibit_time_100us == s.inhibit_time,
        s.tpdo(node).event_timer_ms == s.event_timer,
        s.rpdo(node).transmission_type == s.transmission_type,
        s.rpdo(node).deadline_ms == s.event_timer,
        s.tpdo(node).od_number == s.number,
        s.rpdo(node).od_number == s.number,
{
}

/// A PDO maps as many objects as its count says, in order.
pub proof fn lemma_pdo_mappings(s: SlotView, node: NodeId, i: int)
    requires
        s.mapping_count <= s.mappings.len() <= 64,
        0 <= i < s.mapping_count,
    ensures
        s.tpdo(node).mappings.len() == s.mapping_count,
        s.rpdo(node).mappings == s.tpdo(node).mappings,
        s.tpdo(node).mappings[i].index == s.mappings[i] / 65536,
        s.tpdo(node).mappings[i].subindex == s.mappings[i] / 256 % 256,
        s.tpdo(node).mappings[i].bit_length == s.mappings[i] % 256,
{
}

// ---- SDO servers ----

/// The parameters of SDO server n are at 0x11FF + n, and cannot be written: the
/// COB-ID that it receives with is at subindex 1, and the one that it sends with
/// at 2.
pub proof fn lemma_server_parameters(t: TableView, i: int, data: Seq<u8>)
    requires
        0 <= i < t.servers.len(),
        2 <= t.servers[i].def.number <= 128,
        forall|j: int|
            0 <= j < i ==> (#[trigger] t.servers[j]).def.number != t.servers[i].def.number,
    ensures
        ({
            let s = t.servers[i];
            let index = (0x11FF + s.def.number) as u16;
            &&& t.fixed_value(index, 0) == Ok::<Seq<u8>, OdError>(seq![2u8])
            &&& t.fixed_value(index, 1) matches Ok(v) && v.len() == 4 && le_u32(v) == s.cob_rx
            &&& t.fixed_value(index, 2) matches Ok(v) && v.len() == 4 && le_u32(v) == s.cob_tx
            &&& t.fixed_value(index, 3) == Err::<Seq<u8>, OdError>(OdError::NotFound)
        }),
{
    let s = t.servers[i];
    lemma_first_server(t.servers, i, 0);
    lemma_u32_bytes_roundtrip(s.cob_rx, crate::bytes::u32_bytes(s.cob_rx));
    lemma_u32_bytes_roundtrip(s.cob_tx, crate::bytes::u32_bytes(s.cob_tx));
}

proof fn lemma_first_server(servers: Seq<ServerCellView>, i: int, from: int)
    requires
        0 <= from <= i < servers.len(),
        2 <= servers[i].def.number <= 128,
        forall|j: int|
            0 <= j < i ==> (#[trigger] servers[j]).def.number != servers[i].def.number,
    ensures
        server_at(servers, (0x11FF + servers[i].def.number) as u16, from) == Some(i),
    decreases i - from,
{
    if from < i {
        assert(servers[from].def.number != servers[i].def.number);
        lemma_first_server(servers, i, from + 1);
    }
}

/// A COB-ID that depends on the node ID is resolved by adding it; any other one
/// stays. What the node uses is what the dictionary tells.
pub proof fn lemma_server_cob_ids(t: TableView, node: NodeId, i: int)
    requires
        1 <= node.raw() <= 127,
        0 <= i < t.servers.len(),
    ensures
        ({
            let def = t.servers[i].def;
            let s = t.after_store_sdo_cob_ids(node).servers[i];
            let config = t.server_list(node)[i];
            &&& s.def == def
            &&& s.cob_rx == config.cob_rx
            &&& s.cob_tx == config.cob_tx
            &&& def.cob_rx matches CobIdSpec::NodeRelative(base) ==> (base <= 0x7FF ==> s.cob_rx
                == base + node.raw())
            &&& def.cob_rx matches CobIdSpec::Absolute(id) ==> (id <= 0x7FF ==> s.cob_rx == id)
            &&& def.cob_tx matches CobIdSpec::NodeRelative(base) ==> (base <= 0x7FF ==> s.cob_tx
                == base + node.raw())
            &&& def.cob_tx matches CobIdSpec::Absolute(id) ==> (id <= 0x7FF ==> s.cob_tx == id)
        }),
        t.after_store_sdo_cob_ids(node).cells == t.cells,
        t.after_store_sdo_cob_ids(node).tpdos == t.tpdos,
{
}

/// The SDO servers of a definition have numbers from 2 to 128, no two the same,
/// and no COB-ID is used twice, nor one of the default server.
pub proof fn lemma_servers_are_checked(servers: Seq<SdoServerDef>, n: int)
    requires
        0 <= n <= servers.len(),
    ensures
        servers_fault(servers, n) is None <==> forall|i: int|
            0 <= i < n ==> {
                &&& 2 <= (#[trigger] servers[i]).number <= 128
                &&& servers[i].cob_rx != servers[i].cob_tx
                &&& servers[i].cob_rx != CobIdSpec::NodeRelative(0x600) && servers[i].cob_rx
                    != CobIdSpec::NodeRelative(0x580)
                &&& servers[i].cob_tx != CobIdSpec::NodeRelative(0x600) && servers[i].cob_tx
                    != CobIdSpec::NodeRelative(0x580)
                &&& forall|j: int|
                    0 <= j < i ==> {
                        &&& (#[trigger] servers[j]).number != servers[i].number
                        &&& servers[j].cob_rx != servers[i].cob_rx
                        &&& servers[j].cob_rx != servers[i].cob_tx
                        &&& servers[j].cob_tx != servers[i].cob_rx
                        &&& servers[j].cob_tx != servers[i].cob_tx
                    }
            },
    decreases n,
{
    if n > 0 {
        lemma_servers_are_checked(servers, n - 1);
        let i = n - 1;
        let s = servers[i];
        assert(server_number_ok(servers, i) <==> 2 <= s.number <= 128 && forall|j: int|
            0 <= j < i ==> (#[trigger] servers[j]).number != s.number);
        assert forall|j: int|
            0 <= j < i && server_cobs_ok(servers, i) implies (#[trigger] servers[j]).cob_rx
            != s.cob_rx && servers[j].cob_rx != s.cob_tx && servers[j].cob_tx != s.cob_rx
            && servers[j].cob_tx != s.cob_tx by {
            assert(!cob_in_use(servers, i, s.cob_rx));
            assert(!cob_in_use(servers, i, s.cob_tx));
            assert(!(servers[j].cob_rx == s.cob_rx || servers[j].cob_tx == s.cob_rx));
            assert(!(servers[j].cob_rx == s.cob_tx || servers[j].cob_tx == s.cob_tx));
        }
    }
}

/// The description of the device itself is at 0x1021, and its format, which is
/// 1, at 0x1022; neither can be written.
pub proof fn lemma_stored_description(t: TableView, data: Seq<u8>)
    requires
        forall|i: int|
            0 <= i < t.servers.len() ==> 2 <= (#[trigger] t.servers[i]).def.number <= 128,
    ensures
        t.fixed_value(0x1021, 0) == Ok::<Seq<u8>, OdError>(t.eds),
        t.fixed_value(0x1022, 0) == Ok::<Seq<u8>, OdError>(seq![1u8]),
{
    lemma_no_server(t.servers, 0x1021, 0);
    lemma_no_server(t.servers, 0x1022, 0);
}

proof fn lemma_no_server(servers: Seq<ServerCellView>, index: u16, from: int)
    requires
        0 <= from,
        index < 0x1200 || index > 0x127F,
        forall|i: int| 0 <= i < servers.len() ==> 2 <= (#[trigger] servers[i]).def.number <= 128,
    ensures
        server_at(servers, index, from) is None,
    decreases servers.len() - from,
{
    if from < servers.len() {
        assert(2 <= servers[from].def.number);
        lemma_no_server(servers, index, from + 1);
    }
}

// ---- Clients ----

/// A client has a method to read a variable unless it is write-only, and one to
/// write it if it is read-write or write-only, both at the address of the
/// variable.
pub proof fn lemma_client_methods(
    index: u16,
    sub: u8,
    name: Seq<char>,
    ty: Seq<char>,
    access: AccessKind,
)
    requires
        read_type(ty) is Some,
    ensures
        ({
            let m = var_methods(index, sub, name, ty, access);
            &&& forall|i: int|
                0 <= i < m.len() ==> (#[trigger] m[i]).index == index && m[i].sub == ClientSub::At(
                    sub,
                )
            &&& (exists|i: int| 0 <= i < m.len() && (#[trigger] m[i]).access == ClientAccess::Read)
                <==> access != AccessKind::Wo
            &&& (exists|i: int| 0 <= i < m.len() && (#[trigger] m[i]).access == ClientAccess::Write)
                <==> access == AccessKind::Rw || access == AccessKind::Wo
        }),
{
    let m = var_methods(index, sub, name, ty, access);
    if access == AccessKind::Wo {
        assert(m[0].access == ClientAccess::Write);
    } else if access == AccessKind::Rw {
        assert(m[0].access == ClientAccess::Read);
        assert(m[1].access == ClientAccess::Write);
    } else {
        assert(m[0].access == ClientAccess::Read);
    }
}

/// A method takes or gives as many bytes as the type of the variable has.
pub proof fn lemma_client_types(ty: Seq<char>, t: DataType)
    requires
        data_type_of(ty) == Some(t),
    ensures
        match read_type(ty) {
            Some(c) => {
                &&& c == ClientType::U8 ==> t.spec_size() == Some(1usize)
                &&& c == ClientType::U16 ==> t.spec_size() == Some(2usize)
                &&& c == ClientType::U32 ==> t == DataType::U32
                &&& c == ClientType::I32 ==> t == DataType::I32
                &&& c == ClientType::F32 ==> t == DataType::Real32
                &&& c != ClientType::Raw
                &&& write_type(ty) is Some
            },
            None => {
                &&& write_type(ty) is None
                &&& t.spec_size() is None || t.spec_size() == Some(3usize) || t.spec_size() == Some(
                    8usize,
                )
            },
        },
{
}

// ---- Numbers of entries, types and changes ----

/// The highest subindex of variables with an index is that of one of them, and
/// no other one has a higher one.
pub proof fn lemma_highest_subindex(cells: Seq<CellView>, index: u16, n: int)
    requires
        0 <= n <= cells.len(),
    ensures
        match highest_sub(cells, index, n) {
            Some(sub) => {
                &&& exists|i: int|
                    0 <= i < n && (#[trigger] cells[i]).index == index && cells[i].subindex == sub
                &&& forall|i: int|
                    0 <= i < n && (#[trigger] cells[i]).index == index ==> cells[i].subindex <= sub
            },
            None => forall|i: int| 0 <= i < n ==> (#[trigger] cells[i]).index != index,
        },
    decreases n,
{
    if n > 0 {
        lemma_highest_subindex(cells, index, n - 1);
        assert(cells[n - 1].index == index || highest_sub(cells, index, n) == highest_sub(
            cells,
            index,
            n - 1,
        ));
    }
}

proof fn lemma_no_slot(slots: Seq<SlotView>, number: int, from: int)
    requires
        0 <= from,
        forall|j: int| 0 <= j < slots.len() ==> (#[trigger] slots[j]).number != number,
    ensures
        slot_at(slots, number, from) is None,
    decreases slots.len() - from,
{
    if from < slots.len() {
        lemma_no_slot(slots, number, from + 1);
    }
}

proof fn lemma_no_array(arrays: Seq<ArrayCellView>, index: u16, n: int)
    requires
        n <= arrays.len(),
        forall|j: int| 0 <= j < arrays.len() ==> (#[trigger] arrays[j]).index != index,
    ensures
        last_count(arrays, index, n) is None,
    decreases n,
{
    if n > 0 {
        lemma_no_array(arrays, index, n - 1);
    }
}

/// An object of variables has as many subindices as the highest of them says.
pub proof fn lemma_variable_subindices(t: TableView, index: u16, i: int)
    requires
        index < 0x1200 || index > 0x1BFF,
        0 <= i < t.cells.len(),
        t.cells[i].index == index,
        forall|j: int| 0 <= j < t.arrays.len() ==> (#[trigger] t.arrays[j]).index != index,
        forall|j: int|
            0 <= j < t.servers.len() ==> 2 <= (#[trigger] t.servers[j]).def.number <= 128,
    ensures
        t.subs_of(index) matches Some(sub) && t.cells[i].subindex <= sub,
{
    lemma_no_array(t.arrays, index, t.arrays.len() as int);
    lemma_no_server(t.servers, index, 0);
    lemma_highest_subindex(t.cells, index, t.cells.len() as int);
}

/// An array has as many subindices as elements.
pub proof fn lemma_array_subindices(t: TableView, i: int)
    requires
        0 <= i < t.arrays.len(),
        t.arrays[i].values.len() <= 255,
        forall|j: int|
            i < j < t.arrays.len() ==> (#[trigger] t.arrays[j]).index != t.arrays[i].index,
    ensures
        t.subs_of(t.arrays[i].index) matches Some(n) && n == t.arrays[i].values.len(),
{
    lemma_last_array(t.arrays, i, t.arrays.len() as int);
}

proof fn lemma_last_array(arrays: Seq<ArrayCellView>, i: int, n: int)
    requires
        0 <= i < n <= arrays.len(),
        forall|j: int| i < j < arrays.len() ==> (#[trigger] arrays[j]).index != arrays[i].index,
    ensures
        last_count(arrays, arrays[i].index, n) == Some(arrays[i].values.len() as u8),
    decreases n,
{
    if n > i + 1 {
        lemma_last_array(arrays, i, n - 1);
    }
}

/// The value of a PDO parameter has the size of its type, and only the numbers
/// of entries and a fixed mapping cannot be written. A receive PDO has no
/// inhibit time, and no PDO has a parameter 4.
pub proof fn lemma_parameter_types(s: SlotView, direction: PdoDirection, index: u16, sub: u8)
    ensures
        comm_param(direction, sub) is Some <==> sub == 0 || sub == 1 || sub == 2 || sub == 5 || (sub
            == 3 && direction == PdoDirection::Tpdo),
        comm_param(direction, sub) matches Some(p) ==> {
            let m = comm_meta(index, sub, p);
            &&& m.index == index && m.subindex == sub
            &&& m.data_type.spec_size() matches Some(n) && n == s.comm_value(sub).len()
            &&& m.access == (if sub == 0 {
                AccessType::Ro
            } else {
                AccessType::Rw
            })
            &&& !m.pdo_mappable
            &&& m.max_size is None
        },
        ({
            let m = s.map_meta(index, sub);
            &&& m.index == index && m.subindex == sub
            &&& m.data_type.spec_size() matches Some(n) && n == s.map_value(sub).len()
            &&& m.access == (if s.mapping is Mutable {
                AccessType::Rw
            } else {
                AccessType::Const
            })
            &&& !m.pdo_mappable
            &&& m.max_size is None
        }),
{
}

proof fn lemma_first_writable(cells: Seq<CellView>, i: int, from: int)
    requires
        0 <= from <= i < cells.len(),
        cells[i].access is Rw || cells[i].access is Wo,
        forall|j: int|
            0 <= j < i ==> (#[trigger] cells[j]).index != cells[i].index || cells[j].subindex
                != cells[i].subindex,
    ensures
        writable_cell(cells, cells[i].index, cells[i].subindex, from) == Some(i),
    decreases i - from,
{
    if from < i {
        lemma_first_writable(cells, i, from + 1);
    }
}

/// A change of a number says its name and carries its value; that of a string
/// carries none.
pub proof fn lemma_change_is_reported(t: TableView, i: int)
    requires
        0 <= i < t.cells.len(),
        t.cells[i].access is Rw || t.cells[i].access is Wo,
        forall|j: int|
            0 <= j < i ==> (#[trigger] t.cells[j]).index != t.cells[i].index || t.cells[j].subindex
                != t.cells[i].subindex,
    ensures
        t.change_at(t.cells[i].index, t.cells[i].subindex) matches Some(change) && {
            &&& change.variant == camel_case(t.cells[i].name, true)
            &&& change.element is None
            &&& t.cells[i].data_type.spec_size() is Some ==> change.value == Some(t.cells[i].value)
            &&& t.cells[i].data_type.spec_size() is None ==> change.value is None
        },
{
    lemma_first_writable(t.cells, i, 0);
}

proof fn lemma_no_writable(cells: Seq<CellView>, index: u16, sub: u8, from: int)
    requires
        0 <= from,
        forall|j: int| 0 <= j < cells.len() ==> (#[trigger] cells[j]).index != index,
    ensures
        writable_cell(cells, index, sub, from) is None,
    decreases cells.len() - from,
{
    if from < cells.len() {
        lemma_no_writable(cells, index, sub, from + 1);
    }
}

proof fn lemma_first_writable_array(arrays: Seq<ArrayCellView>, i: int, sub: u8, from: int)
    requires
        0 <= from <= i < arrays.len(),
        arrays[i].access is Rw || arrays[i].access is Wo,
        1 <= sub <= arrays[i].values.len(),
        forall|j: int| 0 <= j < i ==> (#[trigger] arrays[j]).index != arrays[i].index,
    ensures
        writable_array(arrays, arrays[i].index, sub, from) == Some(i),
    decreases i - from,
{
    if from < i {
        lemma_first_writable_array(arrays, i, sub, from + 1);
    }
}

/// A change of an element of an array says the name of the array and which
/// element it is, counted from 1, and carries its value.
pub proof fn lemma_element_change_is_reported(t: TableView, i: int, sub: u8)
    requires
        0 <= i < t.arrays.len(),
        t.arrays[i].access is Rw || t.arrays[i].access is Wo,
        1 <= sub <= t.arrays[i].values.len(),
        forall|j: int| 0 <= j < i ==> (#[trigger] t.arrays[j]).index != t.arrays[i].index,
        forall|j: int| 0 <= j < t.cells.len() ==> (#[trigger] t.cells[j]).index
            != t.arrays[i].index,
    ensures
        t.change_at(t.arrays[i].index, sub) matches Some(change) && {
            &&& change.variant == camel_case(t.arrays[i].name, true)
            &&& change.element == Some(sub)
            &&& change.value == Some(t.arrays[i].values[sub - 1])
        },
{
    lemma_no_writable(t.cells, t.arrays[i].index, sub, 0);
    lemma_first_writable_array(t.arrays, i, sub, 0);
}

} // verus!
