//! What a device does with its dictionary: PDO and SDO configurations, typed
//! changes, and access to the values by name.

use crate::cobid::NodeId;
use crate::datatypes::DataType;
use crate::dictionary::definition::{CobIdSpec, PdoDirection};
use crate::dictionary::names::{camel_case, to_camel_case};
use crate::dictionary::table::{
    admits_writes, array_views, cell_views, resolve_cob, resolved_cob, stored, value_views,
    ArrayCellView, CellView, PdoSlot, ServerCellView, SlotView, Table, TableView,
};
use crate::od::{AccessType, ObjectDictionary, OdChanges, OdContents, OdEvent};
use crate::pdo::config::{
    heapless_vec_new, heapless_vec_push, mapped, rpdo_views, tpdo_views, PdoMapping, PdoMappings,
    RpdoConfig, RpdoView, TpdoConfig, TpdoView,
};
use crate::sdo::config::SdoServerConfig;
use crate::text::{chars_of, same_text};
use vstd::prelude::*;

verus! {

// ---- PDO configurations ----

/// The COB-ID of a PDO whose parameter is 0: the declared base plus the node
/// ID, else the predefined default, which only the first four PDOs have.
pub open spec fn default_cob(
    direction: PdoDirection,
    number: u16,
    declared: Option<CobIdSpec>,
    node_id: NodeId,
) -> u16 {
    match declared {
        Some(CobIdSpec::NodeRelative(base)) => ((base + node_id.raw()) % 0x1_0000) as u16,
        _ => if 1 <= number <= 4 {
            (predefined_cob(direction, number) + node_id.raw()) as u16
        } else {
            0
        },
    }
}

/// The base of the predefined COB-IDs of a PDO.
pub open spec fn predefined_cob(direction: PdoDirection, number: u16) -> int {
    match direction {
        PdoDirection::Tpdo => 0x180 + 0x100 * (number - 1),
        PdoDirection::Rpdo => 0x200 + 0x100 * (number - 1),
    }
}

impl SlotView {
    /// The COB-ID on a node.
    pub open spec fn cob(self, direction: PdoDirection, node_id: NodeId) -> u16 {
        if self.cob_id == 0 {
            default_cob(direction, self.number, self.declared, node_id)
        } else {
            (self.cob_id % 0x800) as u16
        }
    }

    /// The PDO is in use on a node: its COB-ID is valid and not 0.
    pub open spec fn enabled(self, direction: PdoDirection, node_id: NodeId) -> bool {
        self.cob_id < 0x8000_0000 && self.cob(direction, node_id) != 0
    }

    /// The number of entries that are mapped.
    pub open spec fn mapped_count(self) -> int {
        let n = if self.mapping_count <= self.mappings.len() {
            self.mapping_count as int
        } else {
            self.mappings.len() as int
        };
        if n <= 64 {
            n
        } else {
            64
        }
    }

    /// The mapped objects.
    pub open spec fn mapped_objects(self) -> Seq<PdoMapping> {
        self.mappings.take(self.mapped_count()).map_values(
            |v: u32| PdoMapping::from_mapping_value(v),
        )
    }

    /// The configuration of a transmit PDO on a node.
    pub open spec fn tpdo(self, node_id: NodeId) -> TpdoView {
        TpdoView {
            od_number: self.number,
            cob_id: self.cob(PdoDirection::Tpdo, node_id),
            transmission_type: self.transmission_type,
            inhibit_time_100us: self.inhibit_time,
            event_timer_ms: self.event_timer,
            mappings: self.mapped_objects(),
            enabled: self.enabled(PdoDirection::Tpdo, node_id),
        }
    }

    /// The configuration of a receive PDO on a node.
    pub open spec fn rpdo(self, node_id: NodeId) -> RpdoView {
        RpdoView {
            od_number: self.number,
            cob_id: self.cob(PdoDirection::Rpdo, node_id),
            transmission_type: self.transmission_type,
            deadline_ms: self.event_timer,
            mappings: self.mapped_objects(),
            enabled: self.enabled(PdoDirection::Rpdo, node_id),
        }
    }
}

impl PdoSlot {
    fn cob_on(&self, direction: PdoDirection, node_id: NodeId) -> (r: u16)
        ensures
            r == self@.cob(direction, node_id),
    {
        if self.cob_id != 0 {
            return (self.cob_id % 0x800) as u16;
        }
        match self.declared {
            Some(CobIdSpec::NodeRelative(base)) => ((base as u64 + node_id.raw() as u64) % 0x1_0000)
                as u16,
            _ => if 1 <= self.number && self.number <= 4 {
                let first: u16 = match direction {
                    PdoDirection::Tpdo => 0x180,
                    PdoDirection::Rpdo => 0x200,
                };
                first + 0x100 * (self.number - 1) + node_id.raw() as u16
            } else {
                0
            },
        }
    }

    fn mapping_list(&self) -> (r: PdoMappings)
        ensures
            mapped(r) == self@.mapped_objects(),
    {
        let mut list = heapless_vec_new();
        let ghost goal = self@.mapped_objects();
        let mut i: usize = 0;
        while i < self.mapping_count as usize && i < self.mappings.len() && i < 64
            invariant
                i <= self@.mapped_count() <= 64,
                goal == self@.mapped_objects(),
                mapped(list) == goal.take(i as int),
            decreases 64 - i,
        {
            let _ = heapless_vec_push(&mut list, PdoMapping::from_mapping_value(self.mappings[i]));
            i += 1;
            assert(mapped(list) =~= goal.take(i as int));
        }
        assert(goal.take(i as int) =~= goal);
        list
    }
}

impl TableView {
    /// The configurations of the transmit PDOs on a node.
    pub open spec fn tpdo_list(self, node_id: NodeId) -> Seq<TpdoView> {
        self.tpdos.map_values(|s: SlotView| s.tpdo(node_id))
    }

    /// The configurations of the receive PDOs on a node.
    pub open spec fn rpdo_list(self, node_id: NodeId) -> Seq<RpdoView> {
        self.rpdos.map_values(|s: SlotView| s.rpdo(node_id))
    }

    /// The COB-IDs of the additional SDO servers on a node.
    pub open spec fn server_list(self, node_id: NodeId) -> Seq<SdoServerConfig> {
        self.servers.map_values(
            |s: ServerCellView|
                SdoServerConfig {
                    cob_rx: resolved_cob(s.def.cob_rx, node_id),
                    cob_tx: resolved_cob(s.def.cob_tx, node_id),
                },
        )
    }
}

impl Table {
    /// Build TPDO configs from current values. COB-IDs of 0 are resolved using
    /// `node_id`.
    pub fn tpdo_configs(&self, node_id: NodeId) -> (r: Vec<TpdoConfig>)
        ensures
            tpdo_views(r@) == self@.tpdo_list(node_id),
    {
        let ghost goal = self@.tpdo_list(node_id);
        let mut r: Vec<TpdoConfig> = Vec::new();
        let mut i: usize = 0;
        assert(tpdo_views(r@) =~= goal.take(0));
        while i < self.tpdos.len()
            invariant
                i <= self.tpdos@.len(),
                goal == self@.tpdo_list(node_id),
                goal.len() == self.tpdos@.len(),
                tpdo_views(r@) == goal.take(i as int),
            decreases self.tpdos@.len() - i,
        {
            let ghost before = r@;
            let s = &self.tpdos[i];
            assert(self@.tpdos[i as int] == s@);
            let cob_id: u16 = s.cob_on(PdoDirection::Tpdo, node_id);
            let c = TpdoConfig {
                od_number: s.number,
                cob_id,
                transmission_type: s.transmission_type,
                inhibit_time_100us: s.inhibit_time,
                event_timer_ms: s.event_timer,
                mappings: s.mapping_list(),
                enabled: s.cob_id < 0x8000_0000 && cob_id != 0,
            };
            r.push(c);
            i += 1;
            assert(tpdo_views(r@) =~= tpdo_views(before).push(c@));
            assert(c@ =~= goal[i - 1]);
            assert(goal.take(i as int) =~= goal.take(i - 1).push(goal[i - 1]));
        }
        assert(goal.take(i as int) =~= goal);
        r
    }

    /// Build RPDO configs from current values.
    pub fn rpdo_configs(&self, node_id: NodeId) -> (r: Vec<RpdoConfig>)
        ensures
            rpdo_views(r@) == self@.rpdo_list(node_id),
    {
        let ghost goal = self@.rpdo_list(node_id);
        let mut r: Vec<RpdoConfig> = Vec::new();
        let mut i: usize = 0;
        assert(rpdo_views(r@) =~= goal.take(0));
        while i < self.rpdos.len()
            invariant
                i <= self.rpdos@.len(),
                goal == self@.rpdo_list(node_id),
                goal.len() == self.rpdos@.len(),
                rpdo_views(r@) == goal.take(i as int),
            decreases self.rpdos@.len() - i,
        {
            let ghost before = r@;
            let s = &self.rpdos[i];
            assert(self@.rpdos[i as int] == s@);
            let cob_id: u16 = s.cob_on(PdoDirection::Rpdo, node_id);
            let c = RpdoConfig {
                od_number: s.number,
                cob_id,
                transmission_type: s.transmission_type,
                deadline_ms: s.event_timer,
                mappings: s.mapping_list(),
                enabled: s.cob_id < 0x8000_0000 && cob_id != 0,
            };
            r.push(c);
            i += 1;
            assert(rpdo_views(r@) =~= rpdo_views(before).push(c@));
            assert(c@ =~= goal[i - 1]);
            assert(goal.take(i as int) =~= goal.take(i - 1).push(goal[i - 1]));
        }
        assert(goal.take(i as int) =~= goal);
        r
    }

    /// Resolve the COB-IDs of the additional SDO servers.
    pub fn sdo_server_configs(&self, node_id: NodeId) -> (r: Vec<SdoServerConfig>)
        ensures
            r@ == self@.server_list(node_id),
    {
        let ghost goal = self@.server_list(node_id);
        let mut r: Vec<SdoServerConfig> = Vec::new();
        let mut i: usize = 0;
        while i < self.servers.len()
            invariant
                i <= self.servers@.len(),
                goal == self@.server_list(node_id),
                goal.len() == self.servers@.len(),
                r@ == goal.take(i as int),
            decreases self.servers@.len() - i,
        {
            assert(self@.servers[i as int] == self.servers@[i as int]@);
            let def = self.servers[i].def;
            r.push(
                SdoServerConfig {
                    cob_rx: resolve_cob(def.cob_rx, node_id),
                    cob_tx: resolve_cob(def.cob_tx, node_id),
                },
            );
            i += 1;
            assert(r@ =~= goal.take(i as int));
        }
        assert(goal.take(i as int) =~= goal);
        r
    }
}

// ---- Changes ----

/// A change of an entry by the protocol stack.
#[derive(Debug)]
pub struct OdChange {
    /// The name of the entry in camel case.
    pub variant: String,
    /// Which element of an array changed.
    pub element: Option<u8>,
    /// The current value. Not carried for variable-length entries.
    pub value: Option<Vec<u8>>,
}

#[verifier::ext_equal]
pub struct ChangeView {
    pub variant: Seq<char>,
    pub element: Option<u8>,
    pub value: Option<Seq<u8>>,
}

impl View for OdChange {
    type V = ChangeView;

    open spec fn view(&self) -> ChangeView {
        ChangeView {
            variant: self.variant@,
            element: self.element,
            value: match self.value {
                Some(v) => Some(v@),
                None => None,
            },
        }
    }
}

/// The first variable from `from` on with an address that admits writes.
pub open spec fn writable_cell(
    cells: Seq<CellView>,
    index: u16,
    subindex: u8,
    from: int,
) -> Option<int>
    decreases cells.len() - from,
{
    if from < 0 || from >= cells.len() {
        None
    } else if cells[from].index == index && cells[from].subindex == subindex && admits_writes(
        cells[from].access,
    ) {
        Some(from)
    } else {
        writable_cell(cells, index, subindex, from + 1)
    }
}

/// The first array from `from` on with an index that has an element at a
/// subindex and admits writes.
pub open spec fn writable_array(
    arrays: Seq<ArrayCellView>,
    index: u16,
    subindex: u8,
    from: int,
) -> Option<int>
    decreases arrays.len() - from,
{
    if from < 0 || from >= arrays.len() {
        None
    } else if arrays[from].index == index && 1 <= subindex <= arrays[from].values.len()
        && admits_writes(arrays[from].access) {
        Some(from)
    } else {
        writable_array(arrays, index, subindex, from + 1)
    }
}

impl TableView {
    /// What a write at an address changes for the application. The stack
    /// cannot write read-only entries, and the parameters of PDOs and SDO
    /// servers are none of the application's.
    pub open spec fn change_at(self, index: u16, subindex: u8) -> Option<ChangeView> {
        if let Some(i) = writable_cell(self.cells, index, subindex, 0) {
            let c = self.cells[i];
            Some(
                ChangeView {
                    variant: camel_case(c.name, true),
                    element: None,
                    value: if c.data_type.spec_size() is Some {
                        Some(c.value)
                    } else {
                        None
                    },
                },
            )
        } else if let Some(i) = writable_array(self.arrays, index, subindex, 0) {
            let a = self.arrays[i];
            Some(
                ChangeView {
                    variant: camel_case(a.name, true),
                    element: Some(subindex),
                    value: Some(a.values[subindex - 1]),
                },
            )
        } else {
            None
        }
    }
}

/// Whether an access admits writes.
fn is_writable(access: AccessType) -> (r: bool)
    ensures
        r == admits_writes(access),
{
    match access {
        AccessType::Rw | AccessType::Wo => true,
        _ => false,
    }
}

/// What an optional change says.
pub open spec fn change_view(c: Option<OdChange>) -> Option<ChangeView> {
    match c {
        Some(c) => Some(c@),
        None => None,
    }
}

impl OdChanges for Table {
    type Change = OdChange;

    open spec fn decodes(contents: TableView, event: OdEvent, change: Option<OdChange>) -> bool {
        change_view(change) == contents.change_at(event.index, event.subindex)
    }

    fn decode_event(&self, event: OdEvent) -> (r: Option<OdChange>) {
        let index: u16 = event.index;
        let subindex: u8 = event.subindex;
        let ghost cells = self@.cells;
        let mut i: usize = 0;
        while i < self.cells.len()
            invariant
                i <= self.cells@.len(),
                cells == cell_views(self.cells@),
                cells == self@.cells,
                index == event.index,
                subindex == event.subindex,
                writable_cell(cells, index, subindex, 0) == writable_cell(
                    cells,
                    index,
                    subindex,
                    i as int,
                ),
            decreases self.cells@.len() - i,
        {
            assert(cells[i as int] == self.cells@[i as int]@);
            let c = &self.cells[i];
            if c.index == index && c.subindex == subindex && is_writable(c.access) {
                let value = if c.data_type.size().is_some() {
                    Some(crate::bytes::to_vec(c.value.as_slice()))
                } else {
                    None
                };
                return Some(
                    OdChange { variant: to_camel_case(c.name.as_str()), element: None, value },
                );
            }
            i += 1;
        }
        let ghost arrays = self@.arrays;
        let mut i: usize = 0;
        while i < self.arrays.len()
            invariant
                i <= self.arrays@.len(),
                arrays == array_views(self.arrays@),
                arrays == self@.arrays,
                index == event.index,
                subindex == event.subindex,
                writable_cell(self@.cells, index, subindex, 0) is None,
                writable_array(arrays, index, subindex, 0) == writable_array(
                    arrays,
                    index,
                    subindex,
                    i as int,
                ),
            decreases self.arrays@.len() - i,
        {
            assert(arrays[i as int] == self.arrays@[i as int]@);
            let a = &self.arrays[i];
            if a.index == index && 1 <= subindex && subindex as usize <= a.values.len()
                && is_writable(a.access) {
                assert(a@.values[subindex - 1] == a.values@[subindex - 1]@);
                return Some(
                    OdChange {
                        variant: to_camel_case(a.name.as_str()),
                        element: Some(subindex),
                        value: Some(
                            crate::bytes::to_vec(a.values[subindex as usize - 1].as_slice()),
                        ),
                    },
                );
            }
            i += 1;
        }
        None
    }
}

// ---- Values by name ----

/// The first variable from `from` on with a name.
pub open spec fn cell_named(cells: Seq<CellView>, name: Seq<char>, from: int) -> Option<int>
    decreases cells.len() - from,
{
    if from < 0 || from >= cells.len() {
        None
    } else if cells[from].name == name {
        Some(from)
    } else {
        cell_named(cells, name, from + 1)
    }
}

/// The first array from `from` on with a name.
pub open spec fn array_named(arrays: Seq<ArrayCellView>, name: Seq<char>, from: int) -> Option<int>
    decreases arrays.len() - from,
{
    if from < 0 || from >= arrays.len() {
        None
    } else if arrays[from].name == name {
        Some(from)
    } else {
        array_named(arrays, name, from + 1)
    }
}

impl Table {
    fn named_cell(&self, name: &str) -> (r: Option<usize>)
        ensures
            match r {
                Some(i) => i < self.cells@.len() && cell_named(self@.cells, name@, 0) == Some(
                    i as int,
                ),
                None => cell_named(self@.cells, name@, 0) is None,
            },
    {
        let wanted = chars_of(name);
        let ghost all = self@.cells;
        let mut i: usize = 0;
        while i < self.cells.len()
            invariant
                i <= self.cells@.len(),
                wanted@ == name@,
                all == cell_views(self.cells@),
                cell_named(all, name@, 0) == cell_named(all, name@, i as int),
            decreases self.cells@.len() - i,
        {
            assert(all[i as int] == self.cells@[i as int]@);
            let n = chars_of(self.cells[i].name.as_str());
            if same_text(n.as_slice(), wanted.as_slice()) {
                return Some(i);
            }
            i += 1;
        }
        None
    }

    fn named_array(&self, name: &str) -> (r: Option<usize>)
        ensures
            match r {
                Some(i) => i < self.arrays@.len() && array_named(self@.arrays, name@, 0) == Some(
                    i as int,
                ),
                None => array_named(self@.arrays, name@, 0) is None,
            },
    {
        let wanted = chars_of(name);
        let ghost all = self@.arrays;
        let mut i: usize = 0;
        while i < self.arrays.len()
            invariant
                i <= self.arrays@.len(),
                wanted@ == name@,
                all == array_views(self.arrays@),
                array_named(all, name@, 0) == array_named(all, name@, i as int),
            decreases self.arrays@.len() - i,
        {
            assert(all[i as int] == self.arrays@[i as int]@);
            let n = chars_of(self.arrays[i].name.as_str());
            if same_text(n.as_slice(), wanted.as_slice()) {
                return Some(i);
            }
            i += 1;
        }
        None
    }

    /// The value of a variable.
    pub fn field(&self, name: &str) -> (r: Option<&Vec<u8>>)
        ensures
            match r {
                Some(v) => cell_named(self@.cells, name@, 0) matches Some(i) && v@
                    == self@.cells[i].value,
                None => cell_named(self@.cells, name@, 0) is None,
            },
    {
        match self.named_cell(name) {
            Some(i) => {
                assert(self@.cells[i as int] == self.cells@[i as int]@);
                Some(&self.cells[i].value)
            },
            None => None,
        }
    }

    /// Set the value of a variable, whatever its access over the bus. Returns
    /// false, and changes nothing, if there is no such variable or the value is
    /// not one of its type.
    pub fn set_field(&mut self, name: &str, value: &[u8]) -> (r: bool)
        ensures
            match cell_named(old(self)@.cells, name@, 0) {
                Some(i) => {
                    let c = old(self)@.cells[i];
                    &&& r == c.is_value(value@)
                    &&& final(self)@ == (if r {
                        TableView {
                            cells: old(self)@.cells.update(
                                i,
                                CellView { value: stored(c.data_type, value@), ..c },
                            ),
                            ..old(self)@
                        }
                    } else {
                        old(self)@
                    })
                },
                None => !r && final(self)@ == old(self)@,
            },
    {
        match self.named_cell(name) {
            Some(i) => {
                let ghost before = self@;
                assert(before.cells[i as int] == self.cells@[i as int]@);
                let r = self.cells[i].set(value);
                assert(self@.cells =~= before.cells.update(i as int, self.cells@[i as int]@));
                assert(!r ==> self@ =~= before);
                r
            },
            None => false,
        }
    }

    /// The values of an array.
    pub fn array(&self, name: &str) -> (r: Option<&Vec<Vec<u8>>>)
        ensures
            match r {
                Some(v) => array_named(self@.arrays, name@, 0) matches Some(i) && value_views(v@)
                    == self@.arrays[i].values,
                None => array_named(self@.arrays, name@, 0) is None,
            },
    {
        match self.named_array(name) {
            Some(i) => {
                assert(self@.arrays[i as int] == self.arrays@[i as int]@);
                Some(&self.arrays[i].values)
            },
            None => None,
        }
    }

    /// Set an element of an array, counted from 0, whatever its access over the
    /// bus. Returns false, and changes nothing, if there is no such element or
    /// the value is not one of its type.
    pub fn set_element(&mut self, name: &str, element: usize, value: &[u8]) -> (r: bool)
        ensures
            match array_named(old(self)@.arrays, name@, 0) {
                Some(i) => {
                    let a = old(self)@.arrays[i];
                    &&& r == (element < a.values.len() && a.data_type.spec_size() == Some(
                        value@.len() as usize,
                    ))
                    &&& final(self)@ == (if r {
                        TableView {
                            arrays: old(self)@.arrays.update(
                                i,
                                ArrayCellView {
                                    values: a.values.update(
                                        element as int,
                                        stored(a.data_type, value@),
                                    ),
                                    ..a
                                },
                            ),
                            ..old(self)@
                        }
                    } else {
                        old(self)@
                    })
                },
                None => !r && final(self)@ == old(self)@,
            },
    {
        match self.named_array(name) {
            Some(i) => {
                let ghost before = self@;
                assert(before.arrays[i as int] == self.arrays@[i as int]@);
                let r = self.arrays[i].set(element, value);
                assert(self@.arrays =~= before.arrays.update(i as int, self.arrays@[i as int]@));
                assert(!r ==> self@ =~= before);
                r
            },
            None => false,
        }
    }

    /// The value of an integer or boolean variable.
    pub fn field_int(&self, name: &str) -> (r: Option<i128>)
        ensures
            match r {
                Some(v) => {
                    &&& cell_named(self@.cells, name@, 0) matches Some(i)
                    &&& v == int_of(self@.cells[i].data_type, self@.cells[i].value)
                },
                None => match cell_named(self@.cells, name@, 0) {
                    Some(i) => self@.cells[i].value.len() > 8,
                    None => true,
                },
            },
    {
        match self.named_cell(name) {
            Some(i) => {
                assert(self@.cells[i as int] == self.cells@[i as int]@);
                let c = &self.cells[i];
                if c.value.len() > 8 {
                    return None;
                }
                Some(read_int(c.data_type, c.value.as_slice()))
            },
            None => None,
        }
    }
}

/// The unsigned number that bytes stand for, least significant first.
pub open spec fn unsigned_of(bytes: Seq<u8>) -> int
    decreases bytes.len(),
{
    if bytes.len() == 0 {
        0
    } else {
        bytes[0] + 0x100 * unsigned_of(bytes.skip(1))
    }
}

/// The number of values that so many bytes can take.
pub open spec fn span(bytes: nat) -> int
    decreases bytes,
{
    if bytes == 0 {
        1
    } else {
        0x100 * span((bytes - 1) as nat)
    }
}

/// A type of signed integers.
pub open spec fn is_signed(t: DataType) -> bool {
    match t {
        DataType::I8 | DataType::I16 | DataType::I24 | DataType::I32 | DataType::I64 => true,
        _ => false,
    }
}

/// The integer that bytes of a type stand for: in two's complement, if the
/// type is signed.
pub open spec fn int_of(t: DataType, bytes: Seq<u8>) -> int {
    let u = unsigned_of(bytes);
    if is_signed(t) && 2 * u >= span(bytes.len()) {
        u - span(bytes.len())
    } else {
        u
    }
}

fn read_int(t: DataType, bytes: &[u8]) -> (r: i128)
    requires
        bytes@.len() <= 8,
    ensures
        r == int_of(t, bytes@),
{
    let n: usize = bytes.len();
    let mut u: i128 = 0;
    let mut total: i128 = 1;
    let mut i: usize = n;
    assert(bytes@.skip(n as int) =~= Seq::<u8>::empty());
    proof {
        reveal_with_fuel(span, 9);
    }
    while i > 0
        invariant
            i <= n == bytes@.len(),
            n <= 8,
            u == unsigned_of(bytes@.skip(i as int)),
            total == span((n - i) as nat),
            0 <= u < total,
            total <= span(8),
            span(8) == 0x1_0000_0000_0000_0000,
            n - i < 8 ==> total <= 0x100_0000_0000_0000,
            forall|k: nat| k < 8 ==> #[trigger] span(k) <= 0x100_0000_0000_0000,
        decreases i,
    {
        assert(bytes@.skip(i - 1).skip(1) =~= bytes@.skip(i as int));
        u = bytes[i - 1] as i128 + 0x100 * u;
        total = 0x100 * total;
        i -= 1;
        assert(span((n - i) as nat) == 0x100 * span((n - i - 1) as nat));
    }
    assert(bytes@.skip(0) =~= bytes@);
    let signed = match t {
        DataType::I8 | DataType::I16 | DataType::I24 | DataType::I32 | DataType::I64 => true,
        _ => false,
    };
    if signed && 2 * u >= total {
        u - total
    } else {
        u
    }
}

} // verus!
