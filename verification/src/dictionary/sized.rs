//! A dictionary with its numbers of PDOs and SDO servers in its type, and with
//! application-level validation of writes.

use crate::cobid::NodeId;
use crate::datatypes::DataType;
use crate::dictionary::device::{change_view, OdChange};
use crate::dictionary::table::{meta_view, Table, TableView};
use crate::od::{ObjectDictionary, OdChanges, OdContents, OdEntryMeta, OdError, OdEvent};
use crate::pdo::config::{
    rpdo_views, tpdo_views, PdoConfigSource, RpdoConfig, RpdoView, TpdoConfig, TpdoView,
};
use crate::sdo::config::{SdoServerConfig, SdoServerConfigSource};
use vstd::prelude::*;

verus! {

/// Converts with `TryFrom<Vec<T>> for [T; N]`, which yields the items in an
/// array exactly if there are `N` of them, and else hands the vector back.
#[verifier::external_body]
fn to_array<T, const N: usize>(v: Vec<T>) -> (r: Result<[T; N], Vec<T>>)
    ensures
        r is Ok <==> v@.len() == N,
        r matches Ok(a) ==> a@ == v@,
        r matches Err(back) ==> back@ == v@,
{
    v.try_into()
}

/// Application-level validation of writes.
///
/// Of a function that an implementation does not define, nothing is known.
pub trait WriteCheck {
    /// The verdict on a write, given what the dictionary holds.
    closed spec fn verdict(&self, contents: TableView, index: u16, subindex: u8, data: Seq<u8>) -> Result<
        (),
        OdError,
    > {
        arbitrary()
    }

    /// Judge a write.
    fn check(&self, od: &Table, index: u16, subindex: u8, data: &[u8]) -> (r: Result<(), OdError>)
        ensures
            r == self.verdict(od@, index, subindex, data@),
    ;
}

/// Every write is admissible.
#[derive(Clone, Copy, Debug)]
pub struct AcceptAll;

impl WriteCheck for AcceptAll {
    open spec fn verdict(&self, contents: TableView, index: u16, subindex: u8, data: Seq<u8>) -> Result<
        (),
        OdError,
    > {
        Ok(())
    }

    fn check(&self, od: &Table, index: u16, subindex: u8, data: &[u8]) -> (r: Result<(), OdError>) {
        Ok(())
    }
}

/// A dictionary with `TPDO` transmit PDOs, `RPDO` receive PDOs and `SDO`
/// additional SDO servers.
#[derive(Clone, Debug)]
pub struct Device<V, const TPDO: usize, const RPDO: usize, const SDO: usize> {
    table: Table,
    check: V,
}

/// What a device's dictionary holds.
pub struct DeviceView<V> {
    pub table: TableView,
    pub check: V,
}

impl<V: WriteCheck> OdContents for DeviceView<V> {
    open spec fn type_of(&self, index: u16, subindex: u8) -> Option<DataType> {
        self.table.type_of(index, subindex)
    }

    open spec fn read_result(&self, index: u16, subindex: u8, capacity: nat) -> Result<
        Seq<u8>,
        OdError,
    > {
        self.table.read_result(index, subindex, capacity)
    }

    open spec fn write_result(&self, index: u16, subindex: u8, data: Seq<u8>) -> Result<
        (),
        OdError,
    > {
        self.table.write_result(index, subindex, data)
    }

    open spec fn after_write(&self, index: u16, subindex: u8, data: Seq<u8>) -> Self {
        DeviceView { table: self.table.after_write(index, subindex, data), ..*self }
    }

    open spec fn validate_result(&self, index: u16, subindex: u8, data: Seq<u8>) -> Result<
        (),
        OdError,
    > {
        self.check.verdict(self.table, index, subindex, data)
    }

    open spec fn subs_of(&self, index: u16) -> Option<u8> {
        self.table.subs_of(index)
    }

    open spec fn after_store_sdo_cob_ids(&self, node_id: NodeId) -> Self {
        DeviceView { table: self.table.after_store_sdo_cob_ids(node_id), ..*self }
    }
}

impl<V: WriteCheck, const TPDO: usize, const RPDO: usize, const SDO: usize> View for Device<
    V,
    TPDO,
    RPDO,
    SDO,
> {
    type V = DeviceView<V>;

    closed spec fn view(&self) -> DeviceView<V> {
        DeviceView { table: self.table@, check: self.check }
    }
}

/// A table has the given numbers of PDOs and SDO servers.
pub open spec fn has_counts(t: TableView, tpdos: nat, rpdos: nat, servers: nat) -> bool {
    t.tpdos.len() == tpdos && t.rpdos.len() == rpdos && t.servers.len() == servers
}

/// A list cut or filled up to a length.
pub open spec fn fitted<T>(list: Seq<T>, n: nat, blank: T) -> Seq<T> {
    Seq::new(
        n,
        |i: int|
            if i < list.len() {
                list[i]
            } else {
                blank
            },
    )
}

/// A list of the right length needs no fitting.
pub proof fn lemma_fitted<T>(list: Seq<T>, blank: T)
    ensures
        fitted(list, list.len(), blank) == list,
{
    assert(fitted(list, list.len(), blank) =~= list);
}

impl<V: WriteCheck, const TPDO: usize, const RPDO: usize, const SDO: usize> Device<
    V,
    TPDO,
    RPDO,
    SDO,
> {
    /// Put a dictionary into a device. `None` if its numbers of PDOs and SDO
    /// servers are not those of the type.
    pub fn new(table: Table, check: V) -> (r: Option<Self>)
        ensures
            r is Some <==> has_counts(table@, TPDO as nat, RPDO as nat, SDO as nat),
            r matches Some(d) ==> d@ == (DeviceView { table: table@, check }),
    {
        if table.tpdos.len() == TPDO && table.rpdos.len() == RPDO && table.servers.len() == SDO {
            Some(Device { table, check })
        } else {
            None
        }
    }

    /// The dictionary.
    pub fn table(&self) -> (r: &Table)
        ensures
            r@ == self@.table,
    {
        &self.table
    }

    /// The dictionary, for changing values by name.
    pub fn table_mut(&mut self) -> (r: &mut Table)
        ensures
            r@ == old(self)@.table,
            final(self)@ == (DeviceView { table: final(r)@, ..old(self)@ }),
    {
        &mut self.table
    }
}

impl<
    V: WriteCheck,
    const TPDO: usize,
    const RPDO: usize,
    const SDO: usize,
> ObjectDictionary for Device<V, TPDO, RPDO, SDO> {
    type Contents = DeviceView<V>;

    open spec fn contents(&self) -> DeviceView<V> {
        self@
    }

    fn lookup(&self, index: u16, subindex: u8) -> (r: Option<OdEntryMeta>)
        ensures
            match r {
                Some(m) => self@.table.meta_of(index, subindex) == Some(meta_view(m)),
                None => self@.table.meta_of(index, subindex) is None,
            },
    {
        self.table.lookup(index, subindex)
    }

    fn read(&self, index: u16, subindex: u8, buf: &mut [u8]) -> (r: Result<usize, OdError>) {
        self.table.read(index, subindex, buf)
    }

    fn write(&mut self, index: u16, subindex: u8, data: &[u8]) -> (r: Result<(), OdError>) {
        self.table.write(index, subindex, data)
    }

    fn validate_write(&self, index: u16, subindex: u8, data: &[u8]) -> (r: Result<(), OdError>) {
        self.check.check(&self.table, index, subindex, data)
    }

    fn sub_count(&self, index: u16) -> (r: Option<u8>) {
        self.table.sub_count(index)
    }

    fn store_sdo_server_cob_ids(&mut self, node_id: NodeId) {
        self.table.store_sdo_server_cob_ids(node_id);
    }
}

impl<V: WriteCheck, const TPDO: usize, const RPDO: usize, const SDO: usize> OdChanges for Device<
    V,
    TPDO,
    RPDO,
    SDO,
> {
    type Change = OdChange;

    open spec fn decodes(
        contents: DeviceView<V>,
        event: OdEvent,
        change: Option<OdChange>,
    ) -> bool {
        change_view(change) == contents.table.change_at(event.index, event.subindex)
    }

    fn decode_event(&self, event: OdEvent) -> (r: Option<OdChange>) {
        self.table.decode_event(event)
    }
}

impl<
    V: WriteCheck,
    const TPDO: usize,
    const RPDO: usize,
    const SDO: usize,
> PdoConfigSource<TPDO, RPDO> for Device<V, TPDO, RPDO, SDO> {
    open spec fn declared_tpdos(&self, node_id: NodeId) -> Seq<TpdoView> {
        fitted(self@.table.tpdo_list(node_id), TPDO as nat, TpdoView::blank())
    }

    open spec fn declared_rpdos(&self, node_id: NodeId) -> Seq<RpdoView> {
        fitted(self@.table.rpdo_list(node_id), RPDO as nat, RpdoView::blank())
    }

    fn tpdo_configs(&self, node_id: NodeId) -> (r: [TpdoConfig; TPDO]) {
        let list = self.table.tpdo_configs(node_id);
        let ghost views = tpdo_views(list@);
        let ghost goal = fitted(views, TPDO as nat, TpdoView::blank());
        let mut v: Vec<TpdoConfig> = Vec::new();
        let mut i: usize = 0;
        assert(tpdo_views(v@) =~= goal.take(0));
        while i < TPDO
            invariant
                i <= TPDO,
                views == tpdo_views(list@),
                goal == fitted(views, TPDO as nat, TpdoView::blank()),
                v@.len() == i,
                tpdo_views(v@) == goal.take(i as int),
            decreases TPDO - i,
        {
            let ghost before = v@;
            let c = if i < list.len() {
                assert(views[i as int] == list@[i as int]@);
                list[i].clone()
            } else {
                TpdoConfig::default()
            };
            v.push(c);
            i += 1;
            assert(tpdo_views(v@) =~= tpdo_views(before).push(c@));
            assert(goal.take(i as int) =~= goal.take(i - 1).push(goal[i - 1]));
        }
        assert(goal.take(i as int) =~= goal);
        match to_array::<TpdoConfig, TPDO>(v) {
            Ok(a) => a,
            Err(_) => {
                assert(false);
                vstd::pervasive::unreached()
            },
        }
    }

    fn rpdo_configs(&self, node_id: NodeId) -> (r: [RpdoConfig; RPDO]) {
        let list = self.table.rpdo_configs(node_id);
        let ghost views = rpdo_views(list@);
        let ghost goal = fitted(views, RPDO as nat, RpdoView::blank());
        let mut v: Vec<RpdoConfig> = Vec::new();
        let mut i: usize = 0;
        assert(rpdo_views(v@) =~= goal.take(0));
        while i < RPDO
            invariant
                i <= RPDO,
                views == rpdo_views(list@),
                goal == fitted(views, RPDO as nat, RpdoView::blank()),
                v@.len() == i,
                rpdo_views(v@) == goal.take(i as int),
            decreases RPDO - i,
        {
            let ghost before = v@;
            let c = if i < list.len() {
                assert(views[i as int] == list@[i as int]@);
                list[i].clone()
            } else {
                RpdoConfig::default()
            };
            v.push(c);
            i += 1;
            assert(rpdo_views(v@) =~= rpdo_views(before).push(c@));
            assert(goal.take(i as int) =~= goal.take(i - 1).push(goal[i - 1]));
        }
        assert(goal.take(i as int) =~= goal);
        match to_array::<RpdoConfig, RPDO>(v) {
            Ok(a) => a,
            Err(_) => {
                assert(false);
                vstd::pervasive::unreached()
            },
        }
    }
}

impl<
    V: WriteCheck,
    const TPDO: usize,
    const RPDO: usize,
    const SDO: usize,
> SdoServerConfigSource<SDO> for Device<V, TPDO, RPDO, SDO> {
    open spec fn declared_sdo_servers(&self, node_id: NodeId) -> Seq<SdoServerConfig> {
        fitted(
            self@.table.server_list(node_id),
            SDO as nat,
            SdoServerConfig { cob_rx: 0, cob_tx: 0 },
        )
    }

    fn sdo_server_configs(&self, node_id: NodeId) -> (r: [SdoServerConfig; SDO]) {
        let list = self.table.sdo_server_configs(node_id);
        let blank = SdoServerConfig { cob_rx: 0, cob_tx: 0 };
        let ghost goal = fitted(list@, SDO as nat, blank);
        let mut v: Vec<SdoServerConfig> = Vec::new();
        let mut i: usize = 0;
        while i < SDO
            invariant
                i <= SDO,
                goal == fitted(list@, SDO as nat, blank),
                v@ == goal.take(i as int),
            decreases SDO - i,
        {
            if i < list.len() {
                v.push(list[i]);
            } else {
                v.push(blank);
            }
            i += 1;
            assert(v@ =~= goal.take(i as int));
        }
        assert(goal.take(i as int) =~= goal);
        match to_array::<SdoServerConfig, SDO>(v) {
            Ok(a) => a,
            Err(_) => {
                assert(false);
                vstd::pervasive::unreached()
            },
        }
    }
}

} // verus!
