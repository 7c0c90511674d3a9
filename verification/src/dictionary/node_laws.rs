//! What holds of a described dictionary on the network: over SDO, and inside a
//! node.

use crate::bytes::{lemma_u32_bytes_roundtrip, padded, u32_bytes};
use crate::cobid::NodeId;
use crate::dictionary::definition::PdoDirection;
use crate::dictionary::laws::{lemma_write_elsewhere, lemma_write_then_read};
use crate::dictionary::sized::{DeviceView, WriteCheck};
use crate::dictionary::table::{
    array_at, cell_at, comm_base, lemma_cell_at, lemma_slot_at, pdo_place, slot_at, stored,
    PdoPlace, SlotView, TableView,
};
use crate::lss::LssIdentity;
use crate::node::model::{
    cob_id_entry, record_index, rpdo_from_od, tpdo_from_od, with_rpdo_cob_ids, with_tpdo_cob_ids,
    ExtraModel, NodeModel, RPDO_COMM, TPDO_COMM,
};
use crate::nmt::NmtState;
use crate::od::{AccessType, OdContents, OdError, OdEvent};
use crate::pdo::config::{RpdoView, TpdoView};
use crate::sdo::client::{download_request, upload_request, ClientModel, ClientReply, State};
use crate::sdo::conversation::{
    converse, lemma_download_delivers, lemma_upload_delivers, ready, Setting,
};
use crate::sdo::server::{pdo_config_index, read_u32, write_fault, ServerModel, MAX_TRANSFER};
use vstd::prelude::*;

verus! {

/// What a client wrote to a readable variable over SDO, any client reads from
/// it over SDO afterwards: a boolean as 0 or 1, any other value as it was
/// written. (The expedited format cannot express an empty value.)
pub proof fn lemma_sdo_write_then_read(
    t: TableView,
    writer: ClientModel,
    reader: ClientModel,
    server: ServerModel,
    events: Seq<OdEvent>,
    setting: Setting,
    index: u16,
    subindex: u8,
    data: Seq<u8>,
    rounds: nat,
)
    requires
        cell_at(t.cells, index, subindex, 0) matches Some(i) && t.cells[i].access == AccessType::Rw,
        write_fault(t, index, subindex, data) is None,
        t.write_result(index, subindex, data) is Ok,
        writer.state == (State::WaitingDownloadInitResponse { index, subindex }),
        writer.total == data.len(),
        data.len() > 4 ==> writer.offset == 0 && data.len() <= writer.buf.len()
            && writer.buf.take(data.len() as int) == data,
        reader.state == (State::WaitingUploadInitResponse { index, subindex }),
        reader.offset == 0,
        0 < data.len() <= reader.buf.len(),
        data.len() <= MAX_TRANSFER,
        ready(server),
        !(setting.nmt == NmtState::Operational && pdo_config_index(index)),
        data.len() <= 7 * rounds,
    ensures
        ({
            let i = cell_at(t.cells, index, subindex, 0)->0;
            let value = stored(t.cells[i].data_type, data);
            let w = converse(
                writer,
                server,
                t,
                events,
                setting,
                download_request(index, subindex, data),
                rounds,
            );
            let r = converse(
                reader,
                w.server,
                w.od,
                w.events,
                setting,
                upload_request(index, subindex),
                rounds,
            );
            &&& w.reply == ClientReply::DownloadComplete
            &&& r.reply == ClientReply::UploadComplete(value.len())
            &&& r.client.buf.take(r.client.offset as int) == value
        }),
{
    let i = cell_at(t.cells, index, subindex, 0)->0;
    let value = stored(t.cells[i].data_type, data);
    lemma_cell_at(t.cells, index, subindex, 0);
    lemma_download_delivers(writer, server, t, events, setting, index, subindex, data, rounds);
    let w = converse(
        writer,
        server,
        t,
        events,
        setting,
        download_request(index, subindex, data),
        rounds,
    );
    lemma_write_then_read(t, index, subindex, data);
    assert(value.len() == data.len());
    lemma_upload_delivers(reader, w.server, w.od, w.events, setting, index, subindex, rounds);
}

/// The same holds of a dictionary whose application checks writes, for what the
/// application admits.
pub proof fn lemma_checked_write_then_read<V: WriteCheck>(
    d: DeviceView<V>,
    writer: ClientModel,
    reader: ClientModel,
    server: ServerModel,
    events: Seq<OdEvent>,
    setting: Setting,
    index: u16,
    subindex: u8,
    data: Seq<u8>,
    rounds: nat,
)
    requires
        cell_at(d.table.cells, index, subindex, 0) matches Some(i) && d.table.cells[i].access
            == AccessType::Rw,
        write_fault(d, index, subindex, data) is None,
        d.write_result(index, subindex, data) is Ok,
        writer.state == (State::WaitingDownloadInitResponse { index, subindex }),
        writer.total == data.len(),
        data.len() > 4 ==> writer.offset == 0 && data.len() <= writer.buf.len()
            && writer.buf.take(data.len() as int) == data,
        reader.state == (State::WaitingUploadInitResponse { index, subindex }),
        reader.offset == 0,
        0 < data.len() <= reader.buf.len(),
        data.len() <= MAX_TRANSFER,
        ready(server),
        !(setting.nmt == NmtState::Operational && pdo_config_index(index)),
        data.len() <= 7 * rounds,
    ensures
        ({
            let i = cell_at(d.table.cells, index, subindex, 0)->0;
            let value = stored(d.table.cells[i].data_type, data);
            let w = converse(
                writer,
                server,
                d,
                events,
                setting,
                download_request(index, subindex, data),
                rounds,
            );
            let r = converse(
                reader,
                w.server,
                w.od,
                w.events,
                setting,
                upload_request(index, subindex),
                rounds,
            );
            &&& w.reply == ClientReply::DownloadComplete
            &&& r.reply == ClientReply::UploadComplete(value.len())
            &&& r.client.buf.take(r.client.offset as int) == value
        }),
{
    let i = cell_at(d.table.cells, index, subindex, 0)->0;
    let value = stored(d.table.cells[i].data_type, data);
    lemma_cell_at(d.table.cells, index, subindex, 0);
    lemma_download_delivers(writer, server, d, events, setting, index, subindex, data, rounds);
    let w = converse(
        writer,
        server,
        d,
        events,
        setting,
        download_request(index, subindex, data),
        rounds,
    );
    lemma_write_then_read(d.table, index, subindex, data);
    assert(value.len() == data.len());
    lemma_upload_delivers(reader, w.server, w.od, w.events, setting, index, subindex, rounds);
}

// ---- COB-IDs ----

/// The communication parameters of a PDO are those of the dictionary's PDO with
/// its number; no variable or array lies in their place.
#[verifier::opaque]
pub open spec fn declares(t: TableView, direction: PdoDirection, number: u16) -> bool {
    let index = (comm_base(direction) + number - 1) as u16;
    &&& 1 <= number <= 512
    &&& slot_at(t.slots(direction), number as int, 0) is Some
    &&& cell_at(t.cells, index, 1, 0) is None
    &&& array_at(t.arrays, index, 1, 0) is None
}

/// The transmit PDOs of a configuration are declared, each once, with a COB-ID
/// where they are enabled.
pub open spec fn tpdos_declared(t: TableView, pdos: Seq<TpdoView>) -> bool {
    &&& forall|i: int|
        0 <= i < pdos.len() ==> declares(t, PdoDirection::Tpdo, (#[trigger] pdos[i]).od_number)
            && pdos[i].cob_id <= 0x7FF && (pdos[i].enabled ==> pdos[i].cob_id != 0)
    &&& forall|i: int, j: int|
        0 <= i < j < pdos.len() ==> (#[trigger] pdos[i]).od_number != (
        #[trigger] pdos[j]).od_number
}

/// The receive PDOs of a configuration are declared, each once, with a COB-ID
/// where they are enabled.
pub open spec fn rpdos_declared(t: TableView, pdos: Seq<RpdoView>) -> bool {
    &&& forall|i: int|
        0 <= i < pdos.len() ==> declares(t, PdoDirection::Rpdo, (#[trigger] pdos[i]).od_number)
            && pdos[i].cob_id <= 0x7FF && (pdos[i].enabled ==> pdos[i].cob_id != 0)
    &&& forall|i: int, j: int|
        0 <= i < j < pdos.len() ==> (#[trigger] pdos[i]).od_number != (
        #[trigger] pdos[j]).od_number
}

/// The COB-ID entry of a communication parameter record.
#[verifier::opaque]
spec fn cob_entry(t: TableView, index: u16) -> Option<u32> {
    read_u32(t, index, 1)
}

/// A write to one record leaves the COB-IDs in the others alone.
proof fn lemma_cob_entry_elsewhere(t: TableView, index: u16, data: Seq<u8>, other: u16)
    requires
        other != index,
    ensures
        cob_entry(t.after_write(index, 1, data), other) == cob_entry(t, other),
{
    lemma_write_elsewhere(t, index, 1, data, other, 1);
    reveal(cob_entry);
}

/// The record of a declared PDO.
proof fn lemma_record_index(t: TableView, direction: PdoDirection, number: u16, slot: int)
    requires
        declares(t, direction, number),
    ensures
        1 <= number <= 512,
        direction == PdoDirection::Tpdo ==> record_index(TPDO_COMM, number, slot) == comm_base(
            direction,
        ) + number - 1,
        direction == PdoDirection::Rpdo ==> record_index(RPDO_COMM, number, slot) == comm_base(
            direction,
        ) + number - 1,
{
    reveal(declares);
}

proof fn lemma_number_kept(slots: Seq<SlotView>, i: int, s: SlotView, number: int, from: int)
    requires
        0 <= i < slots.len(),
        s.number == slots[i].number,
        0 <= from,
    ensures
        slot_at(slots.update(i, s), number, from) == slot_at(slots, number, from),
    decreases slots.len() - from,
{
    if from < slots.len() {
        lemma_number_kept(slots, i, s, number, from + 1);
    }
}

/// A COB-ID that is written to a declared PDO is read back, and every other
/// declared PDO stays declared.
proof fn lemma_cob_id_written(t: TableView, direction: PdoDirection, number: u16, value: u32)
    requires
        declares(t, direction, number),
    ensures
        ({
            let index = (comm_base(direction) + number - 1) as u16;
            let after = t.after_write(index, 1, u32_bytes(value));
            &&& cob_entry(after, index) == Some(value)
            &&& forall|d: PdoDirection, n: u16| #[trigger]
                declares(t, d, n) ==> declares(after, d, n)
        }),
{
    let index = (comm_base(direction) + number - 1) as u16;
    let data = u32_bytes(value);
    let slots = t.slots(direction);
    let after = t.after_write(index, 1, data);
    reveal(declares);
    reveal(cob_entry);
    lemma_slot_at(slots, number as int, 0);
    let i = slot_at(slots, number as int, 0)->0;
    lemma_u32_bytes_roundtrip(value, data);
    assert(pdo_place(direction, slots, index, 1) == PdoPlace::Comm(i));
    let s = slots[i].comm_written(1, data);
    assert(after == t.with_slots(direction, slots.update(i, s)));
    assert forall|d: PdoDirection, n: u16| #[trigger] declares(t, d, n) implies declares(
        after,
        d,
        n,
    ) by {
        lemma_number_kept(slots, i, s, n as int, 0);
    }
    lemma_number_kept(slots, i, s, number as int, 0);
    assert(after.value_of(index, 1) == Ok::<Seq<u8>, OdError>(u32_bytes(value)));
    assert(padded(data, 4) =~= data);
}

proof fn lemma_tpdo_cob_ids(t: TableView, pdos: Seq<TpdoView>, n: int)
    requires
        tpdos_declared(t, pdos),
        0 <= n <= pdos.len(),
    ensures
        ({
            let after = with_tpdo_cob_ids(t, pdos, n);
            &&& forall|i: int|
                0 <= i < n ==> cob_entry(
                    after,
                    record_index(TPDO_COMM, (#[trigger] pdos[i]).od_number, i),
                ) == Some(cob_id_entry(pdos[i].cob_id, pdos[i].enabled))
            &&& forall|d: PdoDirection, k: u16| #[trigger]
                declares(t, d, k) ==> declares(after, d, k)
        }),
    decreases n,
{
    if n > 0 {
        lemma_tpdo_cob_ids(t, pdos, n - 1);
        let before = with_tpdo_cob_ids(t, pdos, n - 1);
        let p = pdos[n - 1];
        let value = cob_id_entry(p.cob_id, p.enabled);
        let index = record_index(TPDO_COMM, p.od_number, n - 1);
        assert(declares(t, PdoDirection::Tpdo, p.od_number));
        assert(declares(before, PdoDirection::Tpdo, p.od_number));
        lemma_cob_id_written(before, PdoDirection::Tpdo, p.od_number, value);
        lemma_record_index(t, PdoDirection::Tpdo, p.od_number, n - 1);
        assert forall|i: int| 0 <= i < n implies cob_entry(
            with_tpdo_cob_ids(t, pdos, n),
            record_index(TPDO_COMM, (#[trigger] pdos[i]).od_number, i),
        ) == Some(cob_id_entry(pdos[i].cob_id, pdos[i].enabled)) by {
            if i < n - 1 {
                let other = record_index(TPDO_COMM, pdos[i].od_number, i);
                assert(declares(t, PdoDirection::Tpdo, pdos[i].od_number));
                assert(pdos[i].od_number != p.od_number);
                lemma_record_index(t, PdoDirection::Tpdo, pdos[i].od_number, i);
                lemma_cob_entry_elsewhere(before, index, u32_bytes(value), other);
            }
        }
    }
}

proof fn lemma_rpdo_cob_ids(t: TableView, pdos: Seq<RpdoView>, n: int)
    requires
        rpdos_declared(t, pdos),
        0 <= n <= pdos.len(),
    ensures
        ({
            let after = with_rpdo_cob_ids(t, pdos, n);
            &&& forall|i: int|
                0 <= i < n ==> cob_entry(
                    after,
                    record_index(RPDO_COMM, (#[trigger] pdos[i]).od_number, i),
                ) == Some(cob_id_entry(pdos[i].cob_id, pdos[i].enabled))
            &&& forall|d: PdoDirection, k: u16| #[trigger]
                declares(t, d, k) ==> declares(after, d, k)
        }),
    decreases n,
{
    if n > 0 {
        lemma_rpdo_cob_ids(t, pdos, n - 1);
        let before = with_rpdo_cob_ids(t, pdos, n - 1);
        let p = pdos[n - 1];
        let value = cob_id_entry(p.cob_id, p.enabled);
        let index = record_index(RPDO_COMM, p.od_number, n - 1);
        assert(declares(t, PdoDirection::Rpdo, p.od_number));
        assert(declares(before, PdoDirection::Rpdo, p.od_number));
        lemma_cob_id_written(before, PdoDirection::Rpdo, p.od_number, value);
        lemma_record_index(t, PdoDirection::Rpdo, p.od_number, n - 1);
        assert forall|i: int| 0 <= i < n implies cob_entry(
            with_rpdo_cob_ids(t, pdos, n),
            record_index(RPDO_COMM, (#[trigger] pdos[i]).od_number, i),
        ) == Some(cob_id_entry(pdos[i].cob_id, pdos[i].enabled)) by {
            if i < n - 1 {
                let other = record_index(RPDO_COMM, pdos[i].od_number, i);
                assert(declares(t, PdoDirection::Rpdo, pdos[i].od_number));
                assert(pdos[i].od_number != p.od_number);
                lemma_record_index(t, PdoDirection::Rpdo, pdos[i].od_number, i);
                lemma_cob_entry_elsewhere(before, index, u32_bytes(value), other);
            }
        }
    }
}

/// Storing the COB-IDs of receive PDOs leaves those of transmit PDOs alone.
proof fn lemma_rpdo_cob_ids_apart(t: TableView, pdos: Seq<RpdoView>, n: int, index: u16)
    requires
        rpdos_declared(t, pdos),
        0 <= n <= pdos.len(),
        0x1800 <= index < 0x1A00,
    ensures
        cob_entry(with_rpdo_cob_ids(t, pdos, n), index) == cob_entry(t, index),
    decreases n,
{
    if n > 0 {
        let before = with_rpdo_cob_ids(t, pdos, n - 1);
        let p = pdos[n - 1];
        lemma_rpdo_cob_ids_apart(t, pdos, n - 1, index);
        assert(declares(t, PdoDirection::Rpdo, p.od_number));
        let at = record_index(RPDO_COMM, p.od_number, n - 1);
        lemma_record_index(t, PdoDirection::Rpdo, p.od_number, n - 1);
        let data = u32_bytes(cob_id_entry(p.cob_id, p.enabled));
        lemma_cob_entry_elsewhere(before, at, data, index);
    }
}

/// A node reads from its dictionary the COB-ID that was stored for a PDO.
proof fn lemma_cob_id_read<OD: OdContents>(
    od: OD,
    tpdo: TpdoView,
    rpdo: RpdoView,
    slot: int,
)
    ensures
        tpdo.cob_id <= 0x7FF && (tpdo.enabled ==> tpdo.cob_id != 0) && read_u32(
            od,
            record_index(TPDO_COMM, tpdo.od_number, slot),
            1,
        ) == Some(cob_id_entry(tpdo.cob_id, tpdo.enabled)) ==> tpdo_from_od(od, tpdo, slot).cob_id
            == tpdo.cob_id && tpdo_from_od(od, tpdo, slot).enabled == tpdo.enabled,
        rpdo.cob_id <= 0x7FF && (rpdo.enabled ==> rpdo.cob_id != 0) && read_u32(
            od,
            record_index(RPDO_COMM, rpdo.od_number, slot),
            1,
        ) == Some(cob_id_entry(rpdo.cob_id, rpdo.enabled)) ==> rpdo_from_od(od, rpdo, slot).cob_id
            == rpdo.cob_id && rpdo_from_od(od, rpdo, slot).enabled == rpdo.enabled,
{
}

/// What the dictionary of a new node holds of the COB-IDs of its PDOs.
proof fn lemma_stored_cob_ids(
    t: TableView,
    node: NodeId,
    tpdo: Seq<TpdoView>,
    rpdo: Seq<RpdoView>,
    i: int,
)
    requires
        tpdos_declared(t, tpdo),
        rpdos_declared(t, rpdo),
    ensures
        ({
            let with_tpdo = with_tpdo_cob_ids(t, tpdo, tpdo.len() as int);
            let od = with_rpdo_cob_ids(
                with_tpdo,
                rpdo,
                rpdo.len() as int,
            ).after_store_sdo_cob_ids(node);
            &&& 0 <= i < tpdo.len() ==> cob_entry(
                od,
                record_index(TPDO_COMM, tpdo[i].od_number, i),
            ) == Some(cob_id_entry(tpdo[i].cob_id, tpdo[i].enabled))
            &&& 0 <= i < rpdo.len() ==> cob_entry(
                od,
                record_index(RPDO_COMM, rpdo[i].od_number, i),
            ) == Some(cob_id_entry(rpdo[i].cob_id, rpdo[i].enabled))
        }),
{
    let with_tpdo = with_tpdo_cob_ids(t, tpdo, tpdo.len() as int);
    lemma_tpdo_cob_ids(t, tpdo, tpdo.len() as int);
    assert(rpdos_declared(with_tpdo, rpdo)) by {
        assert forall|k: int| 0 <= k < rpdo.len() implies declares(
            with_tpdo,
            PdoDirection::Rpdo,
            (#[trigger] rpdo[k]).od_number,
        ) by {
            assert(declares(t, PdoDirection::Rpdo, rpdo[k].od_number));
        }
    }
    lemma_rpdo_cob_ids(with_tpdo, rpdo, rpdo.len() as int);
    let with_pdos = with_rpdo_cob_ids(with_tpdo, rpdo, rpdo.len() as int);
    if 0 <= i < tpdo.len() {
        let index = record_index(TPDO_COMM, tpdo[i].od_number, i);
        assert(declares(t, PdoDirection::Tpdo, tpdo[i].od_number));
        assert(declares(with_tpdo, PdoDirection::Tpdo, tpdo[i].od_number));
        assert(declares(with_pdos, PdoDirection::Tpdo, tpdo[i].od_number));
        lemma_record_index(t, PdoDirection::Tpdo, tpdo[i].od_number, i);
        lemma_rpdo_cob_ids_apart(with_tpdo, rpdo, rpdo.len() as int, index);
        lemma_servers_apart(with_pdos, node, PdoDirection::Tpdo, tpdo[i].od_number);
    }
    if 0 <= i < rpdo.len() {
        lemma_record_index(t, PdoDirection::Rpdo, rpdo[i].od_number, i);
        assert(declares(t, PdoDirection::Rpdo, rpdo[i].od_number));
        assert(declares(with_tpdo, PdoDirection::Rpdo, rpdo[i].od_number));
        assert(declares(with_pdos, PdoDirection::Rpdo, rpdo[i].od_number));
        lemma_servers_apart(with_pdos, node, PdoDirection::Rpdo, rpdo[i].od_number);
    }
}

/// The COB-IDs that a node starts with survive a reset: the node stores them in
/// its dictionary, and finds them there when it reads its configuration again.
pub proof fn lemma_cob_ids_survive_reset(
    t: TableView,
    node: NodeId,
    heartbeat_interval_ms: u16,
    auto_start: bool,
    tpdo: Seq<TpdoView>,
    rpdo: Seq<RpdoView>,
    extra: Seq<ExtraModel>,
    identity: LssIdentity,
    i: int,
)
    requires
        tpdos_declared(t, tpdo),
        rpdos_declared(t, rpdo),
    ensures
        ({
            let m = NodeModel::fresh(
                node,
                heartbeat_interval_ms,
                auto_start,
                tpdo,
                rpdo,
                extra,
                identity,
                t,
            ).local_reset();
            &&& 0 <= i < tpdo.len() ==> m.tpdo.pdos[i].cob_id == tpdo[i].cob_id
                && m.tpdo.pdos[i].enabled == tpdo[i].enabled
            &&& 0 <= i < rpdo.len() ==> m.rpdo.pdos[i].cob_id == rpdo[i].cob_id
                && m.rpdo.pdos[i].enabled == rpdo[i].enabled
        }),
{
    let with_tpdo = with_tpdo_cob_ids(t, tpdo, tpdo.len() as int);
    let od = with_rpdo_cob_ids(with_tpdo, rpdo, rpdo.len() as int).after_store_sdo_cob_ids(node);
    lemma_stored_cob_ids(t, node, tpdo, rpdo, i);
    lemma_cob_id_read(od, tpdo[i], rpdo[i], i);
    reveal(cob_entry);
}

/// Storing the COB-IDs of SDO servers leaves those of PDOs alone.
proof fn lemma_servers_apart(t: TableView, node: NodeId, direction: PdoDirection, number: u16)
    requires
        declares(t, direction, number),
    ensures
        ({
            let index = (comm_base(direction) + number - 1) as u16;
            cob_entry(t.after_store_sdo_cob_ids(node), index) == cob_entry(t, index)
        }),
{
    reveal(declares);
    reveal(cob_entry);
    let index = (comm_base(direction) + number - 1) as u16;
    let slots = t.slots(direction);
    let i = slot_at(slots, number as int, 0)->0;
    assert(pdo_place(direction, slots, index, 1) == PdoPlace::Comm(i));
}

} // verus!
