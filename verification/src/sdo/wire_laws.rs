//! What an SDO server answers, byte by byte.

use crate::bytes::{lemma_u32_bytes_roundtrip, le_u32, padded, u32_bytes};
use crate::nmt::NmtState;
use crate::od::{OdContents, OdError, OdEvent, OdEventSource};
use crate::sdo::protocol::{abort_frame, AbortCode};
use crate::sdo::server::{
    abort_for, crc16, entry_monitors, BlockDownloadModel, DownloadModel, ServerModel,
    TransferModel, UploadModel,
};
use vstd::prelude::*;

verus! {

/// A request or response about an object: the command, the index with its low
/// byte first, the subindex and four bytes.
pub open spec fn message(cmd: u8, index: u16, sub: u8, tail: Seq<u8>) -> Seq<u8> {
    seq![cmd, (index % 256) as u8, (index / 256) as u8, sub] + tail
}

/// A number as four bytes, least significant first.
pub open spec fn four(n: u32) -> Seq<u8> {
    seq![
        (n % 256) as u8,
        (n / 256 % 256) as u8,
        (n / 65536 % 256) as u8,
        (n / 16777216) as u8,
    ]
}

/// The CiA 301 abort code that reports an error of the dictionary.
pub open spec fn reported_as(e: OdError) -> u32 {
    match e {
        OdError::NotFound => 0x0602_0000,
        OdError::ReadOnly => 0x0601_0002,
        OdError::WriteOnly => 0x0601_0001,
        OdError::DataTypeMismatch => 0x0609_0043,
        OdError::ValueTooLong => 0x0504_0005,
        OdError::ValueRange => 0x0609_0030,
        OdError::HardwareError => 0x0800_0000,
    }
}

/// The server does not wait for the segments of a block.
pub open spec fn is_open(server: ServerModel) -> bool {
    server.transfer matches Some(TransferModel::BlockDownload(t)) ==> t.awaiting_end
}

/// A read of up to four bytes is answered with these bytes, of which the
/// command byte says how many there are; a longer one with the length; a refused
/// one with the code of the error. The dictionary stays as it is.
pub proof fn lemma_read_is_answered<OD: OdContents>(
    server: ServerModel,
    od: OD,
    events: Seq<OdEvent>,
    capacity: nat,
    index: u16,
    sub: u8,
    tail: Seq<u8>,
    nmt: NmtState,
    now: u64,
)
    requires
        is_open(server),
        tail.len() == 4,
        od.read_result(index, sub, 889) matches Ok(data) ==> data.len() <= 889,
    ensures
        ({
            let st = server.step(od, events, capacity, message(0x40, index, sub, tail), nmt, now);
            &&& st.od == od
            &&& st.events == events
            &&& st.server.committed == server.committed
            &&& match od.read_result(index, sub, 889) {
                Ok(data) => {
                    &&& data.len() == 1 ==> st.response == Some(
                        message(0x4F, index, sub, data + seq![0u8, 0, 0]),
                    )
                    &&& data.len() == 2 ==> st.response == Some(
                        message(0x4B, index, sub, data + seq![0u8, 0]),
                    )
                    &&& data.len() == 3 ==> st.response == Some(
                        message(0x47, index, sub, data + seq![0u8]),
                    )
                    &&& data.len() == 4 ==> st.response == Some(message(0x43, index, sub, data))
                    &&& data.len() <= 4 ==> st.server.transfer is None
                    &&& data.len() > 4 ==> st.response == Some(
                        message(0x41, index, sub, four(data.len() as u32)),
                    )
                },
                Err(e) => {
                    &&& st.response == Some(message(0x80, index, sub, four(reported_as(e))))
                    &&& st.server == server
                },
            }
        }),
{
    let req = message(0x40, index, sub, tail);
    lemma_message(0x40, index, sub, tail);
    if let Ok(data) = od.read_result(index, sub, 889) {
        let response = server.step(od, events, capacity, req, nmt, now).response;
        if data.len() == 1 {
            assert(padded(data, 4) =~= data + seq![0u8, 0, 0]);
        } else if data.len() == 2 {
            assert(padded(data, 4) =~= data + seq![0u8, 0]);
        } else if data.len() == 3 {
            assert(padded(data, 4) =~= data + seq![0u8]);
        } else if data.len() == 4 {
            assert(padded(data, 4) =~= data);
        }
    }
}

proof fn lemma_message(cmd: u8, index: u16, sub: u8, tail: Seq<u8>)
    requires
        tail.len() == 4,
    ensures
        message(cmd, index, sub, tail).len() == 8,
        message(cmd, index, sub, tail)[0] == cmd,
        crate::sdo::protocol::index_of(message(cmd, index, sub, tail)) == index,
        message(cmd, index, sub, tail)[3] == sub,
        message(cmd, index, sub, tail).skip(4) == tail,
{
    assert(message(cmd, index, sub, tail).skip(4) =~= tail);
}

/// The command byte of a write of one to four bytes in one message.
pub open spec fn write_command(len: nat) -> u8 {
    if len == 1 {
        0x2F
    } else if len == 2 {
        0x2B
    } else if len == 3 {
        0x27
    } else {
        0x23
    }
}

/// Whether the server itself objects to a value, before the dictionary is
/// asked: a consumer heartbeat time with bits set that are reserved, for a node
/// ID that does not exist, or for a node that another entry monitors.
pub open spec fn objection<OD: OdContents>(od: OD, index: u16, sub: u8, data: Seq<u8>) -> Option<u32> {
    if index == 0x1016 && sub != 0 && data.len() == 4 {
        let time = data[0] + 256 * data[1];
        let node = data[2];
        if data[3] != 0 {
            Some(0x0609_0030u32)
        } else if time != 0 && (node == 0 || node > 127) {
            Some(0x0609_0030u32)
        } else if time != 0 && exists|s: u8|
            1 <= s && od.subs_of(0x1016) is Some && s <= od.subs_of(0x1016)->0 && s != sub
                && #[trigger] entry_monitors(od, s, node) {
            Some(0x0604_0043u32)
        } else {
            None
        }
    } else {
        None
    }
}

/// An entry of the consumer heartbeat object monitors a node if it has a time
/// and names the node.
pub proof fn lemma_entry_monitors<OD: OdContents>(od: OD, sub: u8, node: u8, raw: u32)
    requires
        od.read_result(0x1016, sub, 4) == Ok::<Seq<u8>, OdError>(four(raw)),
    ensures
        entry_monitors(od, sub, node) <==> raw % 65536 != 0 && raw / 65536 % 256 == node,
{
    lemma_u32_bytes_roundtrip(raw, u32_bytes(raw));
    assert(padded(four(raw), 4) =~= u32_bytes(raw));
}

/// A write of one to four bytes in one message is done at once and confirmed,
/// and an event tells of it. A refused one is answered with the code of what is
/// wrong with it, and changes nothing. PDO parameters, 0x1400 to 0x1BFF, cannot
/// be written while the node is operational.
#[verifier::spinoff_prover]
#[verifier::rlimit(40)]
pub proof fn lemma_write_is_answered<OD: OdContents>(
    server: ServerModel,
    od: OD,
    events: Seq<OdEvent>,
    capacity: nat,
    index: u16,
    sub: u8,
    data: Seq<u8>,
    fill: Seq<u8>,
    nmt: NmtState,
    now: u64,
)
    requires
        is_open(server),
        1 <= data.len() <= 4,
        data.len() + fill.len() == 4,
    ensures
        ({
            let req = message(write_command(data.len()), index, sub, data + fill);
            let st = server.step(od, events, capacity, req, nmt, now);
            if nmt == NmtState::Operational && 0x1400 <= index <= 0x1BFF {
                &&& st.response == Some(message(0x80, index, sub, four(0x0800_0022)))
                &&& st.od == od
                &&& st.events == events
            } else if let Some(code) = objection(od, index, sub, data) {
                &&& st.response == Some(message(0x80, index, sub, four(code)))
                &&& st.od == od
                &&& st.events == events
                &&& st.server.transfer is None
            } else if let Err(e) = od.validate_result(index, sub, data) {
                &&& st.response == Some(message(0x80, index, sub, four(reported_as(e))))
                &&& st.od == od
                &&& st.events == events
                &&& st.server.transfer is None
            } else if let Err(e) = od.write_result(index, sub, data) {
                &&& st.response == Some(message(0x80, index, sub, four(reported_as(e))))
                &&& st.events == events
                &&& st.server.transfer is None
                &&& st.server.committed == server.committed
            } else {
                &&& st.response == Some(message(0x60, index, sub, seq![0u8, 0, 0, 0]))
                &&& st.od == od.after_write(index, sub, data)
                &&& st.server.committed == Some((index, sub))
                &&& st.server.transfer is None
                &&& events.len() < capacity ==> st.events == events.push(
                    OdEvent { index, subindex: sub, source: OdEventSource::Sdo },
                )
            }
        }),
{
    let cmd = write_command(data.len());
    let req = message(cmd, index, sub, data + fill);
    lemma_message(cmd, index, sub, data + fill);
    assert(req.subrange(4, 4 + data.len() as int) =~= data);
    assert(crate::sdo::server::expedited_len(od, req) == data.len());
    lemma_objections(od, index, sub, data);
    let st = server.step(od, events, capacity, req, nmt, now);
    if nmt == NmtState::Operational && 0x1400 <= index <= 0x1BFF {
        lemma_abort_message(index, sub, AbortCode::DataTransferDeviceState);
    } else if let Some(code) = objection(od, index, sub, data) {
        let fault = crate::sdo::server::consumer_heartbeat_fault(od, index, sub, data)->0;
        lemma_abort_message(index, sub, fault);
        assert(st.response == Some(abort_frame(index, sub, fault)));
    } else if let Err(e) = od.validate_result(index, sub, data) {
        lemma_abort_message(index, sub, abort_for(e));
    } else if let Err(e) = od.write_result(index, sub, data) {
        lemma_abort_message(index, sub, abort_for(e));
    }
}

proof fn lemma_abort_message(index: u16, sub: u8, code: AbortCode)
    ensures
        abort_frame(index, sub, code) == message(0x80, index, sub, four(code.to_u32())),
{
    assert(abort_frame(index, sub, code) =~= message(0x80, index, sub, four(code.to_u32())));
}

proof fn lemma_objections<OD: OdContents>(od: OD, index: u16, sub: u8, data: Seq<u8>)
    ensures
        match crate::sdo::server::consumer_heartbeat_fault(od, index, sub, data) {
            Some(code) => objection(od, index, sub, data) == Some(code.to_u32()),
            None => objection(od, index, sub, data) is None,
        },
{
    if index == 0x1016 && sub != 0 && data.len() == 4 {
        let raw = le_u32(data);
        assert(raw == data[0] + 256 * data[1] + 65536 * data[2] + 16777216 * data[3]);
        assert(raw % 65536 == data[0] + 256 * data[1]);
        assert(raw / 65536 % 256 == data[2]);
        assert(raw >= 0x100_0000 <==> data[3] != 0);
        assert(crate::sdo::server::hb_entry_node(raw) == data[2]);
    }
}

/// A write in one message that does not state its length has the length that
/// the type of the object has, at most four bytes.
pub proof fn lemma_unsized_write<OD: OdContents>(
    server: ServerModel,
    od: OD,
    events: Seq<OdEvent>,
    capacity: nat,
    index: u16,
    sub: u8,
    data: Seq<u8>,
    fill: Seq<u8>,
    nmt: NmtState,
    now: u64,
)
    requires
        is_open(server),
        1 <= data.len() <= 4,
        data.len() + fill.len() == 4,
        match od.type_of(index, sub) {
            Some(t) => match t.spec_size() {
                Some(n) => data.len() == n || (data.len() == 4 && n >= 4),
                None => data.len() == 4,
            },
            None => data.len() == 4,
        },
    ensures
        server.step(od, events, capacity, message(0x22, index, sub, data + fill), nmt, now)
            == server.step(
            od,
            events,
            capacity,
            message(write_command(data.len()), index, sub, data + fill),
            nmt,
            now,
        ),
{
    lemma_message(0x22, index, sub, data + fill);
    lemma_message(write_command(data.len()), index, sub, data + fill);
    let a = message(0x22, index, sub, data + fill);
    let b = message(write_command(data.len()), index, sub, data + fill);
    assert(a.subrange(4, 4 + data.len() as int) =~= b.subrange(4, 4 + data.len() as int));
    assert(crate::sdo::server::expedited_len(od, a) == data.len());
    assert(crate::sdo::server::expedited_len(od, b) == data.len());
}

/// A longer write is announced with its length: at most 889 bytes can be taken.
pub proof fn lemma_long_write_is_announced<OD: OdContents>(
    server: ServerModel,
    od: OD,
    events: Seq<OdEvent>,
    capacity: nat,
    index: u16,
    sub: u8,
    len: u32,
    nmt: NmtState,
    now: u64,
)
    requires
        is_open(server),
        !(nmt == NmtState::Operational && 0x1400 <= index <= 0x1BFF),
    ensures
        ({
            let st = server.step(
                od,
                events,
                capacity,
                message(0x21, index, sub, four(len)),
                nmt,
                now,
            );
            &&& st.od == od
            &&& st.events == events
            &&& len > 889 ==> st.response == Some(message(0x80, index, sub, four(0x0504_0005)))
                && st.server == server
            &&& len <= 889 ==> {
                &&& st.response == Some(message(0x60, index, sub, seq![0u8, 0, 0, 0]))
                &&& st.server.transfer matches Some(TransferModel::Download(t))
                &&& t.index == index
                &&& t.subindex == sub
                &&& t.received.len() == 0
                &&& !t.toggle
                &&& t.last_activity == now
            }
        }),
{
    lemma_message(0x21, index, sub, four(len));
    lemma_u32_bytes_roundtrip(len, u32_bytes(len));
    assert(four(len) =~= u32_bytes(len));
}

/// The command byte of a segment of a write: the toggle bit, the number of
/// bytes that are not used, and whether it is the last one.
pub open spec fn segment_command(toggle: bool, unused: int, last: bool) -> int {
    (if toggle {
        16int
    } else {
        0
    }) + 2 * unused + (if last {
        1int
    } else {
        0
    })
}

/// A segment of a write adds its bytes, and is confirmed with its toggle bit;
/// the next one must have the other. The value is written with the last one. A
/// wrong toggle bit ends the transfer, and so do too many bytes.
pub proof fn lemma_segment_is_taken<OD: OdContents>(
    server: ServerModel,
    t: DownloadModel,
    od: OD,
    events: Seq<OdEvent>,
    capacity: nat,
    toggle: bool,
    part: Seq<u8>,
    fill: Seq<u8>,
    last: bool,
    nmt: NmtState,
    now: u64,
)
    requires
        server.transfer == Some(TransferModel::Download(t)),
        part.len() + fill.len() == 7,
    ensures
        ({
            let cmd = segment_command(toggle, fill.len() as int, last) as u8;
            let st = server.step(od, events, capacity, seq![cmd] + part + fill, nmt, now);
            let whole = t.received + part;
            let confirmed = seq![
                if toggle {
                    0x30u8
                } else {
                    0x20u8
                },
                0u8,
                0,
                0,
                0,
                0,
                0,
                0,
            ];
            if toggle != t.toggle {
                &&& st.response == Some(message(0x80, t.index, t.subindex, four(0x0503_0000)))
                &&& st.server.transfer is None
                &&& st.od == od
            } else if whole.len() > 889 {
                &&& st.response == Some(message(0x80, t.index, t.subindex, four(0x0504_0005)))
                &&& st.server.transfer is None
                &&& st.od == od
            } else if !last {
                &&& st.response == Some(confirmed)
                &&& st.od == od
                &&& st.server.transfer == Some(
                    TransferModel::Download(
                        DownloadModel {
                            received: whole,
                            toggle: !toggle,
                            last_activity: now,
                            ..t
                        },
                    ),
                )
            } else {
                &&& st.server.transfer is None
                &&& st.od == od || st.od == od.after_write(t.index, t.subindex, whole)
                &&& st.server.committed == Some((t.index, t.subindex)) || st.server.committed
                    == server.committed
                &&& !(nmt == NmtState::Operational && 0x1400 <= t.index <= 0x1BFF) && objection(
                    od,
                    t.index,
                    t.subindex,
                    whole,
                ) is None && od.validate_result(t.index, t.subindex, whole) is Ok
                    && od.write_result(t.index, t.subindex, whole) is Ok ==> {
                    &&& st.response == Some(confirmed)
                    &&& st.od == od.after_write(t.index, t.subindex, whole)
                    &&& st.server.committed == Some((t.index, t.subindex))
                }
            }
        }),
{
    let cmd = segment_command(toggle, fill.len() as int, last) as u8;
    let req = seq![cmd] + part + fill;
    assert(req.subrange(1, 8 - fill.len()) =~= part);
    assert(req[0] == cmd);
    assert(cmd / 2 % 8 == fill.len() && cmd % 2 == (if last {
        1int
    } else {
        0
    }) && cmd / 16 % 2 == (if toggle {
        1int
    } else {
        0
    }) && cmd / 32 == 0);
    let whole = t.received + part;
    lemma_objections(od, t.index, t.subindex, whole);
}

/// A request for the next segment of a read with the wrong toggle bit ends the
/// transfer; one with the right one is answered with the next seven bytes, or
/// with what is left.
pub proof fn lemma_segment_is_given<OD: OdContents>(
    server: ServerModel,
    t: UploadModel,
    od: OD,
    events: Seq<OdEvent>,
    capacity: nat,
    toggle: bool,
    tail: Seq<u8>,
    nmt: NmtState,
    now: u64,
)
    requires
        server.transfer == Some(TransferModel::Upload(t)),
        t.offset <= t.data.len(),
        tail.len() == 7,
    ensures
        ({
            let cmd: u8 = if toggle {
                0x70
            } else {
                0x60
            };
            let left = t.data.skip(t.offset as int);
            let st = server.step(od, events, capacity, seq![cmd] + tail, nmt, now);
            &&& st.od == od
            &&& st.events == events
            &&& if toggle != t.toggle {
                &&& st.response == Some(message(0x80, t.index, t.subindex, four(0x0503_0000)))
                &&& st.server.transfer is None
            } else if left.len() <= 7 {
                &&& st.server.transfer is None
                &&& st.response matches Some(r)
                &&& r.len() == 8
                &&& r[0] == segment_command(toggle, 7 - left.len(), true)
                &&& r.subrange(1, 1 + left.len() as int) == left
            } else {
                &&& st.response matches Some(r)
                &&& r.len() == 8
                &&& r[0] == segment_command(toggle, 0, false)
                &&& r.skip(1) == left.take(7)
                &&& st.server.transfer == Some(
                    TransferModel::Upload(
                        UploadModel {
                            offset: t.offset + 7,
                            toggle: !toggle,
                            last_activity: now,
                            ..t
                        },
                    ),
                )
            }
        }),
{
    let cmd: u8 = if toggle {
        0x70
    } else {
        0x60
    };
    let req = seq![cmd] + tail;
    assert(req[0] == cmd);
    let left = t.data.skip(t.offset as int);
    let st = server.step(od, events, capacity, req, nmt, now);
    if toggle == t.toggle {
        let r = st.response->0;
        if left.len() <= 7 {
            assert(r.subrange(1, 1 + left.len() as int) =~= left);
        } else {
            assert(t.data.subrange(t.offset as int, t.offset as int + 7) =~= left.take(7));
            assert(r.skip(1) =~= left.take(7));
        }
    }
}

/// A segment, or the end of a block, without a transfer that it belongs to is
/// answered with the code for an unknown command, and so is a command that does
/// not exist. Nothing changes.
pub proof fn lemma_stray_request<OD: OdContents>(
    server: ServerModel,
    od: OD,
    events: Seq<OdEvent>,
    capacity: nat,
    req: Seq<u8>,
    nmt: NmtState,
    now: u64,
)
    requires
        req.len() == 8,
        is_open(server),
    ensures
        ({
            let st = server.step(od, events, capacity, req, nmt, now);
            let refused = message(0x80, 0, 0, four(0x0504_0001));
            &&& req[0] < 0x20 && !(server.transfer is Some && server.transfer->0 is Download) ==> st
                == server.answer(od, events, server.transfer, Some(refused))
            &&& 0x60 <= req[0] < 0x80 && !(server.transfer is Some && server.transfer->0 is Upload)
                ==> st == server.answer(od, events, server.transfer, Some(refused))
            &&& 0xC0 <= req[0] < 0xE0 && req[0] % 2 == 1 && !(server.transfer is Some
                && server.transfer->0 is BlockDownload) ==> st == server.answer(
                od,
                events,
                server.transfer,
                Some(refused),
            )
            &&& 0xA0 <= req[0] < 0xC0 && req[0] % 4 >= 2 && !(server.transfer is Some
                && server.transfer->0 is BlockUpload) ==> st == server.answer(
                od,
                events,
                server.transfer,
                Some(refused),
            )
            &&& req[0] >= 0xE0 ==> st == server.answer(
                od,
                events,
                server.transfer,
                Some(
                    message(
                        0x80,
                        (req[1] + 256 * req[2]) as u16,
                        req[3],
                        four(0x0504_0001),
                    ),
                ),
            )
        }),
{
}

/// An abort from the client ends the transfer, whatever it is, without an
/// answer, and changes nothing else.
pub proof fn lemma_abort_ends_transfer<OD: OdContents>(
    server: ServerModel,
    od: OD,
    events: Seq<OdEvent>,
    capacity: nat,
    req: Seq<u8>,
    nmt: NmtState,
    now: u64,
)
    requires
        req.len() == 8,
        req[0] == 0x80,
    ensures
        ({
            let st = server.step(od, events, capacity, req, nmt, now);
            &&& st.server.transfer is None
            &&& st.server.committed == server.committed
            &&& st.response is None
            &&& st.od == od
            &&& st.events == events
        }),
{
}

/// A transfer that is silent for five seconds is given up, with the code for
/// that; one that is not goes on.
pub proof fn lemma_silence_ends_transfer(server: ServerModel, t: TransferModel, now: u64)
    requires
        server.transfer == Some(t),
        t.last_activity() <= now,
    ensures
        now - t.last_activity() >= 5_000_000 ==> server.timeout(now).1 == Some(
            message(0x80, t.address().0, t.address().1, four(0x0504_0000)),
        ) && server.timeout(now).0.transfer is None,
        now - t.last_activity() < 5_000_000 ==> server.timeout(now) == (server, None::<Seq<u8>>),
{
}

/// The segments of a block are numbered from one: another number than the next
/// ends the transfer. The last one of a block, or of the object, is confirmed
/// with its number.
pub proof fn lemma_block_segment_is_taken<OD: OdContents>(
    server: ServerModel,
    t: BlockDownloadModel,
    od: OD,
    events: Seq<OdEvent>,
    capacity: nat,
    number: u8,
    last: bool,
    part: Seq<u8>,
    nmt: NmtState,
    now: u64,
)
    requires
        server.transfer == Some(TransferModel::BlockDownload(t)),
        !t.awaiting_end,
        t.received.len() <= 889,
        number < 128,
        part.len() == 7,
        !(number == 0 && last),
    ensures
        ({
            let cmd = (number + if last {
                128int
            } else {
                0
            }) as u8;
            let st = server.step(od, events, capacity, seq![cmd] + part, nmt, now);
            &&& st.od == od
            &&& st.events == events
            &&& if number != t.seqno + 1 {
                &&& st.response == Some(message(0x80, t.index, t.subindex, four(0x0504_0003)))
                &&& st.server.transfer is None
            } else if !last && t.received.len() + 7 > 889 {
                &&& st.response == Some(message(0x80, t.index, t.subindex, four(0x0504_0005)))
                &&& st.server.transfer is None
            } else {
                &&& last || number == 127 ==> st.response == Some(
                    seq![0xA2u8, number, 127, 0, 0, 0, 0, 0],
                )
                &&& !last && number < 127 ==> st.response is None
                &&& st.server.transfer matches Some(TransferModel::BlockDownload(t2))
                &&& t.received.len() + 7 <= 889 ==> t2.received == t.received + part
                &&& t2.awaiting_end == last
                &&& !last ==> t2.seqno == number % 127
                &&& t2.index == t.index && t2.subindex == t.subindex
                &&& t2.last_activity == now
            }
        }),
{
    let cmd = (number + if last {
        128int
    } else {
        0
    }) as u8;
    let req = seq![cmd] + part;
    assert(req[0] == cmd && req[0] != 0x80);
    assert(cmd % 128 == number && (cmd >= 128 <==> last));
    if t.received.len() + 7 <= 889 {
        assert(req.subrange(1, 8) =~= part);
    }
}

/// At the end of a write in blocks the unused bytes of the last segment are
/// dropped. The length must be the one that was announced, and the check sum
/// must be that of the data, if both sides use one.
pub proof fn lemma_block_end_is_checked<OD: OdContents>(
    server: ServerModel,
    t: BlockDownloadModel,
    od: OD,
    events: Seq<OdEvent>,
    capacity: nat,
    unused: u8,
    sum: u16,
    nmt: NmtState,
    now: u64,
)
    requires
        server.transfer == Some(TransferModel::BlockDownload(t)),
        t.awaiting_end,
        unused <= 6,
        unused <= t.received.len(),
    ensures
        ({
            let req = seq![
                (0xC1 + 4 * unused) as u8,
                (sum % 256) as u8,
                (sum / 256) as u8,
                0u8,
                0,
                0,
                0,
                0,
            ];
            let data = t.received.take(t.received.len() - unused);
            let st = server.step(od, events, capacity, req, nmt, now);
            &&& st.server.transfer is None
            &&& if t.declared != 0 && data.len() != t.declared {
                &&& st.response == Some(message(0x80, t.index, t.subindex, four(0x0800_0020)))
                &&& st.od == od
            } else if t.crc_enabled && crc16(0, data) != sum {
                &&& st.response == Some(message(0x80, t.index, t.subindex, four(0x0504_0004)))
                &&& st.od == od
            } else {
                &&& !(nmt == NmtState::Operational && 0x1400 <= t.index <= 0x1BFF) && objection(
                    od,
                    t.index,
                    t.subindex,
                    data,
                ) is None && od.validate_result(t.index, t.subindex, data) is Ok && od.write_result(
                    t.index,
                    t.subindex,
                    data,
                ) is Ok ==> {
                    &&& st.response == Some(seq![0xA1u8, 0, 0, 0, 0, 0, 0, 0])
                    &&& st.od == od.after_write(t.index, t.subindex, data)
                    &&& st.server.committed == Some((t.index, t.subindex))
                }
                &&& nmt == NmtState::Operational && 0x1400 <= t.index <= 0x1BFF ==> st.od == od
                    && st.response == Some(message(0x80, t.index, t.subindex, four(0x0800_0022)))
            }
        }),
{
    let cmd = (0xC1 + 4 * unused) as u8;
    assert(cmd / 32 == 6 && cmd % 2 == 1 && cmd / 4 % 8 == unused);
    let data = t.received.take(t.received.len() - unused);
    lemma_objections(od, t.index, t.subindex, data);
}

/// A write in blocks is accepted with blocks of 127 segments and a check sum,
/// unless it is longer than 889 bytes.
pub proof fn lemma_block_write_is_agreed<OD: OdContents>(
    server: ServerModel,
    od: OD,
    events: Seq<OdEvent>,
    capacity: nat,
    index: u16,
    sub: u8,
    len: u32,
    nmt: NmtState,
    now: u64,
)
    requires
        is_open(server),
        !(nmt == NmtState::Operational && 0x1400 <= index <= 0x1BFF),
    ensures
        ({
            let st = server.step(
                od,
                events,
                capacity,
                message(0xC6, index, sub, four(len)),
                nmt,
                now,
            );
            &&& st.od == od
            &&& len > 889 ==> st.response == Some(message(0x80, index, sub, four(0x0504_0005)))
                && st.server == server
            &&& len <= 889 ==> {
                &&& st.response == Some(message(0xA4, index, sub, seq![127u8, 0, 0, 0]))
                &&& st.server.transfer matches Some(TransferModel::BlockDownload(t))
                &&& t.index == index
                &&& t.subindex == sub
                &&& t.declared == len
                &&& t.seqno == 0
                &&& t.crc_enabled
                &&& !t.awaiting_end
                &&& t.received.len() == 0
            }
        }),
{
    lemma_message(0xC6, index, sub, four(len));
    lemma_u32_bytes_roundtrip(len, u32_bytes(len));
    assert(four(len) =~= u32_bytes(len));
    lemma_abort_message(index, sub, AbortCode::OutOfMemory);
}

/// A read in blocks is answered with the length; blocks have as many segments
/// as the client asks for, at most 127.
pub proof fn lemma_block_read_is_agreed<OD: OdContents>(
    server: ServerModel,
    od: OD,
    events: Seq<OdEvent>,
    capacity: nat,
    index: u16,
    sub: u8,
    blksize: u8,
    nmt: NmtState,
    now: u64,
)
    requires
        is_open(server),
        od.read_result(index, sub, 889) matches Ok(data) ==> data.len() <= 889,
    ensures
        ({
            let st = server.step(
                od,
                events,
                capacity,
                message(0xA4, index, sub, seq![blksize, 0u8, 0, 0]),
                nmt,
                now,
            );
            &&& st.od == od
            &&& match od.read_result(index, sub, 889) {
                Ok(data) => {
                    &&& st.response == Some(message(0xC6, index, sub, four(data.len() as u32)))
                    &&& st.server.transfer matches Some(TransferModel::BlockUpload(t))
                    &&& t.data == data
                    &&& t.offset == 0
                    &&& t.blksize == if blksize <= 127 {
                        blksize
                    } else {
                        127
                    }
                },
                Err(e) => st.response == Some(message(0x80, index, sub, four(reported_as(e))))
                    && st.server == server,
            }
        }),
{
    lemma_message(0xA4, index, sub, seq![blksize, 0u8, 0, 0]);
    if let Err(e) = od.read_result(index, sub, 889) {
        lemma_abort_message(index, sub, abort_for(e));
    }
}

} // verus!
