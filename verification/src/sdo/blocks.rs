//! Block transfers from the point of view of a client.
//!
//! The laws here say what a complete block transfer achieves: the segments of
//! a block download put the client's bytes into the dictionary, those of a
//! block upload are the bytes of the object, a transfer that falls silent is
//! given up once, and PDO parameters are protected in the operational state.

use crate::bytes::{lemma_u32_bytes_roundtrip, padded, u32_bytes};
use crate::nmt::NmtState;
use crate::od::{OdContents, OdEvent};
use crate::sdo::conversation::{ready, Setting};
use crate::sdo::protocol::{
    abort_frame, addressed, ccs_of, index_of, lemma_addressed_index, AbortCode, Ccs,
};
use crate::sdo::server::{
    block_size, crc16, end_upload_frame, pdo_config_index, BlockDownloadModel, BlockUploadModel,
    SdoStep, ServerModel, TransferModel, MAX_BLKSIZE, MAX_TRANSFER, SDO_TIMEOUT_US,
};
use crate::time::elapsed_us;
use vstd::prelude::*;

verus! {

/// What the server does with a request.
#[verifier::opaque]
pub open spec fn served<OD: OdContents>(
    server: ServerModel,
    od: OD,
    events: Seq<OdEvent>,
    setting: Setting,
    request: Seq<u8>,
) -> SdoStep<OD> {
    server.step(od, events, setting.capacity, request, setting.nmt, setting.now)
}

// ---- Download ----

/// The request that announces a block download of `size` bytes.
pub open spec fn block_download_request(index: u16, subindex: u8, size: u32, crc: bool) -> Seq<u8> {
    addressed(
        if crc {
            0xC6
        } else {
            0xC2
        },
        index,
        subindex,
    ) + u32_bytes(size)
}

/// The number of segments that carry `size` bytes.
pub open spec fn segments_of(size: nat) -> nat {
    (size + 6) / 7
}

/// Segment `i` of a value, counted from 0.
pub open spec fn block_segment_frame(data: Seq<u8>, i: int) -> Seq<u8> {
    let last = i + 1 == segments_of(data.len());
    seq![
        if last {
            (0x81 + i) as u8
        } else {
            (1 + i) as u8
        },
    ] + padded(data.skip(7 * i), 7)
}

/// The request that ends a block download.
pub open spec fn block_download_end(data: Seq<u8>) -> Seq<u8> {
    let unused = 7 * segments_of(data.len()) - data.len();
    let crc = crc16(0, data);
    seq![(0xC1 + 4 * unused) as u8, (crc % 256) as u8, (crc / 256) as u8, 0, 0, 0, 0, 0]
}

/// The confirmation of the last segment of a value.
pub open spec fn block_download_confirm(data: Seq<u8>) -> Seq<u8> {
    seq![0xA2u8, segments_of(data.len()) as u8, MAX_BLKSIZE, 0, 0, 0, 0, 0]
}

/// What the first `n` segments of a value do.
pub open spec fn segments_sent<OD: OdContents>(
    start: SdoStep<OD>,
    setting: Setting,
    data: Seq<u8>,
    n: nat,
) -> SdoStep<OD>
    decreases n,
{
    if n == 0 {
        start
    } else {
        let before = segments_sent(start, setting, data, (n - 1) as nat);
        served(before.server, before.od, before.events, setting, block_segment_frame(data, n - 1))
    }
}

/// A block download of a value after `n` of its segments: the bytes received
/// so far, the last segment being filled up with zeros.
pub open spec fn download_after(
    t: BlockDownloadModel,
    data: Seq<u8>,
    n: nat,
    now: u64,
) -> BlockDownloadModel {
    BlockDownloadModel {
        received: padded(data, 7 * n),
        seqno: n as u8,
        awaiting_end: n == segments_of(data.len()),
        last_activity: now,
        ..t
    }
}

/// The server's answer to the announcement.
proof fn lemma_download_begins<OD: OdContents>(
    server: ServerModel,
    od: OD,
    events: Seq<OdEvent>,
    setting: Setting,
    index: u16,
    subindex: u8,
    size: u32,
    crc: bool,
)
    requires
        ready(server),
        size <= MAX_TRANSFER,
        !(setting.nmt == NmtState::Operational && pdo_config_index(index)),
    ensures
        served(
            server,
            od,
            events,
            setting,
            block_download_request(index, subindex, size, crc),
        ) == server.answer(
            od,
            events,
            Some(
                TransferModel::BlockDownload(
                    BlockDownloadModel {
                        index,
                        subindex,
                        received: Seq::empty(),
                        declared: size as nat,
                        seqno: 0,
                        awaiting_end: false,
                        crc_enabled: crc,
                        last_activity: setting.now,
                    },
                ),
            ),
            Some(addressed(0xA4, index, subindex) + seq![MAX_BLKSIZE, 0, 0, 0]),
        ),
{
    let cmd: u8 = if crc {
        0xC6
    } else {
        0xC2
    };
    let req = block_download_request(index, subindex, size, crc);
    lemma_addressed_index(cmd, index, subindex, u32_bytes(size));
    assert(req.skip(4) =~= u32_bytes(size));
    lemma_u32_bytes_roundtrip(size, u32_bytes(size));
    assert(req[0] == cmd && cmd / 32 == 6 && cmd % 2 == 0 && cmd / 2 % 2 == 1 && (cmd / 4 % 2 == 1)
        == crc);
    reveal(served);
}

/// The server's answer to a segment.
proof fn lemma_takes_segment<OD: OdContents>(
    server: ServerModel,
    od: OD,
    events: Seq<OdEvent>,
    setting: Setting,
    t: BlockDownloadModel,
    data: Seq<u8>,
    n: nat,
)
    requires
        data.len() <= MAX_TRANSFER,
        n < segments_of(data.len()),
        server.transfer == Some(TransferModel::BlockDownload(download_after(t, data, n, t.last_activity))),
    ensures
        served(server, od, events, setting, block_segment_frame(data, n as int)) == server.answer(
            od,
            events,
            Some(TransferModel::BlockDownload(download_after(t, data, n + 1, setting.now))),
            if n + 1 == segments_of(data.len()) {
                Some(block_download_confirm(data))
            } else {
                None
            },
        ),
{
    let req = block_segment_frame(data, n as int);
    let last = n + 1 == segments_of(data.len());
    let before = download_after(t, data, n, t.last_activity);
    assert(segments_of(data.len()) <= 127);
    assert(req[0] % 128 == n + 1 && (req[0] >= 128) == last && req[0] != 0x80);
    let part = padded(data.skip(7 * n as int), 7);
    assert(req.subrange(1, 8) =~= part);
    assert(before.received + part =~= padded(data, 7 * (n + 1)));
    reveal(served);
}

proof fn lemma_segments_sent<OD: OdContents>(
    start: SdoStep<OD>,
    setting: Setting,
    t: BlockDownloadModel,
    data: Seq<u8>,
    n: nat,
)
    requires
        0 < data.len() <= MAX_TRANSFER,
        start.server.transfer == Some(TransferModel::BlockDownload(t)),
        t == download_after(t, data, 0, t.last_activity),
        t.last_activity == setting.now,
        n <= segments_of(data.len()),
    ensures
        ({
            let sent = segments_sent(start, setting, data, n);
            &&& sent.od == start.od
            &&& sent.events == start.events
            &&& sent.server == start.server.with(
                Some(TransferModel::BlockDownload(download_after(t, data, n, setting.now))),
            )
            &&& n == segments_of(data.len()) ==> sent.response == Some(block_download_confirm(data))
        }),
    decreases n,
{
    if n > 0 {
        let m = (n - 1) as nat;
        lemma_segments_sent(start, setting, t, data, m);
        let before = segments_sent(start, setting, data, m);
        lemma_takes_segment(before.server, before.od, before.events, setting, t, data, m);
    }
}

/// The server's answer to the end of a block download.
proof fn lemma_download_ends<OD: OdContents>(
    server: ServerModel,
    od: OD,
    events: Seq<OdEvent>,
    setting: Setting,
    t: BlockDownloadModel,
    data: Seq<u8>,
)
    requires
        0 < data.len() <= MAX_TRANSFER,
        t.declared == data.len(),
        server.transfer == Some(
            TransferModel::BlockDownload(
                download_after(t, data, segments_of(data.len()), setting.now),
            ),
        ),
    ensures
        served(server, od, events, setting, block_download_end(data)) == server.finish_download(
            od,
            events,
            setting.capacity,
            setting.nmt,
            t.index,
            t.subindex,
            data,
            seq![0xA1u8, 0, 0, 0, 0, 0, 0, 0],
        ),
{
    let n = segments_of(data.len());
    let end = block_download_end(data);
    let unused = 7 * n - data.len();
    assert(0 <= unused <= 6);
    assert(end[0] == 0xC1 + 4 * unused);
    assert(end[0] / 4 % 8 == unused && end[0] % 2 == 1 && end[0] / 32 == 6);
    let received = padded(data, 7 * n);
    assert(received.take(received.len() - unused) =~= data);
    let crc = crc16(0, data);
    assert(end[1] + 0x100 * end[2] == crc);
    reveal(served);
}

/// A block download hands exactly the client's bytes to the server's
/// dictionary, in one piece, whether or not the client asked for the check of
/// the checksum; the server confirms or refuses the value as it does any other
/// write.
pub proof fn lemma_block_download_delivers<OD: OdContents>(
    server: ServerModel,
    od: OD,
    events: Seq<OdEvent>,
    setting: Setting,
    index: u16,
    subindex: u8,
    data: Seq<u8>,
    crc: bool,
)
    requires
        ready(server),
        0 < data.len() <= MAX_TRANSFER,
        !(setting.nmt == NmtState::Operational && pdo_config_index(index)),
    ensures
        ({
            let begun = served(
                server,
                od,
                events,
                setting,
                block_download_request(index, subindex, data.len() as u32, crc),
            );
            let sent = segments_sent(begun, setting, data, segments_of(data.len()));
            &&& begun.response == Some(
                addressed(0xA4, index, subindex) + seq![MAX_BLKSIZE, 0, 0, 0],
            )
            &&& sent.response == Some(block_download_confirm(data))
            &&& served(sent.server, sent.od, sent.events, setting, block_download_end(data))
                == server.finish_download(
                od,
                events,
                setting.capacity,
                setting.nmt,
                index,
                subindex,
                data,
                seq![0xA1u8, 0, 0, 0, 0, 0, 0, 0],
            )
        }),
{
    let size = data.len() as u32;
    lemma_download_begins(server, od, events, setting, index, subindex, size, crc);
    let begun = served(
        server,
        od,
        events,
        setting,
        block_download_request(index, subindex, size, crc),
    );
    let t = begun.server.transfer->0->BlockDownload_0;
    assert(t.received =~= padded(data, 0));
    lemma_segments_sent(begun, setting, t, data, segments_of(data.len()));
    let sent = segments_sent(begun, setting, data, segments_of(data.len()));
    lemma_download_ends(sent.server, od, events, setting, t, data);
}

// ---- Upload ----

/// The request for a block upload in sub-blocks of `blksize` segments.
pub open spec fn block_upload_request(index: u16, subindex: u8, blksize: u8) -> Seq<u8> {
    addressed(0xA0, index, subindex) + seq![blksize, 0, 0, 0]
}

/// The request to send the first sub-block.
pub open spec fn block_upload_start() -> Seq<u8> {
    seq![0xA3u8, 0, 0, 0, 0, 0, 0, 0]
}

/// The confirmation of a sub-block.
pub open spec fn block_upload_confirm(count: u8, blksize: u8) -> Seq<u8> {
    seq![0xA2u8, count, blksize, 0, 0, 0, 0, 0]
}

/// The bytes that a client collects from the segments of a block upload,
/// confirming each sub-block, and the server afterwards, over at most `rounds`
/// segments and confirmations. The client counts the segments of a sub-block
/// from 1: it takes a segment only if its number is one more than that of the
/// segment before, `taken`, and stops at any other.
pub open spec fn collect<OD: OdContents>(
    server: ServerModel,
    od: OD,
    events: Seq<OdEvent>,
    setting: Setting,
    count: u8,
    blksize: u8,
    taken: int,
    rounds: nat,
) -> (ServerModel, Seq<u8>)
    decreases rounds,
{
    match server.transfer {
        Some(TransferModel::BlockUpload(t)) if rounds > 0 && (t.seqno != 0 || t.offset
            < t.data.len()) => if t.seqno != 0 {
            let (next, segment) = server.poll(setting.now);
            if (segment->0)[0] % 128 != taken + 1 {
                (server, Seq::empty())
            } else {
                let (end, more) = collect(
                    next,
                    od,
                    events,
                    setting,
                    count,
                    blksize,
                    taken + 1,
                    (rounds - 1) as nat,
                );
                (end, (segment->0).skip(1) + more)
            }
        } else {
            let next = served(
                server,
                od,
                events,
                setting,
                block_upload_confirm(count, blksize),
            ).server;
            collect(next, od, events, setting, count, blksize, 0, (rounds - 1) as nat)
        },
        _ => (server, Seq::empty()),
    }
}

/// The server's answer to the request for a block upload.
proof fn lemma_upload_begins<OD: OdContents>(
    server: ServerModel,
    od: OD,
    events: Seq<OdEvent>,
    setting: Setting,
    index: u16,
    subindex: u8,
    blksize: u8,
)
    requires
        ready(server),
        od.read_result(index, subindex, MAX_TRANSFER as nat) is Ok,
    ensures
        ({
            let data = od.read_result(index, subindex, MAX_TRANSFER as nat)->Ok_0;
            served(server, od, events, setting, block_upload_request(index, subindex, blksize))
                == server.answer(
                od,
                events,
                Some(
                    TransferModel::BlockUpload(
                        BlockUploadModel {
                            index,
                            subindex,
                            data,
                            offset: 0,
                            blksize: block_size(blksize),
                            seqno: 0,
                            last_activity: setting.now,
                        },
                    ),
                ),
                Some(addressed(0xC6, index, subindex) + u32_bytes(data.len() as u32)),
            )
        }),
{
    let req = block_upload_request(index, subindex, blksize);
    lemma_addressed_index(0xA0, index, subindex, seq![blksize, 0, 0, 0]);
    assert(req[0] / 32 == 5 && req[0] % 4 == 0 && req[4] == blksize);
    reveal(served);
}

/// The server's answers to the start of a block upload, and to the confirmation
/// of a sub-block.
proof fn lemma_upload_goes_on<OD: OdContents>(
    server: ServerModel,
    od: OD,
    events: Seq<OdEvent>,
    setting: Setting,
    t: BlockUploadModel,
    count: u8,
    blksize: u8,
)
    requires
        server.transfer == Some(TransferModel::BlockUpload(t)),
        t.seqno == 0,
    ensures
        t.offset == 0 ==> served(server, od, events, setting, block_upload_start())
            == server.answer(
            od,
            events,
            Some(
                TransferModel::BlockUpload(
                    BlockUploadModel { seqno: 1, last_activity: setting.now, ..t },
                ),
            ),
            None,
        ),
        t.offset < t.data.len() ==> served(
            server,
            od,
            events,
            setting,
            block_upload_confirm(count, blksize),
        ) == server.answer(
            od,
            events,
            Some(
                TransferModel::BlockUpload(
                    BlockUploadModel {
                        seqno: 1,
                        blksize: block_size(blksize),
                        last_activity: setting.now,
                        ..t
                    },
                ),
            ),
            None,
        ),
        t.offset >= t.data.len() ==> served(
            server,
            od,
            events,
            setting,
            block_upload_confirm(count, blksize),
        ) == server.answer(od, events, None, Some(end_upload_frame(t.data))),
{
    assert(block_upload_start()[0] / 32 == 5 && block_upload_start()[0] % 4 == 3);
    let confirm = block_upload_confirm(count, blksize);
    assert(confirm[0] / 32 == 5 && confirm[0] % 4 == 2);
    reveal(served);
}

/// The segment that is due.
proof fn lemma_segment_due(server: ServerModel, t: BlockUploadModel, now: u64)
    requires
        server.transfer == Some(TransferModel::BlockUpload(t)),
        TransferModel::BlockUpload(t).valid(),
        t.seqno != 0,
    ensures
        ({
            let (next, segment) = server.poll(now);
            let last = t.data.len() - t.offset <= 7;
            &&& segment matches Some(s)
            &&& s.len() == 8
            &&& s[0] % 128 == t.seqno
            &&& s[0] >= 128 <==> last
            &&& s.skip(1) == padded(t.data.skip(t.offset as int), 7)
            &&& next.committed == server.committed
            &&& next.transfer matches Some(TransferModel::BlockUpload(t2))
            &&& TransferModel::BlockUpload(t2).valid()
            &&& t2.data == t.data
            &&& t2.offset == if last {
                t.data.len()
            } else {
                t.offset + 7
            }
            &&& t2.blksize == t.blksize
            &&& t2.seqno == 0 <==> last || t.seqno >= t.blksize
            &&& t2.seqno != 0 ==> t2.seqno == t.seqno + 1
        }),
{
    let (next, segment) = server.poll(now);
    assert((segment->0).skip(1) =~= padded(t.data.skip(t.offset as int), 7));
}

proof fn lemma_collect<OD: OdContents>(
    server: ServerModel,
    od: OD,
    events: Seq<OdEvent>,
    setting: Setting,
    t: BlockUploadModel,
    count: u8,
    blksize: u8,
    taken: int,
    rounds: nat,
)
    requires
        server.transfer == Some(TransferModel::BlockUpload(t)),
        TransferModel::BlockUpload(t).valid(),
        t.seqno != 0 ==> t.seqno == taken + 1,
        rounds >= 2 * (t.data.len() - t.offset) + (if t.seqno == 0 {
            2int
        } else {
            1
        }),
    ensures
        ({
            let (end, bytes) = collect(server, od, events, setting, count, blksize, taken, rounds);
            &&& end.committed == server.committed
            &&& end.transfer matches Some(TransferModel::BlockUpload(t2))
            &&& t2.data == t.data
            &&& t2.offset == t.data.len()
            &&& t2.seqno == 0
            &&& bytes.len() >= t.data.len() - t.offset
            &&& bytes.take(t.data.len() - t.offset) == t.data.skip(t.offset as int)
        }),
    decreases rounds,
{
    let left = t.data.len() - t.offset;
    let rest = t.data.skip(t.offset as int);
    let fewer = (rounds - 1) as nat;
    if t.seqno != 0 {
        lemma_segment_due(server, t, setting.now);
        let (next, segment) = server.poll(setting.now);
        let t1 = next.transfer->0->BlockUpload_0;
        let part = padded(rest, 7);
        let more = collect(next, od, events, setting, count, blksize, taken + 1, fewer).1;
        if left <= 7 {
            assert(more =~= Seq::<u8>::empty());
        } else {
            lemma_collect(next, od, events, setting, t1, count, blksize, taken + 1, fewer);
            assert forall|i: int| 0 <= i < left implies (part + more)[i] == rest[i] by {
                if i >= 7 {
                    assert(more.take(left - 7)[i - 7] == t.data.skip(t1.offset as int)[i - 7]);
                }
            }
        }
        assert((part + more).take(left) =~= rest);
    } else if t.offset < t.data.len() {
        lemma_upload_goes_on(server, od, events, setting, t, count, blksize);
        let next = served(
            server,
            od,
            events,
            setting,
            block_upload_confirm(count, blksize),
        ).server;
        let t1 = next.transfer->0->BlockUpload_0;
        lemma_collect(next, od, events, setting, t1, count, blksize, 0, fewer);
    } else {
        assert(Seq::<u8>::empty().take(0) =~= rest);
    }
}

/// A block upload gives the client the bytes of the object, in sub-blocks of
/// whatever size it asks for, and ends with the object's checksum. The
/// dictionary and the event queue stay as they are.
pub proof fn lemma_block_upload_delivers<OD: OdContents>(
    server: ServerModel,
    od: OD,
    events: Seq<OdEvent>,
    setting: Setting,
    index: u16,
    subindex: u8,
    count: u8,
    blksize: u8,
    rounds: nat,
)
    requires
        ready(server),
        od.read_result(index, subindex, MAX_TRANSFER as nat) is Ok,
        (od.read_result(index, subindex, MAX_TRANSFER as nat)->Ok_0).len() <= MAX_TRANSFER,
        rounds >= 2 * (od.read_result(index, subindex, MAX_TRANSFER as nat)->Ok_0).len() + 1,
    ensures
        ({
            let data = od.read_result(index, subindex, MAX_TRANSFER as nat)->Ok_0;
            let begun = served(
                server,
                od,
                events,
                setting,
                block_upload_request(index, subindex, blksize),
            );
            let started = served(begun.server, od, events, setting, block_upload_start());
            let (sent, bytes) = collect(
                started.server,
                od,
                events,
                setting,
                count,
                blksize,
                0,
                rounds,
            );
            &&& begun.od == od && begun.events == events
            &&& begun.response == Some(
                addressed(0xC6, index, subindex) + u32_bytes(data.len() as u32),
            )
            &&& started.od == od && started.events == events && started.response is None
            &&& bytes.take(data.len() as int) == data
            &&& served(sent, od, events, setting, block_upload_confirm(count, blksize))
                == server.answer(od, events, None, Some(end_upload_frame(data)))
        }),
{
    let data = od.read_result(index, subindex, MAX_TRANSFER as nat)->Ok_0;
    lemma_upload_begins(server, od, events, setting, index, subindex, blksize);
    let begun = served(
        server,
        od,
        events,
        setting,
        block_upload_request(index, subindex, blksize),
    );
    let t = begun.server.transfer->0->BlockUpload_0;
    lemma_upload_goes_on(begun.server, od, events, setting, t, count, blksize);
    let started = served(begun.server, od, events, setting, block_upload_start());
    let t1 = started.server.transfer->0->BlockUpload_0;
    lemma_collect(started.server, od, events, setting, t1, count, blksize, 0, rounds);
    assert(data.skip(0) =~= data);
    let sent = collect(started.server, od, events, setting, count, blksize, 0, rounds).0;
    let t2 = sent.transfer->0->BlockUpload_0;
    lemma_upload_goes_on(sent, od, events, setting, t2, count, blksize);
}

proof fn lemma_sub_block(server: ServerModel, t: BlockUploadModel, now: u64)
    requires
        server.transfer == Some(TransferModel::BlockUpload(t)),
        TransferModel::BlockUpload(t).valid(),
        t.seqno != 0,
    ensures
        ({
            let segments = server.drain(now).1;
            let left = t.data.len() - t.offset;
            &&& segments.len() >= 1
            &&& segments.len() == t.blksize - t.seqno + 1 || 7 * segments.len() >= left || (
            segments.len() == 1 && t.blksize < t.seqno)
            &&& 7 * (segments.len() - 1) < left || segments.len() == 1
            &&& segments.len() <= t.blksize - t.seqno + 1 || segments.len() == 1
            &&& forall|k: int|
                0 <= k < segments.len() ==> {
                    let s = #[trigger] segments[k];
                    &&& s.len() == 8
                    &&& s[0] % 128 == t.seqno + k
                    &&& s[0] >= 128 <==> 7 * (k + 1) >= left
                    &&& s.skip(1) == padded(t.data.skip(t.offset + 7 * k), 7)
                }
        }),
    decreases 256 - t.seqno,
{
    lemma_segment_due(server, t, now);
    let (next, segment) = server.poll(now);
    let t1 = next.transfer->0->BlockUpload_0;
    let more = next.drain(now).1;
    let segments = seq![segment->0] + more;
    assert(server.drain(now).1 == segments);
    if t1.seqno != 0 {
        lemma_sub_block(next, t1, now);
        assert forall|k: int| 0 <= k < segments.len() implies ({
            let s = #[trigger] segments[k];
            &&& s.len() == 8
            &&& s[0] % 128 == t.seqno + k
            &&& s[0] >= 128 <==> 7 * (k + 1) >= t.data.len() - t.offset
            &&& s.skip(1) == padded(t.data.skip(t.offset + 7 * k), 7)
        }) by {
            if k > 0 {
                assert(segments[k] == more[k - 1]);
            }
        }
    } else {
        assert(more =~= Seq::<Seq<u8>>::empty());
    }
}

/// The segments of every sub-block of a block upload are numbered from 1, and
/// the segment with the last byte of the object is the only one marked as the
/// last: the first byte of the k-th segment has k in its low seven bits. A
/// segment carries the next seven bytes of the object. A sub-block is as long as
/// the client asked for, unless the object ends in it.
pub proof fn lemma_block_upload_segments<OD: OdContents>(
    server: ServerModel,
    od: OD,
    events: Seq<OdEvent>,
    setting: Setting,
    t: BlockUploadModel,
    count: u8,
    blksize: u8,
    now: u64,
)
    requires
        server.transfer == Some(TransferModel::BlockUpload(t)),
        TransferModel::BlockUpload(t).valid(),
        t.seqno == 0,
        t.offset < t.data.len(),
    ensures
        ({
            let asked = if t.offset == 0 {
                served(server, od, events, setting, block_upload_start())
            } else {
                served(server, od, events, setting, block_upload_confirm(count, blksize))
            };
            let wanted: int = if t.offset == 0 {
                t.blksize as int
            } else if blksize > 127 {
                127
            } else {
                blksize as int
            };
            let left = t.data.len() - t.offset;
            let segments = asked.server.drain(now).1;
            &&& asked.response is None
            &&& wanted >= 1 ==> segments.len() == if 7 * wanted < left {
                wanted
            } else {
                (left + 6) / 7
            }
            &&& forall|k: int|
                1 <= k <= segments.len() ==> {
                    let s = #[trigger] segments[k - 1];
                    &&& s.len() == 8
                    &&& s[0] % 128 == k
                    &&& s[0] >= 128 <==> t.offset + 7 * k >= t.data.len()
                    &&& s.skip(1) == padded(t.data.skip(t.offset + 7 * (k - 1)), 7)
                }
        }),
{
    lemma_upload_goes_on(server, od, events, setting, t, count, blksize);
    let asked = if t.offset == 0 {
        served(server, od, events, setting, block_upload_start())
    } else {
        served(server, od, events, setting, block_upload_confirm(count, blksize))
    };
    let t1 = asked.server.transfer->0->BlockUpload_0;
    lemma_sub_block(asked.server, t1, now);
}

// ---- Silence ----

/// A transfer is given up exactly when its client has been silent for the
/// timeout; the abort names the object, comes once, and leaves the server
/// without a transfer.
pub proof fn lemma_silence_is_reported_once(server: ServerModel, now: u64, later: u64)
    ensures
        server.timeout(now).1 is Some <==> (server.transfer matches Some(t) && elapsed_us(
            now,
            t.last_activity(),
        ) >= SDO_TIMEOUT_US),
        server.timeout(now).1 matches Some(frame) ==> {
            let address = (server.transfer->0).address();
            &&& frame == abort_frame(address.0, address.1, AbortCode::SdoProtocolTimeout)
            &&& server.timeout(now).0.transfer is None
            &&& server.timeout(now).0.timeout(later).1 is None
        },
        server.timeout(now).1 is None ==> server.timeout(now).0 == server,
{
}

/// The object whose value a request completes: an expedited download, the last
/// segment of a download, or the end of a block download, if nothing is wrong
/// with it.
pub open spec fn completed(server: ServerModel, request: Seq<u8>) -> Option<(u16, u8)> {
    match server.transfer {
        Some(TransferModel::BlockDownload(t)) if !t.awaiting_end && request[0] != 0x80 => None,
        transfer => match ccs_of(request[0]) {
            Some(Ccs::InitiateDownload) if request[0] / 2 % 2 == 1 => Some(
                (index_of(request), request[3]),
            ),
            Some(Ccs::DownloadSegment) => match transfer {
                Some(TransferModel::Download(t)) if request[0] % 2 == 1 && t.toggle == (request[0]
                    / 16 % 2 == 1) && t.received.len() + 7 - request[0] / 2 % 8 <= MAX_TRANSFER =>
                Some((t.index, t.subindex)),
                _ => None,
            },
            Some(Ccs::BlockDownload) if request[0] % 2 == 1 => match transfer {
                Some(TransferModel::BlockDownload(t)) if ends_well(t, request) => Some(
                    (t.index, t.subindex),
                ),
                _ => None,
            },
            _ => None,
        },
    }
}

/// The end of a block download fits what was received.
pub open spec fn ends_well(t: BlockDownloadModel, request: Seq<u8>) -> bool {
    let unused = request[0] / 4 % 8;
    let data = t.received.take(t.received.len() - unused);
    &&& unused <= 6
    &&& t.received.len() >= unused
    &&& t.declared == 0 || data.len() == t.declared
    &&& t.crc_enabled ==> crc16(0, data) == request[1] + 0x100 * request[2]
}

/// In the operational state no request writes a PDO parameter, in whatever state
/// the transfer was begun: one that completes the value of such an object is
/// aborted, and nothing changes. A request that completes no value never
/// changes the dictionary or the events, and one that does writes at most the
/// object whose value it completes.
pub proof fn lemma_pdo_parameters_are_never_written<OD: OdContents>(
    server: ServerModel,
    od: OD,
    events: Seq<OdEvent>,
    setting: Setting,
    request: Seq<u8>,
)
    requires
        request.len() == 8,
        setting.nmt == NmtState::Operational,
    ensures
        ({
            let step = served(server, od, events, setting, request);
            match completed(server, request) {
                Some((index, subindex)) => if pdo_config_index(index) {
                    &&& step.response == Some(
                        abort_frame(index, subindex, AbortCode::DataTransferDeviceState),
                    )
                    &&& step.od == od
                    &&& step.events == events
                    &&& step.server.committed == server.committed
                } else {
                    step.od == od || exists|data: Seq<u8>|
                        step.od == #[trigger] od.after_write(index, subindex, data)
                },
                None => {
                    &&& step.od == od
                    &&& step.events == events
                    &&& step.server.committed == server.committed
                },
            }
        }),
{
    reveal(served);
    assert(request.subrange(1, 8 - request[0] / 2 % 8).len() == 7 - request[0] / 2 % 8);
}

/// In the operational state every request to begin a write of a PDO parameter,
/// of whatever format, is refused; nothing changes.
pub proof fn lemma_pdo_parameters_are_protected<OD: OdContents>(
    server: ServerModel,
    od: OD,
    events: Seq<OdEvent>,
    setting: Setting,
    request: Seq<u8>,
)
    requires
        ready(server),
        request.len() == 8,
        ccs_of(request[0]) == Some(Ccs::InitiateDownload) || (ccs_of(request[0]) == Some(
            Ccs::BlockDownload,
        ) && request[0] % 2 == 0),
        setting.nmt == NmtState::Operational,
        pdo_config_index(index_of(request)),
    ensures
        ({
            let step = served(server, od, events, setting, request);
            &&& step.response == Some(
                abort_frame(index_of(request), request[3], AbortCode::DataTransferDeviceState),
            )
            &&& step.od == od
            &&& step.events == events
            &&& step.server.transfer == server.transfer
        }),
{
    reveal(served);
}

} // verus!
