//! A client and a server talking to each other.
//!
//! The laws here say what a complete SDO transfer achieves: a read gives the
//! client the bytes of the object, a write hands the object's bytes to the
//! server's dictionary, and a refused request reaches the client as the abort
//! code that the server refused it with.

use crate::bytes::{le_u32, lemma_u32_bytes_roundtrip, overwritten, padded, u32_bytes};
use crate::nmt::NmtState;
use crate::od::{OdContents, OdEvent};
use crate::sdo::client::{
    abort_code_of, download_request, upload_request, upload_segment_request, ClientModel,
    ClientReply, State,
};
use crate::sdo::protocol::{
    abort_frame, download_frame, download_segment_frame, expedited_upload_frame, index_of,
    lemma_abort_codes_are_distinct, lemma_addressed_index, segment_frame, segmented_upload_frame,
    AbortCode,
};
use crate::sdo::server::{
    abort_for, pdo_config_index, write_fault, DownloadModel, SdoStep, ServerModel, TransferModel,
    UploadModel, MAX_TRANSFER,
};
use vstd::prelude::*;

verus! {

/// A client and a server, the server's dictionary and event queue, and what
/// the client made of the last response.
pub struct Conversation<OD> {
    pub client: ClientModel,
    pub server: ServerModel,
    pub od: OD,
    pub events: Seq<OdEvent>,
    pub reply: ClientReply,
}

/// The fixed circumstances of a conversation.
pub struct Setting {
    /// Capacity of the server's event queue.
    pub capacity: nat,
    /// NMT state of the server's node.
    pub nmt: NmtState,
    /// Time at which the server answers.
    pub now: u64,
}

/// One request, the server's answer to it, and what the client makes of that.
/// A server that does not answer leaves the client with an error.
#[verifier::opaque]
pub open spec fn exchange<OD: OdContents>(
    client: ClientModel,
    server: ServerModel,
    od: OD,
    events: Seq<OdEvent>,
    setting: Setting,
    request: Seq<u8>,
) -> Conversation<OD> {
    let st = server.step(od, events, setting.capacity, request, setting.nmt, setting.now);
    match st.response {
        None => Conversation {
            client,
            server: st.server,
            od: st.od,
            events: st.events,
            reply: ClientReply::Error,
        },
        Some(response) => Conversation {
            client: client.step(response).0,
            server: st.server,
            od: st.od,
            events: st.events,
            reply: client.step(response).1,
        },
    }
}

/// The conversation that a request starts, over at most `rounds` further requests.
pub open spec fn converse<OD: OdContents>(
    client: ClientModel,
    server: ServerModel,
    od: OD,
    events: Seq<OdEvent>,
    setting: Setting,
    request: Seq<u8>,
    rounds: nat,
) -> Conversation<OD>
    decreases rounds,
{
    let c = exchange(client, server, od, events, setting, request);
    match c.reply {
        ClientReply::SendNext(next) if rounds > 0 => converse(
            c.client,
            c.server,
            c.od,
            c.events,
            setting,
            next,
            (rounds - 1) as nat,
        ),
        _ => c,
    }
}

/// The server answers a request.
#[verifier::opaque]
pub open spec fn answers<OD: OdContents>(
    server: ServerModel,
    od: OD,
    events: Seq<OdEvent>,
    setting: Setting,
    request: Seq<u8>,
) -> bool {
    server.step(
        od,
        events,
        setting.capacity,
        request,
        setting.nmt,
        setting.now,
    ).response is Some
}

/// The number of responses that a conversation takes.
pub open spec fn responses<OD: OdContents>(
    client: ClientModel,
    server: ServerModel,
    od: OD,
    events: Seq<OdEvent>,
    setting: Setting,
    request: Seq<u8>,
    rounds: nat,
) -> nat
    decreases rounds,
{
    let c = exchange(client, server, od, events, setting, request);
    let here: nat = if answers(server, od, events, setting, request) {
        1
    } else {
        0
    };
    match c.reply {
        ClientReply::SendNext(next) if rounds > 0 => here + responses(
            c.client,
            c.server,
            c.od,
            c.events,
            setting,
            next,
            (rounds - 1) as nat,
        ),
        _ => here,
    }
}

/// The server is ready for a new request: it is not in the middle of
/// receiving blocks.
pub open spec fn ready(server: ServerModel) -> bool {
    !(server.transfer matches Some(TransferModel::BlockDownload(t)) && !t.awaiting_end)
}

/// The client decodes the code of an abort frame.
proof fn lemma_abort_decodes(index: u16, subindex: u8, code: AbortCode)
    ensures
        abort_frame(index, subindex, code)[0] / 32 == 4,
        index_of(abort_frame(index, subindex, code)) == index,
        abort_frame(index, subindex, code)[3] == subindex,
        abort_code_of(le_u32(abort_frame(index, subindex, code).skip(4))) == code,
{
    let f = abort_frame(index, subindex, code);
    lemma_addressed_index(0x80, index, subindex, u32_bytes(code.to_u32()));
    assert(f.skip(4) =~= u32_bytes(code.to_u32()));
    lemma_u32_bytes_roundtrip(code.to_u32(), u32_bytes(code.to_u32()));
    let n = code.to_u32();
    assert(code.to_u32() == n);
    lemma_abort_codes_are_distinct(abort_code_of(n), code);
}

/// A read whose object the dictionary refuses is answered with the abort code
/// for the dictionary's error.
pub proof fn lemma_refused_upload<OD: OdContents>(
    client: ClientModel,
    server: ServerModel,
    od: OD,
    events: Seq<OdEvent>,
    setting: Setting,
    index: u16,
    subindex: u8,
    rounds: nat,
)
    requires
        client.state == (State::WaitingUploadInitResponse { index, subindex }),
        ready(server),
        od.read_result(index, subindex, MAX_TRANSFER as nat) is Err,
    ensures
        ({
            let c = converse(
                client,
                server,
                od,
                events,
                setting,
                upload_request(index, subindex),
                rounds,
            );
            &&& c.reply == ClientReply::Aborted(
                abort_for(od.read_result(index, subindex, MAX_TRANSFER as nat)->Err_0),
            )
            &&& c.od == od
            &&& c.events == events
            &&& c.client.state == State::Idle
        }),
{
    let e = od.read_result(index, subindex, MAX_TRANSFER as nat)->Err_0;
    lemma_addressed_index(0x40, index, subindex, seq![0u8, 0, 0, 0]);
    lemma_abort_decodes(index, subindex, abort_for(e));
    reveal(exchange);
}

/// While a transfer is active, an abort for another object leaves it alone; one
/// for its own object, or for the whole channel, ends it.
pub proof fn lemma_foreign_abort_is_ignored(
    client: ClientModel,
    index: u16,
    subindex: u8,
    code: AbortCode,
)
    requires
        client.state.object() is Some,
    ensures
        client.step(abort_frame(index, subindex, code)) == (if client.state.object() == Some(
            (index, subindex),
        ) || (index == 0 && subindex == 0) {
            (client.in_state(State::Idle), ClientReply::Aborted(code))
        } else {
            (client, ClientReply::IgnoredAbort)
        }),
{
    lemma_abort_decodes(index, subindex, code);
}

/// The bytes from `offset` on that the next segment carries.
pub open spec fn segment_at(data: Seq<u8>, offset: nat) -> Seq<u8> {
    if data.len() - offset <= 7 {
        data.skip(offset as int)
    } else {
        data.subrange(offset as int, offset as int + 7)
    }
}

/// The server's answer to the request for a segment.
proof fn lemma_server_sends_segment<OD: OdContents>(
    server: ServerModel,
    od: OD,
    events: Seq<OdEvent>,
    setting: Setting,
    t: UploadModel,
)
    requires
        server.transfer == Some(TransferModel::Upload(t)),
        t.offset <= t.data.len(),
    ensures
        server.step(
            od,
            events,
            setting.capacity,
            upload_segment_request(t.toggle),
            setting.nmt,
            setting.now,
        ) == (SdoStep {
            server: server.with(
                if t.data.len() - t.offset <= 7 {
                    None
                } else {
                    Some(
                        TransferModel::Upload(
                            UploadModel {
                                offset: t.offset + 7,
                                toggle: !t.toggle,
                                last_activity: setting.now,
                                ..t
                            },
                        ),
                    )
                },
            ),
            od,
            events,
            response: Some(
                segment_frame(
                    t.toggle,
                    segment_at(t.data, t.offset),
                    t.data.len() - t.offset <= 7,
                ),
            ),
        }),
{
    assert(upload_segment_request(t.toggle)[0] / 32 == 3);
}

/// The client's reaction to a segment that fits its buffer.
proof fn lemma_client_takes_segment(
    client: ClientModel,
    index: u16,
    subindex: u8,
    toggle: bool,
    seg: Seq<u8>,
    last: bool,
)
    requires
        client.state == (State::UploadSegmented { index, subindex, toggle }),
        seg.len() <= 7,
        client.offset + seg.len() <= client.buf.len(),
    ensures
        client.step(segment_frame(toggle, seg, last)) == (
            ClientModel {
                state: if last {
                    State::Idle
                } else {
                    State::UploadSegmented { index, subindex, toggle: !toggle }
                },
                buf: overwritten(client.buf, client.offset as int, seg),
                offset: client.offset + seg.len(),
                total: client.total,
            },
            if last {
                ClientReply::UploadComplete(client.offset + seg.len())
            } else {
                ClientReply::SendNext(upload_segment_request(!toggle))
            },
        ),
{
    let resp = segment_frame(toggle, seg, last);
    assert(resp[0] / 32 == 0 && resp[0] / 2 % 8 == 7 - seg.len());
    assert(resp.subrange(1, 8 - resp[0] / 2 % 8) =~= seg);
}

/// The segments of an upload, from the point where `offset` bytes have arrived.
proof fn lemma_upload_segments<OD: OdContents>(
    client: ClientModel,
    server: ServerModel,
    od: OD,
    events: Seq<OdEvent>,
    setting: Setting,
    t: UploadModel,
    rounds: nat,
)
    requires
        client.state == (State::UploadSegmented {
            index: t.index,
            subindex: t.subindex,
            toggle: t.toggle,
        }),
        server.transfer == Some(TransferModel::Upload(t)),
        t.offset < t.data.len() <= client.buf.len(),
        client.offset == t.offset,
        client.buf.take(t.offset as int) == t.data.take(t.offset as int),
        t.data.len() - t.offset <= 7 * (rounds + 1),
    ensures
        ({
            let c = converse(
                client,
                server,
                od,
                events,
                setting,
                upload_segment_request(t.toggle),
                rounds,
            );
            &&& c.reply == ClientReply::UploadComplete(t.data.len())
            &&& c.client.offset == t.data.len()
            &&& c.client.buf.take(c.client.offset as int) == t.data
            &&& c.client.state == State::Idle
            &&& c.server == server.with(None)
            &&& c.od == od
            &&& c.events == events
            &&& responses(
                client,
                server,
                od,
                events,
                setting,
                upload_segment_request(t.toggle),
                rounds,
            ) == (t.data.len() - t.offset + 6) / 7
        }),
    decreases rounds,
{
    let seg = segment_at(t.data, t.offset);
    let last = t.data.len() - t.offset <= 7;
    let c = exchange(client, server, od, events, setting, upload_segment_request(t.toggle));
    assert(c.client.buf == overwritten(client.buf, t.offset as int, seg) && c.client.offset
        == t.offset + seg.len() && c.client.state == if last {
        State::Idle
    } else {
        State::UploadSegmented { index: t.index, subindex: t.subindex, toggle: !t.toggle }
    } && c.od == od && c.events == events && c.reply == if last {
        ClientReply::UploadComplete(t.offset + seg.len())
    } else {
        ClientReply::SendNext(upload_segment_request(!t.toggle))
    } && c.server == server.step(
        od,
        events,
        setting.capacity,
        upload_segment_request(t.toggle),
        setting.nmt,
        setting.now,
    ).server) by {
        lemma_server_sends_segment(server, od, events, setting, t);
        lemma_client_takes_segment(client, t.index, t.subindex, t.toggle, seg, last);
        reveal(exchange);
    }
    lemma_server_sends_segment(server, od, events, setting, t);
    assert(answers(server, od, events, setting, upload_segment_request(t.toggle))) by {
        reveal(answers);
    }
    assert forall|i: int| 0 <= i < t.offset + seg.len() implies c.client.buf[i]
        == t.data[i] by {
        if i < t.offset {
            assert(client.buf.take(t.offset as int)[i] == t.data.take(t.offset as int)[i]);
        }
    }
    if last {
        assert(c.client.buf.take(t.data.len() as int) =~= t.data);
    } else {
        let t2 = UploadModel {
            offset: t.offset + 7,
            toggle: !t.toggle,
            last_activity: setting.now,
            ..t
        };
        assert(c.client.buf.take(t2.offset as int) =~= t.data.take(t2.offset as int));
        lemma_upload_segments(c.client, c.server, od, events, setting, t2, (rounds - 1) as nat);
        assert(c.server.with(None) == server.with(None));
    }
}

/// A read gives the client the bytes of the object: whatever the client's
/// buffer held before, afterwards its data is what the dictionary reads.
/// The dictionary and the event queue stay as they are. Up to four bytes take
/// one response, more take one for the start and one for every seven bytes. (The
/// expedited format cannot express an empty value.)
pub proof fn lemma_upload_delivers<OD: OdContents>(
    client: ClientModel,
    server: ServerModel,
    od: OD,
    events: Seq<OdEvent>,
    setting: Setting,
    index: u16,
    subindex: u8,
    rounds: nat,
)
    requires
        client.state == (State::WaitingUploadInitResponse { index, subindex }),
        client.offset == 0,
        ready(server),
        od.read_result(index, subindex, MAX_TRANSFER as nat) is Ok,
        0 < (od.read_result(index, subindex, MAX_TRANSFER as nat)->Ok_0).len() <= client.buf.len(),
        (od.read_result(index, subindex, MAX_TRANSFER as nat)->Ok_0).len() <= MAX_TRANSFER,
        (od.read_result(index, subindex, MAX_TRANSFER as nat)->Ok_0).len() <= 7 * rounds,
    ensures
        ({
            let data = od.read_result(index, subindex, MAX_TRANSFER as nat)->Ok_0;
            let c = converse(
                client,
                server,
                od,
                events,
                setting,
                upload_request(index, subindex),
                rounds,
            );
            &&& c.reply == ClientReply::UploadComplete(data.len())
            &&& c.client.offset == data.len()
            &&& c.client.buf.take(c.client.offset as int) == data
            &&& c.client.state == State::Idle
            &&& c.server == server.with(None)
            &&& c.od == od
            &&& c.events == events
            &&& responses(
                client,
                server,
                od,
                events,
                setting,
                upload_request(index, subindex),
                rounds,
            ) == if data.len() <= 4 {
                1
            } else {
                1 + (data.len() + 6) / 7
            }
        }),
{
    let data = od.read_result(index, subindex, MAX_TRANSFER as nat)->Ok_0;
    let req = upload_request(index, subindex);
    lemma_addressed_index(0x40, index, subindex, seq![0u8, 0, 0, 0]);
    assert(answers(server, od, events, setting, req)) by {
        reveal(answers);
    }
    if data.len() <= 4 {
        let resp = expedited_upload_frame(index, subindex, data);
        assert(resp[0] / 4 % 4 == 4 - data.len());
        assert(resp.subrange(4, 4 + data.len() as int) =~= data);
        assert(overwritten(client.buf, 0, data).take(data.len() as int) =~= data);
        reveal(exchange);
    } else {
        let resp = segmented_upload_frame(index, subindex, data.len() as u32);
        let t = UploadModel {
            index,
            subindex,
            data,
            offset: 0,
            toggle: false,
            last_activity: setting.now,
        };
        let c = exchange(client, server, od, events, setting, req);
        assert(c.server == server.with(Some(TransferModel::Upload(t))) && c.od == od && c.events
            == events && c.client.state == (State::UploadSegmented {
            index,
            subindex,
            toggle: false,
        }) && c.client.buf == client.buf && c.client.offset == 0 && c.reply
            == ClientReply::SendNext(upload_segment_request(false))) by {
            assert(resp[0] == 0x41);
            reveal(exchange);
        }
        assert(c.client.buf.take(0) =~= data.take(0));
        lemma_upload_segments(c.client, c.server, od, events, setting, t, (rounds - 1) as nat);
        assert(c.server.with(None) == server.with(None));
    }
}

/// What a write of a complete value comes to: the value is in the dictionary
/// and the client is told so, or the client is told why not.
pub open spec fn download_outcome<OD: OdContents>(
    c: Conversation<OD>,
    server: ServerModel,
    od: OD,
    events: Seq<OdEvent>,
    setting: Setting,
    index: u16,
    subindex: u8,
    data: Seq<u8>,
) -> bool {
    let done = server.finish_download(
        od,
        events,
        setting.capacity,
        setting.nmt,
        index,
        subindex,
        data,
        Seq::empty(),
    );
    &&& c.od == done.od
    &&& c.events == done.events
    &&& c.server == done.server
    &&& c.client.state == State::Idle
    &&& c.reply == match write_fault(od, index, subindex, data) {
        Some(code) => ClientReply::Aborted(code),
        None => match od.write_result(index, subindex, data) {
            Ok(_) => ClientReply::DownloadComplete,
            Err(e) => ClientReply::Aborted(abort_for(e)),
        },
    }
}

/// The answer of the server to the last part of a value.
proof fn lemma_finish<OD: OdContents>(
    client: ClientModel,
    server: ServerModel,
    od: OD,
    events: Seq<OdEvent>,
    setting: Setting,
    index: u16,
    subindex: u8,
    data: Seq<u8>,
    ok: Seq<u8>,
)
    requires
        client.state.object() == Some((index, subindex)),
        !(setting.nmt == NmtState::Operational && pdo_config_index(index)),
    ensures
        ({
            let st = server.finish_download(
                od,
                events,
                setting.capacity,
                setting.nmt,
                index,
                subindex,
                data,
                ok,
            );
            let done = server.finish_download(
                od,
                events,
                setting.capacity,
                setting.nmt,
                index,
                subindex,
                data,
                Seq::empty(),
            );
            &&& st.od == done.od
            &&& st.events == done.events
            &&& st.server == done.server
            &&& match write_fault(od, index, subindex, data) {
                Some(code) => client.step((st.response->0)) == (
                    client.in_state(State::Idle),
                    ClientReply::Aborted(code),
                ),
                None => match od.write_result(index, subindex, data) {
                    Ok(_) => st.response == Some(ok),
                    Err(e) => client.step((st.response->0)) == (
                        client.in_state(State::Idle),
                        ClientReply::Aborted(abort_for(e)),
                    ),
                },
            }
        }),
{
    match write_fault(od, index, subindex, data) {
        Some(code) => {
            lemma_abort_decodes(index, subindex, code);
        },
        None => match od.write_result(index, subindex, data) {
            Ok(_) => {},
            Err(e) => {
                lemma_abort_decodes(index, subindex, abort_for(e));
            },
        },
    }
}

/// The server's reaction to a segment that fits.
#[verifier::spinoff_prover]
#[verifier::rlimit(40)]
proof fn lemma_server_takes_segment<OD: OdContents>(
    server: ServerModel,
    od: OD,
    events: Seq<OdEvent>,
    setting: Setting,
    t: DownloadModel,
    seg: Seq<u8>,
    last: bool,
)
    requires
        server.transfer == Some(TransferModel::Download(t)),
        seg.len() <= 7,
        t.received.len() + seg.len() <= MAX_TRANSFER,
    ensures
        server.step(
            od,
            events,
            setting.capacity,
            segment_frame(t.toggle, seg, last),
            setting.nmt,
            setting.now,
        ) == (if last {
            server.finish_download(
                od,
                events,
                setting.capacity,
                setting.nmt,
                t.index,
                t.subindex,
                t.received + seg,
                download_segment_frame(t.toggle),
            )
        } else {
            server.answer(
                od,
                events,
                Some(
                    TransferModel::Download(
                        DownloadModel {
                            received: t.received + seg,
                            toggle: !t.toggle,
                            last_activity: setting.now,
                            ..t
                        },
                    ),
                ),
                Some(download_segment_frame(t.toggle)),
            )
        }),
{
    let req = segment_frame(t.toggle, seg, last);
    assert(req[0] / 32 == 0 && req[0] / 2 % 8 == 7 - seg.len());
    assert((req[0] / 16 % 2 == 1) == t.toggle && (req[0] % 2 == 1) == last);
    assert(req.subrange(1, 8 - req[0] / 2 % 8) =~= seg);
}

/// The segments of a download, from the point where `offset` bytes were sent.
#[verifier::spinoff_prover]
#[verifier::rlimit(40)]
proof fn lemma_download_segments<OD: OdContents>(
    client: ClientModel,
    server: ServerModel,
    od: OD,
    events: Seq<OdEvent>,
    setting: Setting,
    t: DownloadModel,
    data: Seq<u8>,
    rounds: nat,
)
    requires
        server.transfer == Some(TransferModel::Download(t)),
        client.total == data.len() <= client.buf.len(),
        data.len() <= MAX_TRANSFER,
        client.buf.take(data.len() as int) == data,
        client.offset == t.received.len() < data.len(),
        t.received == data.take(t.received.len() as int),
        data.len() - t.received.len() <= 7 * (rounds + 1),
        !(setting.nmt == NmtState::Operational && pdo_config_index(t.index)),
    ensures
        ({
            let (client2, reply) = client.next_segment(t.index, t.subindex, t.toggle);
            download_outcome(
                converse(client2, server, od, events, setting, (reply->SendNext_0), rounds),
                server,
                od,
                events,
                setting,
                t.index,
                t.subindex,
                data,
            )
        }),
    decreases rounds,
{
    let (client2, reply) = client.next_segment(t.index, t.subindex, t.toggle);
    let left = data.len() - t.received.len();
    let last = left <= 7;
    let len = if last {
        left
    } else {
        7
    };
    let seg = client.buf.subrange(client.offset as int, client.offset + len);
    assert forall|i: int| 0 <= i < len implies seg[i] == data[client.offset + i] by {
        assert(client.buf.take(data.len() as int)[client.offset + i] == data[client.offset + i]);
    }
    let req = segment_frame(t.toggle, seg, last);
    assert(reply == ClientReply::SendNext(req));
    let received = t.received + seg;
    assert(received =~= data.take(t.received.len() + len));
    let ok = download_segment_frame(t.toggle);
    assert(ok[0] / 32 == 1 && (ok[0] / 16 % 2 == 1) == t.toggle);
    let c = exchange(client2, server, od, events, setting, req);
    lemma_server_takes_segment(server, od, events, setting, t, seg, last);
    if last {
        assert(received =~= data);
        lemma_finish(client2, server, od, events, setting, t.index, t.subindex, data, ok);
        assert(client2.step(ok) == (client2.in_state(State::Idle), ClientReply::DownloadComplete));
        reveal(exchange);
    } else {
        let t2 = DownloadModel {
            received,
            toggle: !t.toggle,
            last_activity: setting.now,
            ..t
        };
        let next = client2.next_segment(t.index, t.subindex, !t.toggle);
        assert(client2.step(ok) == next);
        assert(c.client == next.0 && c.reply == next.1 && c.od == od && c.events == events
            && c.server == server.with(Some(TransferModel::Download(t2)))) by {
            reveal(exchange);
        }
        lemma_download_segments(
            client2,
            c.server,
            od,
            events,
            setting,
            t2,
            data,
            (rounds - 1) as nat,
        );
        assert(c.server.with(None) == server.with(None));
    }
}

/// A write hands exactly the client's bytes to the server's dictionary, in
/// one piece; the client learns that it succeeded, or the abort code of the
/// refusal. (The expedited format cannot express an empty value.)
pub proof fn lemma_download_delivers<OD: OdContents>(
    client: ClientModel,
    server: ServerModel,
    od: OD,
    events: Seq<OdEvent>,
    setting: Setting,
    index: u16,
    subindex: u8,
    data: Seq<u8>,
    rounds: nat,
)
    requires
        client.state == (State::WaitingDownloadInitResponse { index, subindex }),
        client.total == data.len(),
        data.len() > 4 ==> client.offset == 0 && data.len() <= client.buf.len()
            && client.buf.take(data.len() as int) == data,
        0 < data.len() <= MAX_TRANSFER,
        ready(server),
        !(setting.nmt == NmtState::Operational && pdo_config_index(index)),
        data.len() <= 7 * rounds,
    ensures
        download_outcome(
            converse(
                client,
                server,
                od,
                events,
                setting,
                download_request(index, subindex, data),
                rounds,
            ),
            server,
            od,
            events,
            setting,
            index,
            subindex,
            data,
        ),
{
    let req = download_request(index, subindex, data);
    if data.len() <= 4 {
        lemma_addressed_index(
            (0x23 + 4 * (4 - data.len())) as u8,
            index,
            subindex,
            padded(data, 4),
        );
        assert(req[0] / 4 % 4 == 4 - data.len());
        assert(req.subrange(4, 4 + data.len() as int) =~= data);
        lemma_finish(
            client,
            server,
            od,
            events,
            setting,
            index,
            subindex,
            data,
            download_frame(index, subindex),
        );
        assert(client.step(download_frame(index, subindex)) == (
            client.in_state(State::Idle),
            ClientReply::DownloadComplete,
        ));
        reveal(exchange);
    } else {
        lemma_addressed_index(0x21, index, subindex, u32_bytes(data.len() as u32));
        assert(req.skip(4) =~= u32_bytes(data.len() as u32));
        lemma_u32_bytes_roundtrip(data.len() as u32, u32_bytes(data.len() as u32));
        let t = DownloadModel {
            index,
            subindex,
            received: Seq::empty(),
            toggle: false,
            last_activity: setting.now,
        };
        let c = exchange(client, server, od, events, setting, req);
        let next = client.next_segment(index, subindex, false);
        assert(client.step(download_frame(index, subindex)) == next);
        assert(c.client == next.0 && c.reply == next.1 && c.od == od && c.events == events
            && c.server == server.with(Some(TransferModel::Download(t)))) by {
            reveal(exchange);
        }
        assert(t.received =~= data.take(0));
        lemma_download_segments(
            client,
            c.server,
            od,
            events,
            setting,
            t,
            data,
            (rounds - 1) as nat,
        );
        assert(c.server.with(None) == server.with(None));
    }
}

/// A write that the application or the server refuses changes neither the
/// dictionary nor the event queue, and the client learns the abort code.
pub proof fn lemma_refused_download<OD: OdContents>(
    client: ClientModel,
    server: ServerModel,
    od: OD,
    events: Seq<OdEvent>,
    setting: Setting,
    index: u16,
    subindex: u8,
    data: Seq<u8>,
    rounds: nat,
)
    requires
        client.state == (State::WaitingDownloadInitResponse { index, subindex }),
        client.total == data.len(),
        data.len() > 4 ==> client.offset == 0 && data.len() <= client.buf.len()
            && client.buf.take(data.len() as int) == data,
        0 < data.len() <= MAX_TRANSFER,
        ready(server),
        !(setting.nmt == NmtState::Operational && pdo_config_index(index)),
        data.len() <= 7 * rounds,
        write_fault(od, index, subindex, data) is Some,
    ensures
        ({
            let c = converse(
                client,
                server,
                od,
                events,
                setting,
                download_request(index, subindex, data),
                rounds,
            );
            &&& c.reply == ClientReply::Aborted(write_fault(od, index, subindex, data)->0)
            &&& c.od == od
            &&& c.events == events
            &&& c.client.state == State::Idle
        }),
{
    lemma_download_delivers(client, server, od, events, setting, index, subindex, data, rounds);
}

} // verus!
