//! What a client makes of the responses of a server, byte by byte.

use crate::bytes::{lemma_u32_bytes_roundtrip, u32_bytes};
use crate::sdo::client::{ClientModel, ClientReply, State};
use crate::sdo::driver::{StepView, TransferView};
use crate::sdo::protocol::AbortCode;
use crate::transport::FrameView;
use vstd::prelude::*;

verus! {

/// A response that the client does not wait for ends the transfer with an
/// error: none is expected outside a transfer, and within one only that of its
/// kind, which the upper three bits of the first byte tell.
pub proof fn lemma_unexpected_response(c: ClientModel, resp: Seq<u8>)
    requires
        resp.len() == 8,
        resp[0] < 0x80 || resp[0] >= 0xA0,
        c.state is Idle || (c.state is WaitingUploadInitResponse && !(0x40 <= resp[0] < 0x60)) || (
        c.state is UploadSegmented && resp[0] >= 0x20) || (c.state is WaitingDownloadInitResponse
            && !(0x60 <= resp[0] < 0x80)) || (c.state is DownloadSegmented && !(0x20 <= resp[0]
            < 0x40)),
    ensures
        c.step(resp).1 is Error,
        c.step(resp).0.state is Idle,
        c.step(resp).0.buf == c.buf,
{
}

/// A segment of an upload ends the transfer with an error if its toggle bit is
/// not the expected one, or if its bytes do not fit the buffer. Else they come
/// behind those that were received before, and the transfer goes on with the
/// other toggle bit until the last segment.
pub proof fn lemma_upload_segment(
    c: ClientModel,
    index: u16,
    sub: u8,
    toggle: bool,
    data: Seq<u8>,
    last: bool,
    sent_toggle: bool,
    resp: Seq<u8>,
)
    requires
        c.valid(c.buf.len()),
        c.state == (State::UploadSegmented { index, subindex: sub, toggle }),
        data.len() <= 7,
        resp.len() == 8,
        resp[0] == (if sent_toggle {
            0x10int
        } else {
            0
        }) + 2 * (7 - data.len()) + (if last {
            1int
        } else {
            0
        }),
        resp.subrange(1, 1 + data.len() as int) == data,
    ensures
        sent_toggle != toggle || c.offset + data.len() > c.buf.len() ==> c.step(resp).1 is Error
            && c.step(resp).0.state is Idle,
        sent_toggle == toggle && c.offset + data.len() <= c.buf.len() ==> {
            let next = c.step(resp).0;
            &&& next.buf.len() == c.buf.len()
            &&& next.offset == c.offset + data.len()
            &&& next.buf.take(next.offset as int) == c.buf.take(c.offset as int) + data
            &&& last ==> next.state is Idle && c.step(resp).1 == ClientReply::UploadComplete(
                (c.offset + data.len()) as nat,
            )
            &&& !last ==> next.state == (State::UploadSegmented {
                index,
                subindex: sub,
                toggle: !toggle,
            }) && c.step(resp).1 == ClientReply::SendNext(
                seq![
                    if toggle {
                        0x60u8
                    } else {
                        0x70u8
                    },
                    0,
                    0,
                    0,
                    0,
                    0,
                    0,
                    0,
                ],
            )
        },
{
    if sent_toggle == toggle && c.offset + data.len() <= c.buf.len() {
        let next = c.step(resp).0;
        assert(next.buf.take(next.offset as int) =~= c.buf.take(c.offset as int) + data);
        if !last {
            assert(c.step(resp).1->SendNext_0 =~= seq![
                if toggle {
                    0x60u8
                } else {
                    0x70u8
                },
                0,
                0,
                0,
                0,
                0,
                0,
                0,
            ]);
        }
    }
}

/// A value of one to four bytes comes with the first response: the client then
/// holds it and has done.
pub proof fn lemma_short_upload(c: ClientModel, index: u16, sub: u8, value: Seq<u8>, resp: Seq<u8>)
    requires
        c.state == (State::WaitingUploadInitResponse { index, subindex: sub }),
        1 <= value.len() <= 4,
        value.len() <= c.buf.len(),
        resp.len() == 8,
        resp[0] == 0x43 + 4 * (4 - value.len()),
        resp.subrange(4, 4 + value.len() as int) == value,
    ensures
        c.step(resp).1 == ClientReply::UploadComplete(value.len()),
        c.step(resp).0.state is Idle,
        c.step(resp).0.buf.take(value.len() as int) == value,
{
    assert(c.step(resp).0.buf.take(value.len() as int) =~= value);
}

/// The client asks for the segments of a longer value, the first with a toggle
/// bit of zero.
pub proof fn lemma_long_upload_begins(c: ClientModel, index: u16, sub: u8, size: u32, resp: Seq<u8>)
    requires
        c.state == (State::WaitingUploadInitResponse { index, subindex: sub }),
        resp.len() == 8,
        resp[0] == 0x41,
        resp.skip(4) == u32_bytes(size),
    ensures
        c.step(resp).0.state == (State::UploadSegmented { index, subindex: sub, toggle: false }),
        c.step(resp).0.offset == 0,
        c.step(resp).0.total == size,
        c.step(resp).1 == ClientReply::SendNext(seq![0x60u8, 0, 0, 0, 0, 0, 0, 0]),
{
    lemma_u32_bytes_roundtrip(size, u32_bytes(size));
    assert(c.step(resp).1->SendNext_0 =~= seq![0x60u8, 0, 0, 0, 0, 0, 0, 0]);
}

/// A download of up to four bytes is complete with the first response. A longer
/// one goes on with a segment of the next seven bytes, or of those that are
/// left, and is complete when the last segment is confirmed.
pub proof fn lemma_download_response(
    c: ClientModel,
    index: u16,
    sub: u8,
    toggle: bool,
    resp: Seq<u8>,
)
    requires
        c.valid(c.buf.len()),
        resp.len() == 8,
        ({
            ||| c.state == (State::WaitingDownloadInitResponse { index, subindex: sub }) && toggle
                && 0x60 <= resp[0] < 0x80
            ||| c.state == (State::DownloadSegmented { index, subindex: sub, toggle }) && resp[0]
                == (if toggle {
                0x30int
            } else {
                0x20
            })
        }),
    ensures
        c.state is WaitingDownloadInitResponse && c.total <= 4 ==> c.step(
            resp,
        ).1 is DownloadComplete && c.step(resp).0.state is Idle,
        c.state is DownloadSegmented && c.offset == c.total ==> c.step(resp).1 is DownloadComplete
            && c.step(resp).0.state is Idle,
        (c.state is WaitingDownloadInitResponse && c.total > 4) || (c.state is DownloadSegmented
            && c.offset < c.total) ==> {
            let next = c.step(resp).0;
            &&& next.state == (State::DownloadSegmented { index, subindex: sub, toggle: !toggle })
            &&& next.buf == c.buf
            &&& next.total == c.total
            &&& c.offset < next.offset <= c.total
            &&& next.offset == c.offset + 7 || (next.offset == c.total && c.total - c.offset <= 7)
            &&& c.step(resp).1 matches ClientReply::SendNext(frame) && {
                &&& frame.len() == 8
                &&& frame[0] == (if toggle {
                    0int
                } else {
                    0x10
                }) + 2 * (7 - (next.offset - c.offset)) + (if next.offset == c.total {
                    1int
                } else {
                    0
                })
                &&& frame.subrange(1, 1 + next.offset - c.offset) == c.buf.subrange(
                    c.offset as int,
                    next.offset as int,
                )
            }
        },
{
    if (c.state is WaitingDownloadInitResponse && c.total > 4) || (c.state is DownloadSegmented
        && c.offset < c.total) {
        let next = c.step(resp).0;
        let frame = c.step(resp).1->SendNext_0;
        assert(frame.subrange(1, 1 + next.offset - c.offset) =~= c.buf.subrange(
            c.offset as int,
            next.offset as int,
        ));
    }
}

/// A confirmation with the wrong toggle bit ends a download with an error.
pub proof fn lemma_download_toggle(c: ClientModel, resp: Seq<u8>)
    requires
        resp.len() == 8,
        c.state matches State::DownloadSegmented { index, subindex, toggle } && resp[0] == (
        if toggle {
            0x20int
        } else {
            0x30
        }),
    ensures
        c.step(resp).1 is Error,
        c.step(resp).0.state is Idle,
{
}

/// An abort of the object of the transfer ends it with the code that the
/// response carries, least significant byte first; one of another object does
/// not disturb it, unless it names no object.
pub proof fn lemma_abort_response(
    c: ClientModel,
    index: u16,
    sub: u8,
    code: AbortCode,
    low: u8,
    high: u8,
    other_sub: u8,
    resp: Seq<u8>,
)
    requires
        c.state.object() == Some((index, sub)),
        resp.len() == 8,
        resp[0] == 0x80,
        resp[1] == low,
        resp[2] == high,
        resp[3] == other_sub,
        resp.skip(4) == u32_bytes(code.to_u32()),
    ensures
        (low + 0x100 * high == index && other_sub == sub) || (low == 0 && high == 0 && other_sub
            == 0) ==> c.step(resp).0.state is Idle && (c.step(
            resp,
        ).1 matches ClientReply::Aborted(got) && got.to_u32() == code.to_u32()),
        !((low + 0x100 * high == index && other_sub == sub) || (low == 0 && high == 0 && other_sub
            == 0)) ==> c.step(resp) == (c, ClientReply::IgnoredAbort),
{
    lemma_u32_bytes_roundtrip(code.to_u32(), resp.skip(4));
}

/// A transfer ends with an error when the response is none to its request: a
/// read cannot end as a write, nor a write as a read. The next request goes to
/// the server of the node.
pub proof fn lemma_transfer_replies(t: TransferView, frame: FrameView)
    requires
        frame.id == 0x580 + t.target.raw(),
        frame.data.len() == 8,
    ensures
        ({
            let (next, step) = t.step(frame);
            let (client, reply) = t.client.step(frame.data);
            &&& next.target == t.target && next.upload == t.upload && next.client == client
            &&& reply is Error ==> step is ProtocolError
            &&& reply matches ClientReply::UploadComplete(n) ==> if t.upload {
                step == StepView::Uploaded(client.buf.take(n as int))
            } else {
                step is ProtocolError
            }
            &&& reply is DownloadComplete ==> if t.upload {
                step is ProtocolError
            } else {
                step is Downloaded
            }
            &&& reply matches ClientReply::SendNext(data) ==> (step matches StepView::Send(f)
                && f.id == 0x600 + t.target.raw() && f.data == data)
            &&& reply matches ClientReply::Aborted(code) ==> step == StepView::Aborted(code)
            &&& reply is IgnoredAbort ==> step is Ignored
        }),
{
}

} // verus!
