//! Complete SDO transfers with one remote node: which frame to send next, and
//! what to make of each frame that is received.
//!
//! The caller sends and receives:
//! 1. `begin_upload()` or `begin_download()` gives the transfer and its first frame.
//! 2. Every received frame goes to `SdoTransfer::on_frame()`.
//! 3. `Send` asks for another frame to be sent; the other outcomes, except
//!    `Ignored`, end the transfer.

use crate::bytes::to_vec;
use crate::cobid::{CobId, NodeId};
use crate::sdo::client::{
    download_request, upload_request, ClientModel, ClientReply, SdoClient, SdoClientResult, State,
};
use crate::sdo::protocol::AbortCode;
use crate::transport::{CanFrame, FrameView};
use vstd::prelude::*;
use vstd::slice::slice_subrange;

verus! {

/// Errors from SDO operations over a transport with errors of type `E`.
#[derive(Clone, Copy, Debug, PartialEq, Eq)]
pub enum SdoError<E> {
    /// Transfer aborted by the remote node.
    Aborted(AbortCode),
    /// Protocol error (unexpected response, toggle mismatch, etc.)
    ProtocolError,
    /// CAN transport error.
    Transport(E),
    /// Transfer timed out waiting for a response.
    Timeout,
}

/// What to do after a received frame.
pub enum TransferStep {
    /// The frame has nothing to do with the transfer: keep waiting.
    Ignored,
    /// Send this frame, then keep waiting.
    Send(CanFrame),
    /// The upload is complete. This is the value.
    Uploaded(Vec<u8>),
    /// The download is complete.
    Downloaded,
    /// The remote node aborted the transfer.
    Aborted(AbortCode),
    /// The remote node answered something unexpected.
    ProtocolError,
}

/// What a step says.
pub enum StepView {
    Ignored,
    Send(FrameView),
    Uploaded(Seq<u8>),
    Downloaded,
    Aborted(AbortCode),
    ProtocolError,
}

impl View for TransferStep {
    type V = StepView;

    open spec fn view(&self) -> StepView {
        match self {
            TransferStep::Ignored => StepView::Ignored,
            TransferStep::Send(f) => StepView::Send(f@),
            TransferStep::Uploaded(v) => StepView::Uploaded(v@),
            TransferStep::Downloaded => StepView::Downloaded,
            TransferStep::Aborted(c) => StepView::Aborted(*c),
            TransferStep::ProtocolError => StepView::ProtocolError,
        }
    }
}

/// The state of a transfer.
#[verifier::ext_equal]
pub struct TransferView {
    pub target: NodeId,
    /// Whether a value is read, or else written.
    pub upload: bool,
    pub client: ClientModel,
}

/// A frame is a response of a node's SDO server.
pub open spec fn is_response(target: NodeId, frame: FrameView) -> bool {
    frame.id == 0x580 + target.raw() && frame.data.len() == 8
}

impl TransferView {
    /// What a frame means for the transfer, and the transfer after it.
    pub open spec fn step(self, frame: FrameView) -> (TransferView, StepView) {
        if !is_response(self.target, frame) {
            (self, StepView::Ignored)
        } else {
            let (client, reply) = self.client.step(frame.data);
            (
                TransferView { client, ..self },
                match reply {
                    ClientReply::UploadComplete(n) if self.upload => StepView::Uploaded(
                        client.buf.take(n as int),
                    ),
                    ClientReply::DownloadComplete if !self.upload => StepView::Downloaded,
                    ClientReply::SendNext(data) => StepView::Send(
                        FrameView { id: (0x600 + self.target.raw()) as u16, data },
                    ),
                    ClientReply::Aborted(code) => StepView::Aborted(code),
                    ClientReply::IgnoredAbort => StepView::Ignored,
                    _ => StepView::ProtocolError,
                },
            )
        }
    }
}

/// Largest value that a transfer can carry, in bytes.
pub const TRANSFER_BUFFER: usize = 256;

/// A transfer in progress.
pub struct SdoTransfer {
    client: SdoClient<256>,
    target: NodeId,
    upload: bool,
}

impl View for SdoTransfer {
    type V = TransferView;

    closed spec fn view(&self) -> TransferView {
        TransferView { target: self.target, upload: self.upload, client: self.client@ }
    }
}

/// High-level SDO driver for a single remote node.
///
/// Stateless between transfers.
#[derive(Clone, Copy, Debug)]
pub struct SdoDriver {
    target: NodeId,
}

impl View for SdoDriver {
    type V = NodeId;

    closed spec fn view(&self) -> NodeId {
        self.target
    }
}

impl SdoDriver {
    pub fn new(target: NodeId) -> (r: Self)
        ensures
            r@ == target,
    {
        SdoDriver { target }
    }

    pub fn target(&self) -> (r: NodeId)
        ensures
            r == self@,
    {
        self.target
    }

    /// Begin to read a value from the remote node's object dictionary.
    /// Returns the transfer and the frame to send.
    ///
    /// For expedited transfers (up to 4 bytes), this completes in one
    /// round-trip. For segmented transfers, multiple frames are exchanged.
    pub fn begin_upload(&self, index: u16, subindex: u8) -> (r: (SdoTransfer, CanFrame))
        ensures
            r.0@.target == self@,
            r.0@.upload,
            r.0@.client.state == (State::WaitingUploadInitResponse { index, subindex }),
            r.0@.client.offset == 0,
            r.0@.client.buf.len() == TRANSFER_BUFFER,
            r.0.ready(),
            r.1@ == (FrameView {
                id: (0x600 + self@.raw()) as u16,
                data: upload_request(index, subindex),
            }),
    {
        let mut client = SdoClient::<256>::new(self.target);
        let frame = client.start_upload(index, subindex);
        (SdoTransfer { client, target: self.target, upload: true }, frame)
    }

    /// Begin to write a value to the remote node's object dictionary.
    /// Returns the transfer and the frame to send, or `None` if the value is
    /// larger than a transfer can carry.
    pub fn begin_download(&self, index: u16, subindex: u8, data: &[u8]) -> (r: Option<
        (SdoTransfer, CanFrame),
    >)
        ensures
            r is Some <==> data@.len() <= TRANSFER_BUFFER,
            r matches Some((transfer, frame)) ==> {
                &&& transfer@.target == self@
                &&& !transfer@.upload
                &&& transfer@.client.state == (State::WaitingDownloadInitResponse {
                    index,
                    subindex,
                })
                &&& transfer@.client.total == data@.len()
                &&& data@.len() > 4 ==> transfer@.client.offset == 0
                    && transfer@.client.buf.take(data@.len() as int) == data@
                &&& transfer.ready()
                &&& frame@ == (FrameView {
                    id: (0x600 + self@.raw()) as u16,
                    data: download_request(index, subindex, data@),
                })
            },
    {
        let mut client = SdoClient::<256>::new(self.target);
        match client.start_download(index, subindex, data) {
            Ok(frame) => {
                assert(data@.len() > 4 ==> client@.buf.take(data@.len() as int) =~= data@);
                Some((SdoTransfer { client, target: self.target, upload: false }, frame))
            },
            Err(_) => None,
        }
    }
}

impl SdoTransfer {
    /// The transfer talks to its target and has its whole buffer.
    pub closed spec fn ready(self) -> bool {
        self.client.target() == self.target && self.client@.buf.len() == TRANSFER_BUFFER
    }

    /// Handle a received frame. Frames that are no SDO response of the target
    /// node (heartbeat, PDO, etc.) are ignored.
    pub fn on_frame(&mut self, frame: &CanFrame) -> (r: TransferStep)
        requires
            old(self).ready(),
        ensures
            final(self).ready(),
            final(self)@ == old(self)@.step(frame@).0,
            r@ == old(self)@.step(frame@).1,
    {
        let data = frame.data();
        if frame.raw_id() != CobId::sdo_tx(self.target).raw() || data.len() != 8 {
            return TransferStep::Ignored;
        }
        let resp: [u8; 8] = [
            data[0],
            data[1],
            data[2],
            data[3],
            data[4],
            data[5],
            data[6],
            data[7],
        ];
        assert(resp@ =~= frame@.data);
        let ghost before = self.client@;
        proof {
            lemma_upload_ends_with_its_value(before, resp@);
        }
        match self.client.process_response(&resp) {
            SdoClientResult::UploadComplete { data_len } => {
                if self.upload {
                    let value = to_vec(slice_subrange(self.client.data(), 0, data_len));
                    assert(value@ =~= self.client@.buf.take(data_len as int));
                    TransferStep::Uploaded(value)
                } else {
                    TransferStep::ProtocolError
                }
            },
            SdoClientResult::DownloadComplete => {
                if self.upload {
                    TransferStep::ProtocolError
                } else {
                    TransferStep::Downloaded
                }
            },
            SdoClientResult::SendNext(next) => TransferStep::Send(next),
            SdoClientResult::Aborted(code) => TransferStep::Aborted(code),
            SdoClientResult::IgnoredAbort => TransferStep::Ignored,
            SdoClientResult::Error => TransferStep::ProtocolError,
        }
    }
}

/// When an upload is complete, the client holds as many bytes as it says.
proof fn lemma_upload_ends_with_its_value(client: ClientModel, resp: Seq<u8>)
    ensures
        client.step(resp).1 matches ClientReply::UploadComplete(n) ==> client.step(resp).0.offset
            == n,
        client.step(resp).0.buf.len() == client.buf.len(),
{
}

/// Put an uploaded value into a buffer, of which a shorter one gets the first
/// bytes. Returns the number of bytes written into the buffer.
pub fn deliver(value: &Vec<u8>, buf: &mut [u8]) -> (r: usize)
    ensures
        r == (if value@.len() <= old(buf)@.len() {
            value@.len()
        } else {
            old(buf)@.len()
        }),
        final(buf)@.len() == old(buf)@.len(),
        forall|i: int|
            0 <= i < old(buf)@.len() ==> #[trigger] final(buf)@[i] == (if i < value@.len() {
                value@[i]
            } else {
                old(buf)@[i]
            }),
{
    let mut i: usize = 0;
    while i < value.len() && i < buf.len()
        invariant
            i <= value@.len(),
            i <= buf@.len(),
            buf@.len() == old(buf)@.len(),
            forall|j: int|
                0 <= j < buf@.len() ==> #[trigger] buf@[j] == (if j < i {
                    value@[j]
                } else {
                    old(buf)@[j]
                }),
        decreases value@.len() - i,
    {
        buf[i] = value[i];
        i += 1;
    }
    i
}

/// The end of the time that a transfer may take.
#[derive(Clone, Copy, Debug, PartialEq, Eq, Structural)]
pub struct Deadline {
    pub at_us: u64,
}

impl Deadline {
    /// The deadline of a transfer that begins now.
    pub fn after(now_us: u64, timeout_us: u64) -> (r: Self)
        ensures
            r.at_us == (now_us + timeout_us) % 0x1_0000_0000_0000_0000,
    {
        Deadline { at_us: now_us.wrapping_add(timeout_us) }
    }

    /// Whether the transfer has to be given up.
    pub fn passed(self, now_us: u64) -> (r: bool)
        ensures
            r == (now_us >= self.at_us),
    {
        now_us >= self.at_us
    }
}

/// Frames of other senders never disturb a transfer.
pub proof fn lemma_other_frames_are_ignored(t: TransferView, frame: FrameView)
    requires
        frame.id != 0x580 + t.target.raw(),
    ensures
        t.step(frame) == (t, StepView::Ignored),
{
}

} // verus!
