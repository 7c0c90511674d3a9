//! SDO client: reads and writes the object dictionary of a remote node.

use crate::bytes::{
    bit, byte_or_zero, le_u32, overwrite, overwritten, padded, u32_bytes, u32_from_le, u32_to_le,
};
use crate::cobid::{CobId, NodeId};
use crate::sdo::protocol::{
    addressed, command_specifier, index_of, lemma_abort_codes_are_distinct, parse_index_sub, segment_frame, AbortCode,
};
use crate::transport::{CanFrame, FrameView};
use vstd::prelude::*;
use vstd::slice::slice_subrange;

verus! {

/// Result of processing an SDO response in the client.
pub enum SdoClientResult {
    /// Upload (read) transfer complete. Data is in the client's buffer.
    UploadComplete { data_len: usize },
    /// Download (write) transfer acknowledged by server.
    DownloadComplete,
    /// Segmented transfer: send this frame next.
    SendNext(CanFrame),
    /// Transfer aborted by server.
    Aborted(AbortCode),
    /// Abort for an unrelated index/subindex while a transfer is active
    /// (e.g. another client's rejected request on the same SDO channel).
    /// The active transfer continues; keep waiting for the real response.
    IgnoredAbort,
    /// Protocol error (unexpected response).
    Error,
}

/// What the client is waiting for.
#[derive(Clone, Copy, Debug, PartialEq, Eq, Structural)]
pub enum State {
    Idle,
    WaitingUploadInitResponse { index: u16, subindex: u8 },
    UploadSegmented { index: u16, subindex: u8, toggle: bool },
    WaitingDownloadInitResponse { index: u16, subindex: u8 },
    DownloadSegmented { index: u16, subindex: u8, toggle: bool },
}

impl State {
    /// The object of the active transfer, for use in contracts.
    pub open spec fn object(self) -> Option<(u16, u8)> {
        match self {
            State::Idle => None,
            State::WaitingUploadInitResponse { index, subindex } => Some((index, subindex)),
            State::UploadSegmented { index, subindex, .. } => Some((index, subindex)),
            State::WaitingDownloadInitResponse { index, subindex } => Some((index, subindex)),
            State::DownloadSegmented { index, subindex, .. } => Some((index, subindex)),
        }
    }

    /// The object of the active transfer.
    fn active(&self) -> (r: Option<(u16, u8)>)
        ensures
            r == self.object(),
    {
        match *self {
            State::Idle => None,
            State::WaitingUploadInitResponse { index, subindex } => Some((index, subindex)),
            State::UploadSegmented { index, subindex, .. } => Some((index, subindex)),
            State::WaitingDownloadInitResponse { index, subindex } => Some((index, subindex)),
            State::DownloadSegmented { index, subindex, .. } => Some((index, subindex)),
        }
    }
}

/// The state of a client: what it waits for, its buffer, how much of the
/// buffer was received or sent, and the announced size of the transfer.
#[verifier::ext_equal]
pub struct ClientModel {
    pub state: State,
    pub buf: Seq<u8>,
    pub offset: nat,
    pub total: nat,
}

/// What the client makes of a response.
pub enum ClientReply {
    UploadComplete(nat),
    DownloadComplete,
    SendNext(Seq<u8>),
    Aborted(AbortCode),
    IgnoredAbort,
    Error,
}

/// The abort code with a given number; numbers that no code has stand for a
/// general error.
pub open spec fn abort_code_of(n: u32) -> AbortCode {
    if exists|c: AbortCode| c.to_u32() == n {
        choose|c: AbortCode| c.to_u32() == n
    } else {
        AbortCode::GeneralError
    }
}

/// The request to read an object.
pub open spec fn upload_request(index: u16, subindex: u8) -> Seq<u8> {
    addressed(0x40, index, subindex) + seq![0u8, 0, 0, 0]
}

/// The request to write an object: with the value itself if it has at most 4
/// bytes, else with its size.
pub open spec fn download_request(index: u16, subindex: u8, value: Seq<u8>) -> Seq<u8> {
    if value.len() <= 4 {
        addressed((0x23 + 4 * (4 - value.len())) as u8, index, subindex) + padded(value, 4)
    } else {
        addressed(0x21, index, subindex) + u32_bytes(value.len() as u32)
    }
}

/// The request for the next segment of an upload.
pub open spec fn upload_segment_request(toggle: bool) -> Seq<u8> {
    seq![(0x60 + 16 * bit(toggle)) as u8, 0, 0, 0, 0, 0, 0, 0]
}

impl ClientModel {
    /// What holds of every client with a buffer of the given size.
    pub open spec fn valid(self, size: nat) -> bool {
        &&& self.buf.len() == size
        &&& self.offset <= size
        &&& self.state is WaitingDownloadInitResponse && self.total > 4 ==> self.offset == 0
            && self.total <= size
        &&& self.state is DownloadSegmented ==> self.offset <= self.total <= size
    }

    /// The client in another state.
    pub open spec fn in_state(self, state: State) -> ClientModel {
        ClientModel { state, ..self }
    }

    /// The transfer failed.
    pub open spec fn failed(self) -> (ClientModel, ClientReply) {
        (self.in_state(State::Idle), ClientReply::Error)
    }

    /// The next segment of a download, and the client after sending it.
    pub open spec fn next_segment(self, index: u16, subindex: u8, toggle: bool) -> (
        ClientModel,
        ClientReply,
    ) {
        let last = self.total - self.offset <= 7;
        let end: nat = if last {
            self.total
        } else {
            self.offset + 7
        };
        (
            ClientModel {
                state: State::DownloadSegmented { index, subindex, toggle },
                offset: end,
                ..self
            },
            ClientReply::SendNext(
                segment_frame(toggle, self.buf.subrange(self.offset as int, end as int), last),
            ),
        )
    }

    /// The number of data bytes of an expedited upload response.
    pub open spec fn expedited_len(resp: Seq<u8>) -> int {
        if resp[0] % 2 == 1 {
            4 - resp[0] / 4 % 4
        } else {
            4
        }
    }

    /// The response is to an upload and its value fits the buffer.
    pub open spec fn accepts(self, resp: Seq<u8>) -> bool {
        self.state is WaitingUploadInitResponse && resp[0] / 32 == 2 && resp[0] / 2 % 2 == 1
            ==> Self::expedited_len(resp) <= self.buf.len()
    }

    /// A response to the request to read.
    pub open spec fn upload_init(self, index: u16, subindex: u8, resp: Seq<u8>) -> (
        ClientModel,
        ClientReply,
    ) {
        if resp[0] / 2 % 2 == 1 {
            let len = Self::expedited_len(resp);
            (
                ClientModel {
                    state: State::Idle,
                    buf: overwritten(self.buf, 0, resp.subrange(4, 4 + len)),
                    offset: len as nat,
                    total: self.total,
                },
                ClientReply::UploadComplete(len as nat),
            )
        } else {
            (
                ClientModel {
                    state: State::UploadSegmented { index, subindex, toggle: false },
                    buf: self.buf,
                    offset: 0,
                    total: if resp[0] % 2 == 1 {
                        le_u32(resp.skip(4)) as nat
                    } else {
                        self.total
                    },
                },
                ClientReply::SendNext(upload_segment_request(false)),
            )
        }
    }

    /// A segment of an upload.
    pub open spec fn upload_segment(
        self,
        index: u16,
        subindex: u8,
        toggle: bool,
        resp: Seq<u8>,
    ) -> (ClientModel, ClientReply) {
        let len = 7 - resp[0] / 2 % 8;
        let received = ClientModel {
            buf: overwritten(self.buf, self.offset as int, resp.subrange(1, 1 + len)),
            offset: (self.offset + len) as nat,
            ..self
        };
        if (resp[0] / 16 % 2 == 1) != toggle || self.offset + len > self.buf.len() {
            self.failed()
        } else if resp[0] % 2 == 1 {
            (received.in_state(State::Idle), ClientReply::UploadComplete(received.offset))
        } else {
            (
                received.in_state(State::UploadSegmented { index, subindex, toggle: !toggle }),
                ClientReply::SendNext(upload_segment_request(!toggle)),
            )
        }
    }

    /// What the client makes of a response, and the client after it.
    pub open spec fn step(self, resp: Seq<u8>) -> (ClientModel, ClientReply) {
        let cs = resp[0] / 32;
        let address = (index_of(resp), resp[3]);
        if cs == 4 {
            if self.state.object() is Some && self.state.object() != Some(address) && address != (
                0u16,
                0u8,
            ) {
                (self, ClientReply::IgnoredAbort)
            } else {
                (
                    self.in_state(State::Idle),
                    ClientReply::Aborted(abort_code_of(le_u32(resp.skip(4)))),
                )
            }
        } else {
            match self.state {
                State::Idle => self.failed(),
                State::WaitingUploadInitResponse { index, subindex } => if cs != 2 {
                    self.failed()
                } else {
                    self.upload_init(index, subindex, resp)
                },
                State::UploadSegmented { index, subindex, toggle } => if cs != 0 {
                    self.failed()
                } else {
                    self.upload_segment(index, subindex, toggle, resp)
                },
                State::WaitingDownloadInitResponse { index, subindex } => if cs != 3 {
                    self.failed()
                } else if self.total <= 4 {
                    (self.in_state(State::Idle), ClientReply::DownloadComplete)
                } else {
                    self.next_segment(index, subindex, false)
                },
                State::DownloadSegmented { index, subindex, toggle } => if cs != 1 || (resp[0] / 16
                    % 2 == 1) != toggle {
                    self.failed()
                } else if self.offset >= self.total {
                    (self.in_state(State::Idle), ClientReply::DownloadComplete)
                } else {
                    self.next_segment(index, subindex, !toggle)
                },
            }
        }
    }
}

/// A result carries what the client made of a response, frames being
/// addressed to the target node.
pub open spec fn reports(r: SdoClientResult, reply: ClientReply, target: NodeId) -> bool {
    match reply {
        ClientReply::UploadComplete(n) => r matches SdoClientResult::UploadComplete { data_len }
            && data_len == n,
        ClientReply::DownloadComplete => r is DownloadComplete,
        ClientReply::SendNext(data) => r matches SdoClientResult::SendNext(f) && f@ == (FrameView {
            id: (0x600 + target.raw()) as u16,
            data,
        }),
        ClientReply::Aborted(code) => r matches SdoClientResult::Aborted(c) && c == code,
        ClientReply::IgnoredAbort => r is IgnoredAbort,
        ClientReply::Error => r is Error,
    }
}

/// SDO client for talking to a remote CANopen node.
///
/// Tracks one active transfer at a time. The user drives the transfer loop:
/// 1. Call `start_upload()` or `start_download()` to get the first frame to send.
/// 2. Send the frame via transport.
/// 3. When a response arrives, call `process_response()`.
/// 4. If it returns `SendNext(frame)`, send that frame and repeat from 3.
/// 5. `UploadComplete` or `DownloadComplete` signals success.
///
/// The `BUF` const generic controls the maximum segmented transfer size.
pub struct SdoClient<const BUF: usize> {
    target_node: NodeId,
    state: State,
    /// Shared buffer: holds received data during upload, or data to send during download.
    buf: [u8; BUF],
    offset: usize,
    total_len: usize,
}

impl<const BUF: usize> View for SdoClient<BUF> {
    type V = ClientModel;

    closed spec fn view(&self) -> ClientModel {
        ClientModel {
            state: self.state,
            buf: self.buf@,
            offset: self.offset as nat,
            total: self.total_len as nat,
        }
    }
}

impl<const BUF: usize> SdoClient<BUF> {
    #[verifier::type_invariant]
    spec fn inv(self) -> bool {
        self@.valid(BUF as nat)
    }

    /// The node that the client talks to, for use in contracts.
    pub closed spec fn target(self) -> NodeId {
        self.target_node
    }

    pub fn new(target: NodeId) -> (r: Self)
        ensures
            r.target() == target,
            r@ == (ClientModel {
                state: State::Idle,
                buf: Seq::new(BUF as nat, |i: int| 0u8),
                offset: 0,
                total: 0,
            }),
    {
        let r = SdoClient {
            target_node: target,
            state: State::Idle,
            buf: [0u8; BUF],
            offset: 0,
            total_len: 0,
        };
        assert(r.buf@ =~= Seq::new(BUF as nat, |i: int| 0u8));
        r
    }

    /// Access the data buffer after an UploadComplete.
    pub fn data(&self) -> (r: &[u8])
        ensures
            r@ == self@.buf.take(self@.offset as int),
            self@.valid(BUF as nat),
    {
        proof {
            use_type_invariant(self);
        }
        let r = slice_subrange(self.buf.as_slice(), 0, self.offset);
        assert(r@ =~= self@.buf.take(self@.offset as int));
        r
    }

    /// A frame from the client to its target.
    fn frame(&self, data: &[u8; 8]) -> (r: CanFrame)
        ensures
            r@ == (FrameView { id: (0x600 + self.target().raw()) as u16, data: data@ }),
    {
        CanFrame::new(CobId::sdo_rx(self.target_node).raw(), data.as_slice()).unwrap()
    }

    /// Start an upload (read) transfer. Returns the initiate request frame to send.
    pub fn start_upload(&mut self, index: u16, subindex: u8) -> (r: CanFrame)
        ensures
            final(self).target() == old(self).target(),
            final(self)@ == (ClientModel {
                state: State::WaitingUploadInitResponse { index, subindex },
                buf: old(self)@.buf,
                offset: 0,
                total: 0,
            }),
            r@ == (FrameView {
                id: (0x600 + old(self).target().raw()) as u16,
                data: upload_request(index, subindex),
            }),
    {
        proof {
            use_type_invariant(&*self);
        }
        self.state = State::Idle;
        self.offset = 0;
        self.total_len = 0;
        self.state = State::WaitingUploadInitResponse { index, subindex };
        let data: [u8; 8] = [0x40, (index % 256) as u8, (index / 256) as u8, subindex, 0, 0, 0, 0];
        assert(data@ =~= upload_request(index, subindex));
        self.frame(&data)
    }

    /// Start a download (write) transfer. Returns the initiate request frame
    /// to send, or `Err(())` if `value` does not fit the client's `BUF`-byte
    /// transfer buffer (nothing is sent; the client stays idle).
    pub fn start_download(&mut self, index: u16, subindex: u8, value: &[u8]) -> (r: Result<
        CanFrame,
        (),
    >)
        ensures
            final(self).target() == old(self).target(),
            r is Ok <==> value@.len() <= 4 || value@.len() <= BUF,
            r matches Ok(f) ==> {
                &&& f@ == (FrameView {
                    id: (0x600 + old(self).target().raw()) as u16,
                    data: download_request(index, subindex, value@),
                })
                &&& final(self)@ == (ClientModel {
                    state: State::WaitingDownloadInitResponse { index, subindex },
                    buf: if value@.len() <= 4 {
                        old(self)@.buf
                    } else {
                        overwritten(old(self)@.buf, 0, value@)
                    },
                    offset: if value@.len() <= 4 {
                        old(self)@.offset
                    } else {
                        0
                    },
                    total: value@.len(),
                })
            },
            r is Err ==> final(self)@ == (ClientModel {
                state: State::Idle,
                buf: old(self)@.buf,
                offset: 0,
                total: 0,
            }),
    {
        proof {
            use_type_invariant(&*self);
        }
        self.state = State::Idle;
        if value.len() <= 4 {
            // Expedited download
            self.total_len = value.len();
            self.state = State::WaitingDownloadInitResponse { index, subindex };
            let n: u8 = (4 - value.len()) as u8;
            let data: [u8; 8] = [
                0x23 + 4 * n,
                (index % 256) as u8,
                (index / 256) as u8,
                subindex,
                byte_or_zero(value, 0),
                byte_or_zero(value, 1),
                byte_or_zero(value, 2),
                byte_or_zero(value, 3),
            ];
            assert(data@ =~= download_request(index, subindex, value@));
            Ok(self.frame(&data))
        } else {
            self.offset = 0;
            if value.len() > BUF {
                self.total_len = 0;
                return Err(());
            }
            // Segmented download: store data in shared buffer

            let mut buf: [u8; BUF] = self.buf;
            overwrite(&mut buf, 0, value);
            self.buf = buf;
            self.total_len = value.len();
            self.state = State::WaitingDownloadInitResponse { index, subindex };
            let size: [u8; 4] = u32_to_le(value.len() as u32);
            let data: [u8; 8] = [
                0x21,
                (index % 256) as u8,
                (index / 256) as u8,
                subindex,
                size[0],
                size[1],
                size[2],
                size[3],
            ];
            assert(data@ =~= download_request(index, subindex, value@));
            Ok(self.frame(&data))
        }
    }

    /// Process an SDO response from the server.
    pub fn process_response(&mut self, response: &[u8; 8]) -> (r: SdoClientResult)
        requires
            old(self)@.accepts(response@),
        ensures
            final(self).target() == old(self).target(),
            final(self)@ == old(self)@.step(response@).0,
            reports(r, old(self)@.step(response@).1, old(self).target()),
            final(self)@.valid(BUF as nat),
    {
        proof {
            use_type_invariant(&*self);
        }
        let cs: u8 = command_specifier(response[0]);
        // While a transfer is active, only an abort addressing the active
        // object, or the channel-level 0x0000:00, cancels it; aborts for
        // unrelated objects are ignored.
        if cs == 4 {
            let (abort_index, abort_sub) = parse_index_sub(response);
            if let Some((index, subindex)) = self.state.active() {
                let channel_level: bool = abort_index == 0 && abort_sub == 0;
                if !channel_level && (abort_index != index || abort_sub != subindex) {
                    return SdoClientResult::IgnoredAbort;
                }
            }
            self.state = State::Idle;
            let tail = slice_subrange(response.as_slice(), 4, 8);
            assert(tail@ =~= response@.skip(4));
            return SdoClientResult::Aborted(abort_code_from(u32_from_le(tail)));
        }
        match self.state {
            State::Idle => SdoClientResult::Error,
            State::WaitingUploadInitResponse { index, subindex } => {
                if cs != 2 {
                    self.state = State::Idle;
                    return SdoClientResult::Error;
                }
                self.handle_upload_init_response(index, subindex, response)
            },
            State::UploadSegmented { index, subindex, toggle } => {
                if cs != 0 {
                    self.state = State::Idle;
                    return SdoClientResult::Error;
                }
                self.handle_upload_segment_response(index, subindex, toggle, response)
            },
            State::WaitingDownloadInitResponse { index, subindex } => {
                if cs != 3 {
                    self.state = State::Idle;
                    return SdoClientResult::Error;
                }
                self.handle_download_init_response(index, subindex)
            },
            State::DownloadSegmented { index, subindex, toggle } => {
                if cs != 1 {
                    self.state = State::Idle;
                    return SdoClientResult::Error;
                }
                self.handle_download_segment_response(index, subindex, toggle, response)
            },
        }
    }

    fn handle_upload_init_response(
        &mut self,
        index: u16,
        subindex: u8,
        response: &[u8; 8],
    ) -> (r: SdoClientResult)
        requires
            old(self)@.state == (State::WaitingUploadInitResponse { index, subindex }),
            response@[0] / 32 == 2,
            old(self)@.accepts(response@),
        ensures
            final(self).target() == old(self).target(),
            final(self)@ == old(self)@.upload_init(index, subindex, response@).0,
            reports(
                r,
                old(self)@.upload_init(index, subindex, response@).1,
                old(self).target(),
            ),
    {
        proof {
            use_type_invariant(&*self);
        }
        let expedited: bool = response[0] / 2 % 2 == 1;
        let size_indicated: bool = response[0] % 2 == 1;
        if expedited {
            let n: usize = if size_indicated {
                (response[0] / 4 % 4) as usize
            } else {
                0
            };
            let data_len: usize = 4 - n;
            let data = slice_subrange(response.as_slice(), 4, 4 + data_len);
            let mut buf: [u8; BUF] = self.buf;
            overwrite(&mut buf, 0, data);
            self.buf = buf;
            self.offset = data_len;
            self.state = State::Idle;
            SdoClientResult::UploadComplete { data_len }
        } else {
            if size_indicated {
                let tail = slice_subrange(response.as_slice(), 4, 8);
                assert(tail@ =~= response@.skip(4));
                self.total_len = u32_from_le(tail) as usize;
            }
            self.state = State::UploadSegmented { index, subindex, toggle: false };
            self.offset = 0;
            let frame = self.make_upload_segment_request(false);
            SdoClientResult::SendNext(frame)
        }
    }

    fn handle_upload_segment_response(
        &mut self,
        index: u16,
        subindex: u8,
        expected_toggle: bool,
        response: &[u8; 8],
    ) -> (r: SdoClientResult)
        requires
            old(self)@.state == (State::UploadSegmented {
                index,
                subindex,
                toggle: expected_toggle,
            }),
        ensures
            final(self).target() == old(self).target(),
            final(self)@ == old(self)@.upload_segment(
                index,
                subindex,
                expected_toggle,
                response@,
            ).0,
            reports(
                r,
                old(self)@.upload_segment(index, subindex, expected_toggle, response@).1,
                old(self).target(),
            ),
    {
        proof {
            use_type_invariant(&*self);
        }
        let server_toggle: bool = response[0] / 16 % 2 == 1;
        if server_toggle != expected_toggle {
            self.state = State::Idle;
            return SdoClientResult::Error;
        }
        let last: bool = response[0] % 2 == 1;
        let seg_len: usize = 7 - (response[0] / 2 % 8) as usize;
        if seg_len > BUF - self.offset {
            self.state = State::Idle;
            return SdoClientResult::Error;
        }
        let data = slice_subrange(response.as_slice(), 1, 1 + seg_len);
        let at: usize = self.offset;
        let mut buf: [u8; BUF] = self.buf;
        overwrite(&mut buf, at, data);
        self.buf = buf;
        self.offset = at + seg_len;
        if last {
            let data_len: usize = self.offset;
            self.state = State::Idle;
            SdoClientResult::UploadComplete { data_len }
        } else {
            let new_toggle: bool = !expected_toggle;
            self.state = State::UploadSegmented { index, subindex, toggle: new_toggle };
            let frame = self.make_upload_segment_request(new_toggle);
            SdoClientResult::SendNext(frame)
        }
    }

    fn handle_download_init_response(&mut self, index: u16, subindex: u8) -> (r: SdoClientResult)
        requires
            old(self)@.state == (State::WaitingDownloadInitResponse { index, subindex }),
        ensures
            final(self).target() == old(self).target(),
            old(self)@.total <= 4 ==> {
                &&& final(self)@ == old(self)@.in_state(State::Idle)
                &&& r is DownloadComplete
            },
            old(self)@.total > 4 ==> {
                &&& final(self)@ == old(self)@.next_segment(index, subindex, false).0
                &&& reports(
                    r,
                    old(self)@.next_segment(index, subindex, false).1,
                    old(self).target(),
                )
            },
    {
        proof {
            use_type_invariant(&*self);
        }
        if self.total_len <= 4 {
            // Was expedited, download is done
            self.state = State::Idle;
            SdoClientResult::DownloadComplete
        } else {
            // Start sending segments
            let frame = self.make_download_segment(index, subindex, false);
            SdoClientResult::SendNext(frame)
        }
    }

    fn handle_download_segment_response(
        &mut self,
        index: u16,
        subindex: u8,
        expected_toggle: bool,
        response: &[u8; 8],
    ) -> (r: SdoClientResult)
        requires
            old(self)@.state == (State::DownloadSegmented {
                index,
                subindex,
                toggle: expected_toggle,
            }),
            response@[0] / 32 == 1,
        ensures
            final(self).target() == old(self).target(),
            final(self)@ == old(self)@.step(response@).0,
            reports(r, old(self)@.step(response@).1, old(self).target()),
    {
        proof {
            use_type_invariant(&*self);
        }
        let server_toggle: bool = response[0] / 16 % 2 == 1;
        if server_toggle != expected_toggle {
            self.state = State::Idle;
            return SdoClientResult::Error;
        }
        if self.offset >= self.total_len {
            // All data sent and acknowledged
            self.state = State::Idle;
            SdoClientResult::DownloadComplete
        } else {
            let frame = self.make_download_segment(index, subindex, !expected_toggle);
            SdoClientResult::SendNext(frame)
        }
    }

    fn make_upload_segment_request(&self, toggle: bool) -> (r: CanFrame)
        ensures
            r@ == (FrameView {
                id: (0x600 + self.target().raw()) as u16,
                data: upload_segment_request(toggle),
            }),
    {
        let t: u8 = if toggle {
            16
        } else {
            0
        };
        let data: [u8; 8] = [0x60 + t, 0, 0, 0, 0, 0, 0, 0];
        assert(data@ =~= upload_segment_request(toggle));
        self.frame(&data)
    }

    fn make_download_segment(&mut self, index: u16, subindex: u8, toggle: bool) -> (r: CanFrame)
        requires
            old(self)@.offset <= old(self)@.total <= BUF,
        ensures
            final(self).target() == old(self).target(),
            final(self)@ == old(self)@.next_segment(index, subindex, toggle).0,
            old(self)@.next_segment(index, subindex, toggle).1 == ClientReply::SendNext(r@.data),
            r@.id == (0x600 + old(self).target().raw()) as u16,
    {
        proof {
            use_type_invariant(&*self);
        }
        let remaining: usize = self.total_len - self.offset;
        let last: bool = remaining <= 7;
        let seg_len: usize = if last {
            remaining
        } else {
            7
        };
        let end: usize = self.offset + seg_len;
        let seg = slice_subrange(self.buf.as_slice(), self.offset, end);
        let t: u8 = if toggle {
            16
        } else {
            0
        };
        let l: u8 = if last {
            1
        } else {
            0
        };
        let data: [u8; 8] = [
            t + 2 * (7 - seg_len) as u8 + l,
            byte_or_zero(seg, 0),
            byte_or_zero(seg, 1),
            byte_or_zero(seg, 2),
            byte_or_zero(seg, 3),
            byte_or_zero(seg, 4),
            byte_or_zero(seg, 5),
            byte_or_zero(seg, 6),
        ];
        assert(data@ =~= segment_frame(toggle, seg@, last));
        self.state = State::Idle;
        self.offset = end;
        self.state = State::DownloadSegmented { index, subindex, toggle };
        self.frame(&data)
    }
}

/// The abort code with a given number.
pub fn abort_code_from(n: u32) -> (r: AbortCode)
    ensures
        r == abort_code_of(n),
{
    let r = match n {
        0x0503_0000 => AbortCode::ToggleBitNotAlternated,
        0x0504_0000 => AbortCode::SdoProtocolTimeout,
        0x0504_0001 => AbortCode::InvalidCommandSpecifier,
        0x0504_0002 => AbortCode::InvalidBlockSize,
        0x0504_0003 => AbortCode::InvalidSequenceNumber,
        0x0504_0004 => AbortCode::CrcError,
        0x0504_0005 => AbortCode::OutOfMemory,
        0x0601_0000 => AbortCode::UnsupportedAccess,
        0x0601_0001 => AbortCode::WriteOnlyObject,
        0x0601_0002 => AbortCode::ReadOnlyObject,
        0x0602_0000 => AbortCode::ObjectNotFound,
        0x0604_0041 => AbortCode::ObjectCannotBeMapped,
        0x0604_0042 => AbortCode::PdoLengthExceeded,
        0x0604_0043 => AbortCode::ParameterIncompatibility,
        0x0609_0011 => AbortCode::SubindexNotFound,
        0x0609_0030 => AbortCode::ValueRangeExceeded,
        0x0609_0031 => AbortCode::ValueTooHigh,
        0x0609_0032 => AbortCode::ValueTooLow,
        0x0609_0043 => AbortCode::DataTypeMismatch,
        0x0800_0020 => AbortCode::DataTransferError,
        0x0800_0021 => AbortCode::DataTransferLocalControl,
        0x0800_0022 => AbortCode::DataTransferDeviceState,
        _ => AbortCode::GeneralError,
    };
    proof {
        if r.to_u32() == n {
            lemma_abort_codes_are_distinct(abort_code_of(n), r);
        } else {
            assert forall|c: AbortCode| #[trigger] c.to_u32() != n by {}
        }
    }
    r
}

} // verus!
