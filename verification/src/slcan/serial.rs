//! SerialPort-backed SLCAN transport.

use crate::bytes::bit;
use crate::slcan::logic::{
    encode_slcan_frame, frame_line, parse_line, parse_slcan_frame, SlcanBitrate, DIGIT_0, LINE_END,
};
use crate::transport::{CanError, CanFrame, FrameView};
use vstd::prelude::*;
use vstd::slice::slice_subrange;

verus! {

/// Size of the receive buffer in bytes.
pub const RX_BUFFER: usize = 256;

/// An unfinished line that is longer than this is given up.
pub const LONGEST_LINE: usize = 200;

/// Byte-stream access to an SLCAN adapter.
///
/// Implementations must provide *non-blocking* reads: `read` returns
/// `Ok(0)` when no data is currently available.
///
/// `writes` and `reads` are the history of a port. An implementation that is to
/// be verified defines both.
pub trait SerialPort {
    type Error;

    /// The writes so far: the bytes of each, and whether it succeeded.
    closed spec fn writes(&self) -> Seq<(Seq<u8>, bool)> {
        arbitrary()
    }

    /// The reads so far: the room that each had, and the bytes that it
    /// delivered.
    closed spec fn reads(&self) -> Seq<(nat, Seq<u8>)> {
        arbitrary()
    }

    /// Non-blocking read. Returns the number of bytes read; `Ok(0)` means
    /// no data available right now.
    fn read(&mut self, buf: &mut [u8]) -> (r: Result<usize, Self::Error>)
        ensures
            final(buf)@.len() == old(buf)@.len(),
            r matches Ok(n) ==> n <= old(buf)@.len(),
            final(self).writes() == old(self).writes(),
            final(self).reads() == old(self).reads().push(
                (
                    old(buf)@.len(),
                    match r {
                        Ok(n) => final(buf)@.take(n as int),
                        Err(_) => Seq::empty(),
                    },
                ),
            ),
    ;

    /// Write all bytes.
    fn write_all(&mut self, data: &[u8]) -> (r: Result<(), Self::Error>)
        ensures
            final(self).writes() == old(self).writes().push((data@, r is Ok)),
            final(self).reads() == old(self).reads(),
    ;
}

/// The room of each read that discards bytes.
pub const DRAIN_CHUNK: usize = 64;

/// The reads of a port after it was drained: at least one more, each of which
/// but the last delivered bytes. The last delivered none, unless there were
/// more than a 64-bit number can count.
pub open spec fn drained(before: Seq<(nat, Seq<u8>)>, after: Seq<(nat, Seq<u8>)>) -> bool {
    &&& before.len() < after.len()
    &&& after.take(before.len() as int) == before
    &&& forall|i: int|
        before.len() <= i < after.len() ==> (#[trigger] after[i]).0 == DRAIN_CHUNK
    &&& forall|i: int|
        before.len() <= i < after.len() - 1 ==> (#[trigger] after[i]).1.len() > 0
    &&& after.last().1.len() == 0 || after.len() - before.len() > u64::MAX
}

/// The position of the first carriage return from `from` on.
pub open spec fn line_end(pending: Seq<u8>, from: int) -> Option<int>
    decreases pending.len() - from,
{
    if from < 0 || from >= pending.len() {
        None
    } else if pending[from] == LINE_END {
        Some(from)
    } else {
        line_end(pending, from + 1)
    }
}

/// What becomes of received bytes: the frame in the first complete line, and
/// the bytes that are left. Lines without a frame are skipped, and a line that
/// does not end is given up when it gets too long.
pub open spec fn next_line(pending: Seq<u8>) -> (Option<FrameView>, Seq<u8>) {
    match line_end(pending, 0) {
        Some(p) => (parse_line(pending.take(p)), pending.skip(p + 1)),
        None => (
            None,
            if pending.len() > LONGEST_LINE {
                Seq::empty()
            } else {
                pending
            },
        ),
    }
}

/// The bytes received so far that do not make a line yet.
pub struct LineBuffer {
    pending: Vec<u8>,
}

impl View for LineBuffer {
    type V = Seq<u8>;

    closed spec fn view(&self) -> Seq<u8> {
        self.pending@
    }
}

impl LineBuffer {
    pub fn new() -> (r: Self)
        ensures
            r@ == Seq::<u8>::empty(),
    {
        LineBuffer { pending: Vec::new() }
    }

    /// How many more bytes the buffer takes.
    pub fn space(&self) -> (r: usize)
        ensures
            r == (if self@.len() < RX_BUFFER {
                RX_BUFFER - self@.len()
            } else {
                0
            }),
    {
        if self.pending.len() < RX_BUFFER {
            RX_BUFFER - self.pending.len()
        } else {
            0
        }
    }

    /// Forget everything received.
    pub fn clear(&mut self)
        ensures
            final(self)@ == Seq::<u8>::empty(),
    {
        self.pending.clear();
    }

    /// Append received bytes.
    pub fn append(&mut self, bytes: &[u8])
        ensures
            final(self)@ == old(self)@ + bytes@,
    {
        let mut i: usize = 0;
        assert(self@ =~= old(self)@ + bytes@.take(0));
        while i < bytes.len()
            invariant
                i <= bytes@.len(),
                self@ == old(self)@ + bytes@.take(i as int),
            decreases bytes@.len() - i,
        {
            self.pending.push(bytes[i]);
            i += 1;
            assert(self@ =~= old(self)@ + bytes@.take(i as int));
        }
        assert(bytes@.take(i as int) =~= bytes@);
    }

    /// Take the first complete line, and the frame in it, if there is one.
    pub fn take_frame(&mut self) -> (r: Option<CanFrame>)
        ensures
            final(self)@ == next_line(old(self)@).1,
            match r {
                Some(f) => next_line(old(self)@).0 == Some(f@),
                None => next_line(old(self)@).0 is None,
            },
    {
        let ghost all = self@;
        let mut i: usize = 0;
        while i < self.pending.len()
            invariant
                i <= self.pending@.len(),
                self.pending@ == all,
                all == old(self)@,
                line_end(all, 0) == line_end(all, i as int),
            decreases self.pending@.len() - i,
        {
            if self.pending[i] == LINE_END {
                let n: usize = self.pending.len();
                let line = slice_subrange(self.pending.as_slice(), 0, i);
                assert(line@ =~= all.take(i as int));
                let frame = parse_slcan_frame(line);
                let rest = vstd::slice::slice_to_vec(
                    slice_subrange(self.pending.as_slice(), i + 1, n),
                );
                assert(rest@ =~= all.skip(i + 1));
                self.pending = rest;
                return frame;
            }
            i += 1;
        }
        if self.pending.len() > LONGEST_LINE {
            self.pending.clear();
        }
        None
    }
}

/// SLCAN protocol driver over a `SerialPort`.
pub struct SlcanTransport<P: SerialPort> {
    port: P,
    rx: LineBuffer,
}

impl<P: SerialPort> SlcanTransport<P> {
    /// The bytes received so far that do not make a line yet, for use in
    /// contracts.
    pub closed spec fn pending(self) -> Seq<u8> {
        self.rx@
    }

    /// The underlying port, for use in contracts.
    pub closed spec fn port(self) -> P {
        self.port
    }

    /// Wrap an already-opened and configured serial port.
    ///
    /// Does not send any SLCAN commands; use the `send_*` helpers if the
    /// adapter still needs its init sequence.
    pub fn new(port: P) -> (r: Self)
        ensures
            r.port() == port,
            r.pending() == Seq::<u8>::empty(),
    {
        SlcanTransport { port, rx: LineBuffer::new() }
    }

    /// Access the underlying port (e.g. for platform-specific control lines).
    pub fn port_mut(&mut self) -> (r: &mut P)
        ensures
            *r == old(self).port(),
            final(self).port() == *final(r),
            final(self).pending() == old(self).pending(),
    {
        &mut self.port
    }

    /// Consume the transport and return the underlying port.
    pub fn into_inner(self) -> (r: P)
        ensures
            r == self.port(),
    {
        self.port
    }

    /// Send `C\r`: close the CAN channel.
    pub fn send_close(&mut self) -> (r: Result<(), P::Error>)
        ensures
            final(self).pending() == old(self).pending(),
            final(self).port().reads() == old(self).port().reads(),
            final(self).port().writes() == old(self).port().writes().push(
                (seq![0x43u8, LINE_END], r is Ok),
            ),
    {
        let cmd: [u8; 2] = [0x43, LINE_END];
        assert(cmd@ =~= seq![0x43u8, LINE_END]);
        self.port.write_all(cmd.as_slice())
    }

    /// Send `Sn\r`: set the CAN bitrate. Only valid while closed.
    pub fn send_bitrate(&mut self, bitrate: SlcanBitrate) -> (r: Result<(), P::Error>)
        ensures
            final(self).pending() == old(self).pending(),
            final(self).port().reads() == old(self).port().reads(),
            final(self).port().writes() == old(self).port().writes().push(
                (seq![0x53u8, (DIGIT_0 + bitrate.code()) as u8, LINE_END], r is Ok),
            ),
    {
        let cmd: [u8; 3] = [0x53, DIGIT_0 + bitrate.code(), LINE_END];
        assert(cmd@ =~= seq![0x53u8, (DIGIT_0 + bitrate.code()) as u8, LINE_END]);
        self.port.write_all(cmd.as_slice())
    }

    /// Send `O\r`: open the CAN channel.
    pub fn send_open(&mut self) -> (r: Result<(), P::Error>)
        ensures
            final(self).pending() == old(self).pending(),
            final(self).port().reads() == old(self).port().reads(),
            final(self).port().writes() == old(self).port().writes().push(
                (seq![0x4Fu8, LINE_END], r is Ok),
            ),
    {
        let cmd: [u8; 2] = [0x4F, LINE_END];
        assert(cmd@ =~= seq![0x4Fu8, LINE_END]);
        self.port.write_all(cmd.as_slice())
    }

    /// Discard any buffered RX bytes, and whatever the port currently has
    /// pending: reads until the port has none, or fails. A port that never has
    /// none is given up after so many reads as a 64-bit number can count.
    pub fn drain_rx(&mut self)
        ensures
            final(self).pending() == Seq::<u8>::empty(),
            final(self).port().writes() == old(self).port().writes(),
            drained(old(self).port().reads(), final(self).port().reads()),
    {
        self.rx.clear();
        let ghost before = self.port.reads();
        let mut left: u64 = u64::MAX;
        let mut done: bool = false;
        while !done
            invariant
                self.pending() == Seq::<u8>::empty(),
                self.port.writes() == old(self).port().writes(),
                before == old(self).port().reads(),
                self.port.reads().len() == before.len() + (u64::MAX - left) + bit(done),
                self.port.reads().take(before.len() as int) == before,
                forall|i: int|
                    before.len() <= i < self.port.reads().len() ==> (
                    #[trigger] self.port.reads()[i]).0 == DRAIN_CHUNK,
                forall|i: int|
                    before.len() <= i < self.port.reads().len() - bit(done) ==> (
                    #[trigger] self.port.reads()[i]).1.len() > 0,
                done ==> self.port.reads().last().1.len() == 0 || left == 0,
            decreases left, bit(!done),
        {
            let mut drain: [u8; 64] = [0u8; 64];
            let ghost reads = self.port.reads();
            let n: usize = match self.port.read(&mut drain) {
                Ok(n) => n,
                Err(_) => 0,
            };
            assert(self.port.reads().take(before.len() as int) =~= reads.take(
                before.len() as int,
            ));
            if n > 0 && left > 0 {
                left -= 1;
            } else {
                done = true;
            }
        }
    }

    /// Send a frame.
    pub fn transmit(&mut self, frame: &CanFrame) -> (r: Result<(), CanError>)
        ensures
            final(self).pending() == old(self).pending(),
            final(self).port().reads() == old(self).port().reads(),
            final(self).port().writes() == old(self).port().writes().push(
                (frame_line(frame@), r is Ok),
            ),
            r matches Err(e) ==> e == CanError::BusError,
    {
        let mut cmd: [u8; 32] = [0u8; 32];
        let n: usize = frame.data().len();
        assert(frame_line(frame@).len() == 6 + 2 * n <= 32);
        match encode_slcan_frame(frame, &mut cmd) {
            Some(n) => {
                let line = slice_subrange(cmd.as_slice(), 0, n);
                assert(line@ =~= frame_line(frame@));
                match self.port.write_all(line) {
                    Ok(()) => Ok(()),
                    Err(_) => Err(CanError::BusError),
                }
            },
            None => Err(CanError::BusError),
        }
    }

    /// Read what the port has, and take the next frame from it. `None` if no
    /// line is complete yet, or the line holds no frame.
    pub fn receive(&mut self) -> (r: Option<CanFrame>)
        ensures
            final(self).port().writes() == old(self).port().writes(),
            exists|got: Seq<u8>|
                {
                    let (frame, left) = #[trigger] next_line(old(self).pending() + got);
                    &&& if old(self).pending().len() < RX_BUFFER {
                        final(self).port().reads() == old(self).port().reads().push(
                            ((RX_BUFFER - old(self).pending().len()) as nat, got),
                        )
                    } else {
                        final(self).port().reads() == old(self).port().reads() && got.len() == 0
                    }
                    &&& final(self).pending() == left
                    &&& match r {
                        Some(f) => frame == Some(f@),
                        None => frame is None,
                    }
                },
    {
        let ghost before = self.pending();
        let ghost mut got: Seq<u8> = Seq::empty();
        let space: usize = self.rx.space();
        if space > 0 {
            let mut buf: Vec<u8> = vec![0u8; space];
            if let Ok(n) = self.port.read(buf.as_mut_slice()) {
                let part = slice_subrange(buf.as_slice(), 0, n);
                proof {
                    got = part@;
                }
                self.rx.append(part);
            }
        }
        assert(self.pending() =~= before + got);
        let r = self.rx.take_frame();
        assert(final(self).pending() == next_line(before + got).1);
        r
    }
}

/// A line that a frame was encoded in comes out of the buffer as that frame,
/// and what follows it is kept.
pub proof fn lemma_line_is_received(frame: FrameView, rest: Seq<u8>)
    requires
        frame.id <= 0x7FF,
        frame.data.len() <= 8,
    ensures
        next_line(frame_line(frame) + rest) == (Some(frame), rest),
{
    let line = frame_line(frame);
    let all = line + rest;
    let n = line.len() - 1;
    lemma_no_end_in_line(frame, rest, 0);
    crate::slcan::logic::lemma_encode_then_parse(frame);
    assert(all.take(n) =~= line.drop_last());
    assert(all.skip(n + 1) =~= rest);
}

proof fn lemma_no_end_in_line(frame: FrameView, rest: Seq<u8>, from: int)
    requires
        frame.id <= 0x7FF,
        frame.data.len() <= 8,
        0 <= from < frame_line(frame).len(),
    ensures
        line_end(frame_line(frame) + rest, from) == Some(frame_line(frame).len() - 1),
    decreases frame_line(frame).len() - from,
{
    if from < frame_line(frame).len() - 1 {
        lemma_no_end_in_line(frame, rest, from + 1);
    }
}

} // verus!
