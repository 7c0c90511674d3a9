//! The SLCAN line codec.
//!
//! SLCAN protocol (Lawicel):
//! - `S6\r`: set 500 kbps
//! - `O\r`: open CAN channel
//! - `C\r`: close CAN channel
//! - `tIIILDD..\r`: standard frame (III=3 hex digits ID, L=DLC, DD=data hex)

use crate::transport::{CanFrame, FrameView};
use vstd::prelude::*;

verus! {

/// The letter that a standard data frame begins with, `t`.
pub const FRAME_MARK: u8 = 0x74;

/// The carriage return that ends a line.
pub const LINE_END: u8 = 0x0D;

/// The digit `0`.
pub const DIGIT_0: u8 = 0x30;

/// SLCAN bitrate codes.
#[derive(Clone, Copy, Debug)]
pub enum SlcanBitrate {
    /// 10 kbps
    S0,
    /// 20 kbps
    S1,
    /// 50 kbps
    S2,
    /// 100 kbps
    S3,
    /// 125 kbps
    S4,
    /// 250 kbps
    S5,
    /// 500 kbps
    S6,
    /// 800 kbps
    S7,
    /// 1000 kbps
    S8,
}

impl SlcanBitrate {
    /// The number of a bitrate, for use in contracts.
    pub open spec fn spec_code(self) -> u8 {
        match self {
            SlcanBitrate::S0 => 0,
            SlcanBitrate::S1 => 1,
            SlcanBitrate::S2 => 2,
            SlcanBitrate::S3 => 3,
            SlcanBitrate::S4 => 4,
            SlcanBitrate::S5 => 5,
            SlcanBitrate::S6 => 6,
            SlcanBitrate::S7 => 7,
            SlcanBitrate::S8 => 8,
        }
    }

    /// The number of a bitrate.
    #[verifier::when_used_as_spec(spec_code)]
    pub fn code(self) -> (r: u8)
        ensures
            r == self.code(),
            r <= 8,
    {
        match self {
            SlcanBitrate::S0 => 0,
            SlcanBitrate::S1 => 1,
            SlcanBitrate::S2 => 2,
            SlcanBitrate::S3 => 3,
            SlcanBitrate::S4 => 4,
            SlcanBitrate::S5 => 5,
            SlcanBitrate::S6 => 6,
            SlcanBitrate::S7 => 7,
            SlcanBitrate::S8 => 8,
        }
    }
}

/// The upper-case hexadecimal digit of a value below 16.
pub open spec fn hex_char(value: int) -> u8 {
    if value < 10 {
        (DIGIT_0 + value) as u8
    } else {
        (0x41 + value - 10) as u8
    }
}

/// The value of a hexadecimal digit of either case.
pub open spec fn hex_value(ch: u8) -> Option<u8> {
    if 0x30 <= ch <= 0x39 {
        Some((ch - 0x30) as u8)
    } else if 0x61 <= ch <= 0x66 {
        Some((ch - 0x61 + 10) as u8)
    } else if 0x41 <= ch <= 0x46 {
        Some((ch - 0x41 + 10) as u8)
    } else {
        None
    }
}

/// Bytes in hexadecimal, two digits each.
pub open spec fn hex_of(data: Seq<u8>) -> Seq<u8> {
    Seq::new(
        2 * data.len(),
        |i: int|
            if i % 2 == 0 {
                hex_char((data[i / 2] / 16) as int)
            } else {
                hex_char((data[i / 2] % 16) as int)
            },
    )
}

/// The first `n` bytes that hexadecimal digits stand for, if all are digits.
pub open spec fn bytes_of_hex(digits: Seq<u8>, n: int) -> Option<Seq<u8>>
    decreases n,
{
    if n <= 0 {
        Some(Seq::empty())
    } else {
        match (
            bytes_of_hex(digits, n - 1),
            hex_value(digits[2 * n - 2]),
            hex_value(digits[2 * n - 1]),
        ) {
            (Some(front), Some(high), Some(low)) => Some(front.push((16 * high + low) as u8)),
            _ => None,
        }
    }
}

/// The line of a frame.
pub open spec fn frame_line(frame: FrameView) -> Seq<u8> {
    seq![
        FRAME_MARK,
        hex_char((frame.id / 256) as int),
        hex_char((frame.id / 16 % 16) as int),
        hex_char((frame.id % 16) as int),
        (DIGIT_0 + frame.data.len()) as u8,
    ] + hex_of(frame.data) + seq![LINE_END]
}

/// The frame that a line stands for: a standard data frame, whatever follows
/// its payload. Extended and remote frames are none.
pub open spec fn parse_line(line: Seq<u8>) -> Option<FrameView> {
    if line.len() < 5 || line[0] != FRAME_MARK || !(DIGIT_0 <= line[4] <= DIGIT_0 + 8) {
        None
    } else {
        let dlc = line[4] - DIGIT_0;
        match (hex_value(line[1]), hex_value(line[2]), hex_value(line[3])) {
            (Some(a), Some(b), Some(c)) if a <= 7 && line.len() >= 5 + 2 * dlc => match bytes_of_hex(
                line.skip(5),
                dlc,
            ) {
                Some(data) => Some(FrameView { id: (256 * a + 16 * b + c) as u16, data }),
                None => None,
            },
            _ => None,
        }
    }
}

/// A standard frame seems to begin at a position.
pub open spec fn frame_at(buf: Seq<u8>, i: int) -> bool {
    &&& 0 <= i
    &&& i + 5 <= buf.len()
    &&& buf[i] == FRAME_MARK
    &&& hex_value(buf[i + 1]) is Some
    &&& hex_value(buf[i + 2]) is Some
    &&& hex_value(buf[i + 3]) is Some
    &&& DIGIT_0 <= buf[i + 4] <= DIGIT_0 + 8
}

fn hex_digit(value: u8) -> (r: u8)
    requires
        value < 16,
    ensures
        r == hex_char(value as int),
{
    if value < 10 {
        DIGIT_0 + value
    } else {
        0x41 + (value - 10)
    }
}

fn parse_hex_digit(ch: u8) -> (r: Option<u8>)
    ensures
        r == hex_value(ch),
        r matches Some(v) ==> v < 16,
{
    if 0x30 <= ch && ch <= 0x39 {
        Some(ch - 0x30)
    } else if 0x61 <= ch && ch <= 0x66 {
        Some(ch - 0x61 + 10)
    } else if 0x41 <= ch && ch <= 0x46 {
        Some(ch - 0x41 + 10)
    } else {
        None
    }
}

/// Check if a byte buffer contains what looks like a valid SLCAN frame.
///
/// Useful for probing whether an adapter is already streaming.
pub fn has_slcan_frame(buf: &[u8]) -> (r: bool)
    ensures
        r == (exists|i: int| frame_at(buf@, i)),
{
    if buf.len() < 5 {
        return false;
    }
    let mut i: usize = 0;
    while i <= buf.len() - 5
        invariant
            5 <= buf@.len(),
            i <= buf@.len() - 4,
            forall|j: int| 0 <= j < i ==> !frame_at(buf@, j),
        decreases buf@.len() - i,
    {
        if buf[i] == FRAME_MARK && parse_hex_digit(buf[i + 1]).is_some() && parse_hex_digit(
            buf[i + 2],
        ).is_some() && parse_hex_digit(buf[i + 3]).is_some() && buf[i + 4] >= DIGIT_0 && buf[i + 4]
            <= DIGIT_0 + 8 {
            assert(frame_at(buf@, i as int));
            return true;
        }
        i += 1;
    }
    false
}

/// Encode a classic CANopen frame as a standard SLCAN `tIIILDD..\r` line.
///
/// Returns the number of bytes written into `out`, or `None` if it is too small.
pub fn encode_slcan_frame(frame: &CanFrame, out: &mut [u8]) -> (r: Option<usize>)
    ensures
        final(out)@.len() == old(out)@.len(),
        r is Some <==> old(out)@.len() >= frame_line(frame@).len(),
        r matches Some(n) ==> {
            &&& n == frame_line(frame@).len()
            &&& final(out)@ == frame_line(frame@) + old(out)@.skip(n as int)
        },
        r is None ==> final(out)@ == old(out)@,
{
    let data = frame.data();
    let needed: usize = 6 + data.len() * 2;
    if out.len() < needed {
        return None;
    }
    let ghost before = out@;
    let id: u16 = frame.raw_id();
    out[0] = FRAME_MARK;
    out[1] = hex_digit((id / 256) as u8);
    out[2] = hex_digit((id / 16 % 16) as u8);
    out[3] = hex_digit((id % 16) as u8);
    out[4] = DIGIT_0 + frame.raw_dlc();
    let ghost line = frame_line(frame@);
    let mut i: usize = 0;
    while i < data.len()
        invariant
            i <= data@.len() <= 8,
            data@ == frame@.data,
            line == frame_line(frame@),
            out@.len() == before.len(),
            out@.len() >= 6 + 2 * data@.len(),
            forall|j: int| 0 <= j < 5 + 2 * i ==> out@[j] == line[j],
            forall|j: int| 5 + 2 * i <= j < out@.len() ==> out@[j] == before[j],
        decreases data@.len() - i,
    {
        out[5 + 2 * i] = hex_digit(data[i] / 16);
        out[6 + 2 * i] = hex_digit(data[i] % 16);
        assert(hex_of(data@)[2 * i as int] == hex_char((data@[i as int] / 16) as int));
        assert(hex_of(data@)[2 * i + 1] == hex_char((data@[i as int] % 16) as int));
        i += 1;
    }
    out[5 + 2 * data.len()] = LINE_END;
    assert(out@ =~= line + before.skip(needed as int));
    Some(needed)
}

/// Parse a standard SLCAN `tIIILDD..` line.
///
/// The trailing `\r` is optional. Extended and remote frames are ignored
/// because CANopen uses standard data frames.
pub fn parse_slcan_frame(line: &[u8]) -> (r: Option<CanFrame>)
    ensures
        match r {
            Some(f) => parse_line(line@) == Some(f@),
            None => parse_line(line@) is None,
        },
{
    if line.len() < 5 || line[0] != FRAME_MARK || line[4] < DIGIT_0 || line[4] > DIGIT_0 + 8 {
        return None;
    }
    let dlc: usize = (line[4] - DIGIT_0) as usize;
    let (a, b, c) = match (
        parse_hex_digit(line[1]),
        parse_hex_digit(line[2]),
        parse_hex_digit(line[3]),
    ) {
        (Some(a), Some(b), Some(c)) => (a, b, c),
        _ => {
            return None;
        },
    };
    if line.len() < 5 + dlc * 2 || a > 7 {
        return None;
    }
    let id: u16 = 256 * a as u16 + 16 * b as u16 + c as u16;
    let ghost digits = line@.skip(5);
    let mut data: Vec<u8> = Vec::new();
    while data.len() < dlc
        invariant
            data@.len() <= dlc <= 8,
            line@.len() >= 5 + 2 * dlc,
            digits == line@.skip(5),
            bytes_of_hex(digits, data@.len() as int) == Some(data@),
            bytes_of_hex(digits, dlc as int) is None ==> parse_line(line@) is None,
        ensures
            data@.len() == dlc,
            bytes_of_hex(digits, dlc as int) == Some(data@),
        decreases dlc - data@.len(),
    {
        let i: usize = data.len();
        match (parse_hex_digit(line[5 + 2 * i]), parse_hex_digit(line[6 + 2 * i])) {
            (Some(high), Some(low)) => {
                data.push(16 * high + low);
            },
            _ => {
                proof {
                    lemma_bad_digits(digits, i + 1, dlc as int);
                }
                return None;
            },
        }
    }
    CanFrame::new(id, data.as_slice())
}

proof fn lemma_bad_digits(digits: Seq<u8>, n: int, m: int)
    requires
        0 <= n <= m,
        bytes_of_hex(digits, n) is None,
    ensures
        bytes_of_hex(digits, m) is None,
    decreases m - n,
{
    if n < m {
        lemma_bad_digits(digits, n + 1, m);
    }
}

/// Reading the hexadecimal digits of bytes gives the bytes.
proof fn lemma_hex_roundtrip(data: Seq<u8>, digits: Seq<u8>, n: int)
    requires
        0 <= n <= data.len(),
        digits.len() >= 2 * data.len(),
        forall|i: int| 0 <= i < 2 * data.len() ==> digits[i] == hex_of(data)[i],
    ensures
        bytes_of_hex(digits, n) == Some(data.take(n)),
    decreases n,
{
    if n > 0 {
        lemma_hex_roundtrip(data, digits, n - 1);
        assert(digits[2 * n - 2] == hex_char((data[n - 1] / 16) as int));
        assert(digits[2 * n - 1] == hex_char((data[n - 1] % 16) as int));
        assert(data.take(n) =~= data.take(n - 1).push(data[n - 1]));
    } else {
        assert(data.take(0) =~= Seq::<u8>::empty());
    }
}

proof fn lemma_line_parses(frame: FrameView, line: Seq<u8>)
    requires
        frame.id <= 0x7FF,
        frame.data.len() <= 8,
        line.len() >= 5 + 2 * frame.data.len(),
        line[0] == FRAME_MARK,
        line[1] == hex_char((frame.id / 256) as int),
        line[2] == hex_char((frame.id / 16 % 16) as int),
        line[3] == hex_char((frame.id % 16) as int),
        line[4] == DIGIT_0 + frame.data.len(),
        forall|i: int| 0 <= i < 2 * frame.data.len() ==> line[5 + i] == hex_of(frame.data)[i],
    ensures
        parse_line(line) == Some(frame),
{
    let n = frame.data.len() as int;
    lemma_hex_roundtrip(frame.data, line.skip(5), n);
    assert(frame.data.take(n) =~= frame.data);
    let a = frame.id / 256;
    let b = frame.id / 16 % 16;
    let c = frame.id % 16;
    assert(a <= 7 && b < 16 && c < 16 && 256 * a + 16 * b + c == frame.id);
    assert(hex_value(line[1]) == Some(a as u8));
    assert(hex_value(line[2]) == Some(b as u8));
    assert(hex_value(line[3]) == Some(c as u8));
}

/// Parsing the line of a frame gives the frame, with or without the carriage
/// return, and probing recognises the line.
pub proof fn lemma_encode_then_parse(frame: FrameView)
    requires
        frame.id <= 0x7FF,
        frame.data.len() <= 8,
    ensures
        parse_line(frame_line(frame)) == Some(frame),
        parse_line(frame_line(frame).drop_last()) == Some(frame),
        frame_at(frame_line(frame), 0),
{
    let line = frame_line(frame);
    let digits = hex_of(frame.data);
    assert(line.len() == 6 + digits.len());
    assert forall|i: int| 0 <= i < digits.len() implies line[5 + i] == digits[i] by {}
    lemma_line_parses(frame, line);
    assert forall|i: int| 0 <= i < digits.len() implies line.drop_last()[5 + i] == digits[i] by {}
    lemma_line_parses(frame, line.drop_last());
}

} // verus!
