//! What goes over the wire of a serial adapter, and to whom frames go.

use crate::bus::{free_slot, live, subscribed, PumpActionView, PumpView};
use crate::can_router::{first_match, is_heartbeat, is_pdo, is_sdo_response};
use crate::cobid::{lemma_node_id_of_raw, lemma_node_id_raw_of, NodeId};
use crate::sdo::driver::is_response;
use crate::slcan::logic::{bytes_of_hex, frame_line, hex_value, parse_line, SlcanBitrate};
use crate::slcan::serial::next_line;
use crate::transport::FrameView;
use vstd::prelude::*;

verus! {

// ---- Lines of a serial adapter ----

/// The digits of hexadecimal numbers, as bytes of text.
pub open spec fn digit_bytes() -> Seq<u8> {
    seq![
        0x30u8,
        0x31,
        0x32,
        0x33,
        0x34,
        0x35,
        0x36,
        0x37,
        0x38,
        0x39,
        0x41,
        0x42,
        0x43,
        0x44,
        0x45,
        0x46,
    ]
}

/// A frame is a line: `t`, three digits for the identifier, most significant
/// first, one for the number of bytes, two for each byte, and a carriage return.
pub proof fn lemma_line_format(frame: FrameView, i: int)
    requires
        frame.id <= 0x7FF,
        frame.data.len() <= 8,
    ensures
        ({
            let line = frame_line(frame);
            &&& line.len() == 6 + 2 * frame.data.len()
            &&& line[0] == 116
            &&& line[1] == digit_bytes()[frame.id as int / 256]
            &&& line[2] == digit_bytes()[frame.id as int / 16 % 16]
            &&& line[3] == digit_bytes()[frame.id as int % 16]
            &&& line[4] == digit_bytes()[frame.data.len() as int]
            &&& 0 <= i < frame.data.len() ==> {
                &&& line[5 + 2 * i] == digit_bytes()[frame.data[i] as int / 16]
                &&& line[6 + 2 * i] == digit_bytes()[frame.data[i] as int % 16]
            }
            &&& line.last() == 13
        }),
{
    let line = frame_line(frame);
    if 0 <= i < frame.data.len() {
        let h = crate::slcan::logic::hex_of(frame.data);
        assert(line[5 + 2 * i] == h[2 * i]);
        assert(line[6 + 2 * i] == h[2 * i + 1]);
        assert((2 * i) % 2 == 0 && (2 * i) / 2 == i && (2 * i + 1) / 2 == i);
    }
}

/// A digit is read in either case, and nothing else is.
pub proof fn lemma_digits_in_either_case(c: u8)
    ensures
        match hex_value(c) {
            Some(v) => v < 16 && (c == digit_bytes()[v as int] || (v >= 10 && c
                == digit_bytes()[v as int] + 32)),
            None => forall|v: int|
                0 <= v < 16 ==> c != #[trigger] digit_bytes()[v] && (v >= 10 ==> c
                    != digit_bytes()[v] + 32),
        },
{
    if hex_value(c) is None {
        assert forall|v: int| 0 <= v < 16 implies c != #[trigger] digit_bytes()[v] && (v >= 10 ==> c
            != digit_bytes()[v] + 32) by {}
    }
}

/// Two lines that differ in the case of a digit stand for the same frame, and a
/// line that is too short, does not begin with `t`, or has a length beyond eight
/// or an identifier beyond eleven bits stands for none.
pub proof fn lemma_other_lines(line: Seq<u8>)
    ensures
        line.len() < 5 ==> parse_line(line) is None,
        line.len() > 0 && line[0] != 116 ==> parse_line(line) is None,
        line.len() >= 5 && !(48 <= line[4] <= 56) ==> parse_line(line) is None,
        line.len() >= 5 && line.len() < 5 + 2 * (line[4] - 48) ==> parse_line(line) is None,
        line.len() >= 5 && hex_value(line[1]) is Some && hex_value(line[1])->0 > 7 ==> parse_line(line)
            is None,
        line.len() >= 5 && (hex_value(line[1]) is None || hex_value(line[2]) is None || hex_value(
            line[3],
        ) is None) ==> parse_line(line) is None,
        parse_line(line) matches Some(f) ==> {
            &&& f.id <= 0x7FF
            &&& f.data.len() == line[4] - 48
            &&& f.id == 256 * hex_value(line[1])->0 + 16 * hex_value(line[2])->0 + hex_value(
                line[3],
            )->0
        },
{
    if parse_line(line) is Some {
        lemma_bytes_of_hex(line.skip(5), line[4] - 48);
    }
}

/// Two digits of a number in a text.
spec fn pair_at(digits: Seq<u8>, i: int) -> Option<int> {
    match (hex_value(digits[2 * i]), hex_value(digits[2 * i + 1])) {
        (Some(high), Some(low)) => Some(16 * high + low),
        _ => None,
    }
}

proof fn lemma_bytes_of_hex(digits: Seq<u8>, n: int)
    requires
        0 <= n,
        bytes_of_hex(digits, n) is Some,
    ensures
        (bytes_of_hex(digits, n)->0).len() == n,
        forall|i: int|
            0 <= i < n ==> #[trigger] pair_at(digits, i) == Some(
                (bytes_of_hex(digits, n)->0)[i] as int,
            ),
    decreases n,
{
    if n > 0 {
        lemma_bytes_of_hex(digits, n - 1);
        let data = bytes_of_hex(digits, n)->0;
        let front = bytes_of_hex(digits, n - 1)->0;
        assert(data.len() == n);
        assert(2 * (n - 1) == 2 * n - 2 && 2 * (n - 1) + 1 == 2 * n - 1);
        assert(pair_at(digits, n - 1) == Some(data[n - 1] as int));
        assert forall|i: int| 0 <= i < n implies #[trigger] pair_at(digits, i) == Some(
            data[i] as int,
        ) by {
            if i < n - 1 {
                assert(data[i] == front[i]);
            }
        }
    }
}

/// Each byte of a frame is read from its two digits.
pub proof fn lemma_bytes_of_line(line: Seq<u8>, i: int)
    requires
        parse_line(line) matches Some(f) && 0 <= i < f.data.len(),
    ensures
        (parse_line(line)->0).data[i] == 16 * hex_value(line[5 + 2 * i])->0 + hex_value(
            line[6 + 2 * i],
        )->0,
{
    lemma_bytes_of_hex(line.skip(5), line[4] - 48);
    assert(line.skip(5)[2 * i] == line[5 + 2 * i]);
    assert(line.skip(5)[2 * i + 1] == line[6 + 2 * i]);
    assert(pair_at(line.skip(5), i) is Some);
}

/// The bit rates of the adapter are numbered from slow to fast.
pub proof fn lemma_bitrate_numbers(rate: SlcanBitrate)
    ensures
        rate.spec_code() <= 8,
        rate is S4 ==> rate.spec_code() == 4,
        rate is S5 ==> rate.spec_code() == 5,
        rate is S6 ==> rate.spec_code() == 6,
        rate is S8 ==> rate.spec_code() == 8,
        rate is S0 ==> rate.spec_code() == 0,
        rate is S1 ==> rate.spec_code() == 1,
        rate is S2 ==> rate.spec_code() == 2,
        rate is S3 ==> rate.spec_code() == 3,
        rate is S7 ==> rate.spec_code() == 7,
{
}

/// A line that is no frame is skipped, and what is behind it stays; a line that
/// has not ended yet is kept until it does, or is too long to be one.
pub proof fn lemma_lines_are_taken(line: Seq<u8>, rest: Seq<u8>)
    requires
        forall|i: int| 0 <= i < line.len() ==> (#[trigger] line[i]) != 13,
    ensures
        next_line(line + seq![13u8] + rest) == (parse_line(line), rest),
        next_line(line).0 is None,
        line.len() <= 64 ==> next_line(line).1 == line || next_line(line).1.len() == 0,
{
    let all = line + seq![13u8] + rest;
    lemma_line_end(all, line.len() as int, 0);
    assert(all.take(line.len() as int) =~= line);
    assert(all.skip(line.len() as int + 1) =~= rest);
    lemma_no_line_end(line, 0);
}

proof fn lemma_line_end(all: Seq<u8>, n: int, from: int)
    requires
        0 <= from <= n < all.len(),
        all[n] == 13,
        forall|i: int| 0 <= i < n ==> (#[trigger] all[i]) != 13,
    ensures
        crate::slcan::serial::line_end(all, from) == Some(n),
    decreases n - from,
{
    if from < n {
        lemma_line_end(all, n, from + 1);
    }
}

proof fn lemma_no_line_end(line: Seq<u8>, from: int)
    requires
        0 <= from,
        forall|i: int| 0 <= i < line.len() ==> (#[trigger] line[i]) != 13,
    ensures
        crate::slcan::serial::line_end(line, from) is None,
    decreases line.len() - from,
{
    if from < line.len() {
        lemma_no_line_end(line, from + 1);
    }
}

// ---- To whom frames go ----

/// Frames go by their identifiers: 0x181 to 0x57F are process data, 0x581 to
/// 0x5FF responses of SDO servers, 0x701 to 0x77F heartbeats; an identifier that
/// is a multiple of 0x80 is none of them. Nothing else is any of them.
pub proof fn lemma_routes(frame: FrameView, node: NodeId)
    requires
        frame.id <= 0x7FF,
        1 <= node.raw() <= 127,
    ensures
        is_pdo(frame) <==> 0x180 < frame.id < 0x580 && frame.id % 0x80 != 0,
        is_sdo_response(frame) <==> 0x580 < frame.id < 0x600,
        is_heartbeat(frame, None) <==> 0x700 < frame.id < 0x780,
        is_heartbeat(frame, Some(node)) <==> frame.id == 0x700 + node.raw(),
        is_response(node, frame) <==> frame.id == 0x580 + node.raw() && frame.data.len() == 8,
{
    lemma_node_id_of_raw(node);
    lemma_node_id_raw_of((frame.id % 0x80) as u8);
}

/// The first buffered frame that is wanted is the one that is found.
pub proof fn lemma_first_match(frames: Seq<FrameView>, wanted: spec_fn(FrameView) -> bool, from: int)
    requires
        0 <= from,
    ensures
        match first_match(frames, wanted, from) {
            Some(i) => from <= i < frames.len() && wanted(frames[i]) && forall|j: int|
                from <= j < i ==> !wanted(#[trigger] frames[j]),
            None => forall|j: int| from <= j < frames.len() ==> !wanted(#[trigger] frames[j]),
        },
    decreases frames.len() - from,
{
    if from < frames.len() && !wanted(frames[from]) {
        lemma_first_match(frames, wanted, from + 1);
    }
}

// ---- Subscriptions ----

/// A new subscription has the lowest number that is free, and there is one more
/// of them then.
pub proof fn lemma_lowest_number_is_used<T>(subs: Seq<Option<T>>, s: T)
    ensures
        ({
            let id = free_slot(subs, 0);
            &&& 0 <= id <= subs.len()
            &&& forall|j: int| 0 <= j < id ==> (#[trigger] subs[j]) is Some
            &&& id < subs.len() ==> subs[id] is None
        }),
        live(subscribed(subs, s)) == live(subs) + 1,
{
    lemma_free_slot(subs, 0);
    let id = free_slot(subs, 0);
    if id < subs.len() {
        lemma_live_update(subs, id, s);
    } else {
        assert(subs.push(Some(s)).drop_last() =~= subs);
    }
}

proof fn lemma_free_slot<T>(subs: Seq<Option<T>>, from: int)
    requires
        0 <= from <= subs.len(),
    ensures
        ({
            let id = free_slot(subs, from);
            &&& from <= id <= subs.len()
            &&& forall|j: int| from <= j < id ==> (#[trigger] subs[j]) is Some
            &&& id < subs.len() ==> subs[id] is None
        }),
    decreases subs.len() - from,
{
    if from < subs.len() && subs[from] is Some {
        lemma_free_slot(subs, from + 1);
    }
}

proof fn lemma_live_update<T>(subs: Seq<Option<T>>, id: int, s: T)
    requires
        0 <= id < subs.len(),
        subs[id] is None,
    ensures
        live(subs.update(id, Some(s))) == live(subs) + 1,
    decreases subs.len(),
{
    let after = subs.update(id, Some(s));
    if id < subs.len() - 1 {
        lemma_live_update(subs.drop_last(), id, s);
        assert(after.drop_last() =~= subs.drop_last().update(id, Some(s)));
    } else {
        assert(after.drop_last() =~= subs.drop_last());
    }
}

/// A frame that cannot be transmitted is tried again for half a second.
pub proof fn lemma_stuck_frames(pump: PumpView, frame: FrameView, since: u64, now: u64)
    requires
        pump.sending == Some((frame, since)),
        since <= now,
    ensures
        now - since < 500_000 ==> pump.blocked(now) == PumpActionView::Retry(frame),
        now - since >= 500_000 ==> pump.blocked(now) == PumpActionView::GiveUp,
{
}

} // verus!
