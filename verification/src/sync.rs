//! SYNC production and consumption.

use crate::time::elapsed_us;
use crate::transport::{CanFrame, FrameView};
use vstd::prelude::*;

verus! {

/// The next value of an 8-bit counter that wraps around.
pub open spec fn next_count(counter: u8) -> u8 {
    ((counter + 1) % 256) as u8
}

/// SYNC consumer. Detects incoming SYNC frames.
pub struct SyncConsumer {
    counter: u8,
}

impl View for SyncConsumer {
    type V = u8;

    closed spec fn view(&self) -> u8 {
        self.counter
    }
}

impl SyncConsumer {
    pub fn new() -> (r: Self)
        ensures
            r@ == 0,
    {
        SyncConsumer { counter: 0 }
    }

    /// Process a SYNC frame. Returns the SYNC counter value: the one in the
    /// frame, or the number of frames without a counter seen so far.
    /// SYNC frames have COB-ID 0x080, 0 or 1 data byte.
    pub fn process(&mut self, frame: &CanFrame) -> (r: Option<u8>)
        ensures
            r == (if frame@.id != 0x080 {
                None
            } else if frame@.data.len() >= 1 {
                Some(frame@.data[0])
            } else {
                Some(next_count(old(self)@))
            }),
            final(self)@ == (if frame@.id == 0x080 && frame@.data.len() == 0 {
                next_count(old(self)@)
            } else {
                old(self)@
            }),
    {
        if frame.raw_id() != 0x080 {
            return None;
        }
        let data = frame.data();
        if data.len() >= 1 {
            Some(data[0])
        } else {
            self.counter = self.counter.wrapping_add(1);
            Some(self.counter)
        }
    }
}

/// The state of a SYNC producer.
pub struct SyncModel {
    pub interval_us: u64,
    pub last_sent_us: u64,
    pub counter: u8,
    pub use_counter: bool,
}

impl SyncModel {
    /// A frame is due: the interval is set and has passed.
    pub open spec fn due(self, now: u64) -> bool {
        self.interval_us != 0 && elapsed_us(now, self.last_sent_us) >= self.interval_us
    }

    /// The producer after sending a frame.
    pub open spec fn sent(self, now: u64) -> SyncModel {
        SyncModel {
            last_sent_us: now,
            counter: if self.use_counter {
                next_count(self.counter)
            } else {
                self.counter
            },
            ..self
        }
    }

    /// The frame that is sent: with the new counter value, if counters are used.
    pub open spec fn frame(self) -> FrameView {
        FrameView {
            id: 0x080,
            data: if self.use_counter {
                seq![next_count(self.counter)]
            } else {
                Seq::empty()
            },
        }
    }
}

/// SYNC producer. Generates SYNC frames at a configurable interval.
pub struct SyncProducer {
    interval_us: u64,
    last_sent_us: u64,
    counter: u8,
    use_counter: bool,
}

impl View for SyncProducer {
    type V = SyncModel;

    closed spec fn view(&self) -> SyncModel {
        SyncModel {
            interval_us: self.interval_us,
            last_sent_us: self.last_sent_us,
            counter: self.counter,
            use_counter: self.use_counter,
        }
    }
}

impl SyncProducer {
    pub fn new(interval_us: u64, use_counter: bool) -> (r: Self)
        ensures
            r@ == (SyncModel { interval_us, last_sent_us: 0, counter: 0, use_counter }),
    {
        SyncProducer { interval_us, last_sent_us: 0, counter: 0, use_counter }
    }

    /// Check if a SYNC frame is due. Returns the frame to send, if any.
    pub fn poll(&mut self, now_us: u64) -> (r: Option<CanFrame>)
        ensures
            r is Some <==> old(self)@.due(now_us),
            r matches Some(f) ==> f@ == old(self)@.frame() && final(self)@ == old(self)@.sent(
                now_us,
            ),
            r is None ==> final(self)@ == old(self)@,
    {
        if self.interval_us == 0 {
            return None;
        }
        if now_us.wrapping_sub(self.last_sent_us) >= self.interval_us {
            self.last_sent_us = now_us;
            if self.use_counter {
                self.counter = self.counter.wrapping_add(1);
                let data: [u8; 1] = [self.counter];
                assert(data@ =~= seq![self.counter]);
                Some(CanFrame::new(0x080, data.as_slice()).unwrap())
            } else {
                let data: [u8; 0] = [];
                assert(data@ =~= Seq::<u8>::empty());
                Some(CanFrame::new(0x080, data.as_slice()).unwrap())
            }
        } else {
            None
        }
    }
}

/// After a frame was sent, the next one is not due before the interval has
/// passed, and is due as soon as it has.
pub proof fn lemma_sync_interval(m: SyncModel, sent_at: u64, now: u64)
    requires
        m.interval_us != 0,
        sent_at <= now,
    ensures
        m.sent(sent_at).due(now) <==> now - sent_at >= m.interval_us,
{
}

} // verus!
