//! CAN frames, and the mailbox between a CAN driver and the protocol stack.

use crate::queue::BoundedQueue;
use vstd::prelude::*;

verus! {

/// What a CAN frame says on the bus: its identifier and its payload.
#[verifier::ext_equal]
pub struct FrameView {
    pub id: u16,
    pub data: Seq<u8>,
}

/// A CAN data frame with an 11-bit identifier and up to 8 data bytes.
#[derive(Clone, Copy, Debug)]
pub struct CanFrame {
    id: u16,
    dlc: u8,
    data: [u8; 8],
}

impl View for CanFrame {
    type V = FrameView;

    closed spec fn view(&self) -> FrameView {
        FrameView { id: self.id, data: self.data@.take(self.dlc as int) }
    }
}

impl CanFrame {
    #[verifier::type_invariant]
    spec fn well_formed(self) -> bool {
        self.id <= 0x7FF && self.dlc <= 8
    }

    /// Create a new data frame. Returns None if id > 0x7FF or data > 8 bytes.
    pub fn new(id: u16, data: &[u8]) -> (r: Option<Self>)
        ensures
            r is Some <==> id <= 0x7FF && data@.len() <= 8,
            r matches Some(f) ==> f@ == (FrameView { id, data: data@ }),
    {
        if id > 0x7FF || data.len() > 8 {
            return None;
        }
        let mut frame_data: [u8; 8] = [0u8; 8];
        let mut i: usize = 0;
        while i < data.len()
            invariant
                i <= data.len() <= 8,
                frame_data@.take(i as int) == data@.take(i as int),
            decreases data.len() - i,
        {
            frame_data[i] = data[i];
            i += 1;
            assert(frame_data@.take(i as int) =~= data@.take(i as int));
        }
        assert(data@.take(i as int) =~= data@);
        Some(Self { id, dlc: data.len() as u8, data: frame_data })
    }

    /// Raw 11-bit standard CAN ID.
    pub fn raw_id(&self) -> (r: u16)
        ensures
            r == self@.id,
            r <= 0x7FF,
    {
        proof {
            use_type_invariant(self);
        }
        self.id
    }

    /// Frame data (0..8 bytes).
    pub fn data(&self) -> (r: &[u8])
        ensures
            r@ == self@.data,
            r@.len() <= 8,
    {
        proof {
            use_type_invariant(self);
        }
        vstd::slice::slice_subrange(self.data.as_slice(), 0, self.dlc as usize)
    }

    /// Data length code as u8.
    pub fn raw_dlc(&self) -> (r: u8)
        ensures
            r == self@.data.len(),
            r <= 8,
    {
        proof {
            use_type_invariant(self);
        }
        self.dlc
    }
}

/// CAN error type for transports.
#[derive(Clone, Copy, Debug, PartialEq, Eq, Structural)]
pub enum CanError {
    TxBufferFull,
    BusError,
}

/// What frames say, one by one.
pub open spec fn frame_views(frames: Seq<CanFrame>) -> Seq<FrameView> {
    frames.map_values(|f: CanFrame| f@)
}

/// The frames in a mailbox, oldest first.
#[verifier::ext_equal]
pub struct MailboxModel {
    /// To be sent by the driver.
    pub tx: Seq<FrameView>,
    /// Received by the driver.
    pub rx: Seq<FrameView>,
}

/// A mailbox between a CAN driver and the polling protocol stack.
///
/// The driver side calls `store_received()` and `next_to_transmit()`, the
/// protocol side `transmit()` and `receive()`.
pub struct MailboxTransport<const TX: usize, const RX: usize> {
    tx_queue: BoundedQueue<CanFrame, TX>,
    rx_queue: BoundedQueue<CanFrame, RX>,
}

impl<const TX: usize, const RX: usize> View for MailboxTransport<TX, RX> {
    type V = MailboxModel;

    closed spec fn view(&self) -> MailboxModel {
        MailboxModel { tx: frame_views(self.tx_queue@), rx: frame_views(self.rx_queue@) }
    }
}

impl<const TX: usize, const RX: usize> MailboxTransport<TX, RX> {
    pub fn new() -> (r: Self)
        ensures
            r@ == (MailboxModel { tx: Seq::empty(), rx: Seq::empty() }),
    {
        MailboxTransport { tx_queue: BoundedQueue::new(), rx_queue: BoundedQueue::new() }
    }

    /// Called by the CAN driver when a frame is received.
    /// Returns Err with the frame if the rx buffer is full.
    pub fn store_received(&mut self, frame: CanFrame) -> (r: Result<(), CanFrame>)
        ensures
            r is Ok <==> old(self)@.rx.len() < RX,
            r is Ok ==> final(self)@ == (MailboxModel {
                rx: old(self)@.rx.push(frame@),
                ..old(self)@
            }),
            r matches Err(back) ==> back == frame && final(self)@ == old(self)@,
    {
        let r = self.rx_queue.push_back(frame);
        assert(r is Ok ==> self@.rx =~= old(self)@.rx.push(frame@));
        r
    }

    /// Called by the CAN driver to get the next frame to transmit.
    pub fn next_to_transmit(&mut self) -> (r: Option<CanFrame>)
        ensures
            r is Some <==> old(self)@.tx.len() > 0,
            r matches Some(f) ==> f@ == old(self)@.tx[0] && final(self)@ == (MailboxModel {
                tx: old(self)@.tx.drop_first(),
                ..old(self)@
            }),
            r is None ==> final(self)@ == old(self)@,
    {
        let r = self.tx_queue.pop_front();
        assert(r is Some ==> self@.tx =~= old(self)@.tx.drop_first());
        r
    }

    /// Queue a frame for the driver.
    pub fn transmit(&mut self, frame: &CanFrame) -> (r: Result<(), CanError>)
        ensures
            r is Ok <==> old(self)@.tx.len() < TX,
            r is Ok ==> final(self)@ == (MailboxModel {
                tx: old(self)@.tx.push(frame@),
                ..old(self)@
            }),
            r matches Err(e) ==> e == CanError::TxBufferFull && final(self)@ == old(self)@,
    {
        match self.tx_queue.push_back(*frame) {
            Ok(()) => {
                assert(self@.tx =~= old(self)@.tx.push(frame@));
                Ok(())
            },
            Err(_) => Err(CanError::TxBufferFull),
        }
    }

    /// Take the oldest received frame. `None` if there is none.
    pub fn receive(&mut self) -> (r: Option<CanFrame>)
        ensures
            r is Some <==> old(self)@.rx.len() > 0,
            r matches Some(f) ==> f@ == old(self)@.rx[0] && final(self)@ == (MailboxModel {
                rx: old(self)@.rx.drop_first(),
                ..old(self)@
            }),
            r is None ==> final(self)@ == old(self)@,
    {
        let r = self.rx_queue.pop_front();
        assert(r is Some ==> self@.rx =~= old(self)@.rx.drop_first());
        r
    }
}

} // verus!
