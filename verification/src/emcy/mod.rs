//! Emergency messages (EMCY).

use crate::bytes::{byte_or_zero, le_u16, padded, u16_bytes};
use crate::cobid::{parse_cob, CobId, NodeId, ParsedCobId};
use crate::transport::{frame_views, CanFrame, FrameView};
use std::collections::VecDeque;
use vstd::prelude::*;

pub mod error_register;

verus! {

/// Emergency error codes (CiA 301).
#[derive(Clone, Copy, Debug, PartialEq, Eq, Structural)]
pub enum EmcyErrorCode {
    NoError,
    GenericError,
    CurrentGeneric,
    VoltageGeneric,
    TemperatureGeneric,
    DeviceHardwareGeneric,
    DeviceSoftwareGeneric,
    AdditionalModulesGeneric,
    MonitoringGeneric,
    CommunicationGeneric,
    HeartbeatError,
    ProtocolError,
    RpdoTimeout,
    ExternalError,
    ManufacturerSpecific,
}

impl EmcyErrorCode {
    /// The number of an error code, for use in contracts.
    pub open spec fn spec_code(self) -> u16 {
        match self {
            EmcyErrorCode::NoError => 0x0000,
            EmcyErrorCode::GenericError => 0x1000,
            EmcyErrorCode::CurrentGeneric => 0x2000,
            EmcyErrorCode::VoltageGeneric => 0x3000,
            EmcyErrorCode::TemperatureGeneric => 0x4000,
            EmcyErrorCode::DeviceHardwareGeneric => 0x5000,
            EmcyErrorCode::DeviceSoftwareGeneric => 0x6000,
            EmcyErrorCode::AdditionalModulesGeneric => 0x7000,
            EmcyErrorCode::MonitoringGeneric => 0x8000,
            EmcyErrorCode::CommunicationGeneric => 0x8100,
            EmcyErrorCode::HeartbeatError => 0x8130,
            EmcyErrorCode::ProtocolError => 0x8200,
            EmcyErrorCode::RpdoTimeout => 0x8250,
            EmcyErrorCode::ExternalError => 0x9000,
            EmcyErrorCode::ManufacturerSpecific => 0xFF00,
        }
    }

    /// The number of an error code.
    #[verifier::when_used_as_spec(spec_code)]
    pub fn code(self) -> (r: u16)
        ensures
            r == self.code(),
    {
        match self {
            EmcyErrorCode::NoError => 0x0000,
            EmcyErrorCode::GenericError => 0x1000,
            EmcyErrorCode::CurrentGeneric => 0x2000,
            EmcyErrorCode::VoltageGeneric => 0x3000,
            EmcyErrorCode::TemperatureGeneric => 0x4000,
            EmcyErrorCode::DeviceHardwareGeneric => 0x5000,
            EmcyErrorCode::DeviceSoftwareGeneric => 0x6000,
            EmcyErrorCode::AdditionalModulesGeneric => 0x7000,
            EmcyErrorCode::MonitoringGeneric => 0x8000,
            EmcyErrorCode::CommunicationGeneric => 0x8100,
            EmcyErrorCode::HeartbeatError => 0x8130,
            EmcyErrorCode::ProtocolError => 0x8200,
            EmcyErrorCode::RpdoTimeout => 0x8250,
            EmcyErrorCode::ExternalError => 0x9000,
            EmcyErrorCode::ManufacturerSpecific => 0xFF00,
        }
    }
}

/// The emergency frame of a node: error code, error register and up to five
/// manufacturer-specific bytes.
pub open spec fn emcy_frame(node: NodeId, code: u16, register: u8, vendor: Seq<u8>) -> FrameView {
    FrameView {
        id: (0x80 + node.raw()) as u16,
        data: u16_bytes(code) + seq![register] + padded(vendor, 5),
    }
}

/// Build an EMCY frame.
///
/// - `error_code`: 16-bit emergency error code
/// - `error_register`: contents of OD 0x1001
/// - `vendor_data`: manufacturer-specific data, of which the first 5 bytes are sent
pub fn build_emcy_frame(
    node_id: NodeId,
    error_code: u16,
    error_register: u8,
    vendor_data: &[u8],
) -> (r: CanFrame)
    ensures
        r@ == emcy_frame(node_id, error_code, error_register, vendor_data@),
{
    let data: [u8; 8] = [
        (error_code % 256) as u8,
        (error_code / 256) as u8,
        error_register,
        byte_or_zero(vendor_data, 0),
        byte_or_zero(vendor_data, 1),
        byte_or_zero(vendor_data, 2),
        byte_or_zero(vendor_data, 3),
        byte_or_zero(vendor_data, 4),
    ];
    assert(data@ =~= u16_bytes(error_code) + seq![error_register] + padded(vendor_data@, 5));
    CanFrame::new(CobId::emergency(node_id).raw(), data.as_slice()).unwrap()
}

/// A received emergency message.
#[derive(Clone, Copy, Debug, PartialEq, Eq)]
pub struct EmcyMessage {
    pub node: NodeId,
    pub error_code: u16,
    pub error_register: u8,
    pub vendor_data: [u8; 5],
}

/// What an emergency message says.
#[verifier::ext_equal]
pub struct EmcyView {
    pub node: NodeId,
    pub error_code: u16,
    pub error_register: u8,
    pub vendor_data: Seq<u8>,
}

impl View for EmcyMessage {
    type V = EmcyView;

    open spec fn view(&self) -> EmcyView {
        EmcyView {
            node: self.node,
            error_code: self.error_code,
            error_register: self.error_register,
            vendor_data: self.vendor_data@,
        }
    }
}

/// The emergency message in a frame: a frame of 8 bytes with the identifier
/// of a node's emergency object.
pub open spec fn parse_emcy(frame: FrameView) -> Option<EmcyView> {
    match parse_cob(frame.id) {
        ParsedCobId::Emergency(node) if frame.data.len() == 8 => Some(
            EmcyView {
                node,
                error_code: le_u16(frame.data),
                error_register: frame.data[2],
                vendor_data: frame.data.skip(3),
            },
        ),
        _ => None,
    }
}

impl EmcyMessage {
    /// Parse an emergency frame. Returns `None` for other and for short frames.
    pub fn parse(frame: &CanFrame) -> (r: Option<Self>)
        ensures
            match r {
                Some(m) => parse_emcy(frame@) == Some(m@),
                None => parse_emcy(frame@) is None,
            },
    {
        let cob = CobId::new(frame.raw_id());
        let data = frame.data();
        if data.len() != 8 {
            return None;
        }
        match cob {
            None => None,
            Some(c) => match c.parse() {
                ParsedCobId::Emergency(node) => {
                    let m = EmcyMessage {
                        node,
                        error_code: data[0] as u16 + 0x100 * data[1] as u16,
                        error_register: data[2],
                        vendor_data: [data[3], data[4], data[5], data[6], data[7]],
                    };
                    assert(m.vendor_data@ =~= frame@.data.skip(3));
                    Some(m)
                },
                _ => None,
            },
        }
    }
}

/// Parsing an emergency frame gives back what it was built from, the
/// manufacturer-specific data being cut or filled up to five bytes.
pub proof fn lemma_build_then_parse(node: NodeId, code: u16, register: u8, vendor: Seq<u8>)
    requires
        1 <= node.raw() <= 127,
    ensures
        parse_emcy(emcy_frame(node, code, register, vendor)) == Some(
            EmcyView {
                node,
                error_code: code,
                error_register: register,
                vendor_data: padded(vendor, 5),
            },
        ),
{
    crate::cobid::lemma_construct_then_parse(node, 0);
    let f = emcy_frame(node, code, register, vendor);
    assert(f.data.skip(3) =~= padded(vendor, 5));
}

/// The state of an emergency producer: the error register, and the frames that
/// wait to be sent, oldest first.
#[verifier::ext_equal]
pub struct EmcyModel {
    pub node: NodeId,
    pub register: u8,
    pub pending: Seq<FrameView>,
}

impl EmcyModel {
    /// An error is reported: its bits and the generic bit are set.
    pub open spec fn set(self, code: u16, bits: u8, vendor: Seq<u8>) -> EmcyModel {
        let register = self.register | (bits | error_register::GENERIC);
        EmcyModel {
            node: self.node,
            register,
            pending: self.pending.push(emcy_frame(self.node, code, register, vendor)),
        }
    }

    /// Error bits are cleared. The end of the last error is announced.
    pub open spec fn clear(self, bits: u8) -> EmcyModel {
        let register = self.register & !bits;
        EmcyModel {
            node: self.node,
            register,
            pending: if register == 0 {
                self.pending.push(emcy_frame(self.node, 0, 0, Seq::empty()))
            } else {
                self.pending
            },
        }
    }

    /// All errors are cleared, which is announced.
    pub open spec fn clear_all(self) -> EmcyModel {
        EmcyModel {
            node: self.node,
            register: 0,
            pending: self.pending.push(emcy_frame(self.node, 0, 0, Seq::empty())),
        }
    }

    /// Several errors are reported, each with its code, bits and vendor data.
    pub open spec fn all_set(self, errors: Seq<(u16, u8, Seq<u8>)>) -> EmcyModel
        decreases errors.len(),
    {
        if errors.len() == 0 {
            self
        } else {
            let (code, bits, vendor) = errors.last();
            self.all_set(errors.drop_last()).set(code, bits, vendor)
        }
    }
}

/// EMCY producer. Queues emergency frames and tracks the error register.
///
/// Call `set_error()` to report a new error. The frame will be sent with the
/// node's next processing, after those of errors reported before. Call
/// `clear_error()` to clear error bits and send an "error reset" EMCY (code
/// 0x0000).
pub struct EmcyProducer {
    node_id: NodeId,
    error_register: u8,
    pending: VecDeque<CanFrame>,
}

impl View for EmcyProducer {
    type V = EmcyModel;

    closed spec fn view(&self) -> EmcyModel {
        EmcyModel {
            node: self.node_id,
            register: self.error_register,
            pending: frame_views(self.pending@),
        }
    }
}

impl EmcyProducer {
    pub fn new(node_id: NodeId) -> (r: Self)
        ensures
            r@ == (EmcyModel { node: node_id, register: 0, pending: Seq::empty() }),
    {
        let r = EmcyProducer { node_id, error_register: 0, pending: VecDeque::new() };
        assert(r@.pending =~= Seq::<FrameView>::empty());
        r
    }

    fn queue(&mut self, frame: CanFrame)
        ensures
            final(self)@ == (EmcyModel { pending: old(self)@.pending.push(frame@), ..old(self)@ }),
    {
        let ghost before = self.pending@;
        self.pending.push_back(frame);
        assert(frame_views(self.pending@) =~= frame_views(before).push(frame@));
    }

    fn queue_reset(&mut self)
        ensures
            final(self)@ == (EmcyModel {
                pending: old(self)@.pending.push(emcy_frame(old(self)@.node, 0, 0, Seq::empty())),
                ..old(self)@
            }),
    {
        let none: [u8; 0] = [];
        assert(none@ =~= Seq::<u8>::empty());
        self.queue(
            build_emcy_frame(self.node_id, EmcyErrorCode::NoError.code(), 0, none.as_slice()),
        );
    }

    /// Current error register value (for OD 0x1001 reads).
    pub fn error_register(&self) -> (r: u8)
        ensures
            r == self@.register,
    {
        self.error_register
    }

    /// Report an error. Sets the corresponding error register bits and
    /// queues an EMCY frame with the given error code and optional vendor data.
    pub fn set_error(&mut self, error_code: u16, register_bits: u8, vendor_data: &[u8])
        ensures
            final(self)@ == old(self)@.set(error_code, register_bits, vendor_data@),
    {
        self.error_register = self.error_register | (register_bits | error_register::GENERIC);
        self.queue(build_emcy_frame(self.node_id, error_code, self.error_register, vendor_data));
    }

    /// Clear error register bits. If the register becomes 0, queues an
    /// "error reset" EMCY frame (code 0x0000).
    pub fn clear_error(&mut self, register_bits: u8)
        ensures
            final(self)@ == old(self)@.clear(register_bits),
    {
        self.error_register = self.error_register & !register_bits;
        if self.error_register == 0 {
            self.queue_reset();
        }
    }

    /// Clear all errors and queue an error-reset EMCY.
    pub fn clear_all(&mut self)
        ensures
            final(self)@ == old(self)@.clear_all(),
    {
        self.error_register = 0;
        self.queue_reset();
    }

    /// Take the next pending EMCY frame to transmit, if any.
    pub fn take_pending(&mut self) -> (r: Option<CanFrame>)
        ensures
            r is Some <==> old(self)@.pending.len() > 0,
            r matches Some(f) ==> f@ == old(self)@.pending[0] && final(self)@ == (EmcyModel {
                pending: old(self)@.pending.drop_first(),
                ..old(self)@
            }),
            r is None ==> final(self)@ == old(self)@,
    {
        let ghost before = self.pending@;
        let r = self.pending.pop_front();
        assert(r is Some ==> frame_views(self.pending@) =~= frame_views(before).drop_first());
        r
    }
}

/// A burst of errors is announced completely: one frame for each error, in the
/// order in which they were reported, after the frames that waited already.
pub proof fn lemma_burst_is_announced(m: EmcyModel, errors: Seq<(u16, u8, Seq<u8>)>)
    ensures
        m.all_set(errors).node == m.node,
        m.all_set(errors).pending.len() == m.pending.len() + errors.len(),
        m.all_set(errors).pending.take(m.pending.len() as int) == m.pending,
        forall|i: int|
            0 <= i < errors.len() ==> m.all_set(errors).pending[m.pending.len() + i] == emcy_frame(
                m.node,
                (#[trigger] errors[i]).0,
                m.all_set(errors.take(i + 1)).register,
                errors[i].2,
            ),
    decreases errors.len(),
{
    if errors.len() == 0 {
        assert(m.pending.take(m.pending.len() as int) =~= m.pending);
    } else {
        let front = errors.drop_last();
        lemma_burst_is_announced(m, front);
        let before = m.all_set(front);
        let after = m.all_set(errors);
        assert(after.pending.take(m.pending.len() as int) =~= before.pending.take(
            m.pending.len() as int,
        ));
        assert forall|i: int| 0 <= i < errors.len() implies after.pending[m.pending.len() + i]
            == emcy_frame(
            m.node,
            (#[trigger] errors[i]).0,
            m.all_set(errors.take(i + 1)).register,
            errors[i].2,
        ) by {
            if i < front.len() {
                assert(front[i] == errors[i]);
                assert(front.take(i + 1) =~= errors.take(i + 1));
            } else {
                assert(errors.take(i + 1) =~= errors);
            }
        }
    }
}

/// Clearing the bits of an error, the generic bit included, undoes reporting
/// it: bits that were not set before are not set after, and if none is left
/// the end of the error is announced.
pub proof fn lemma_clear_undoes_set(m: EmcyModel, code: u16, bits: u8, vendor: Seq<u8>)
    requires
        m.register & (bits | error_register::GENERIC) == 0,
    ensures
        m.set(code, bits, vendor).clear(bits | error_register::GENERIC).register == m.register,
        m.register == 0 ==> m.set(code, bits, vendor).clear(
            bits | error_register::GENERIC,
        ).pending.last() == emcy_frame(m.node, 0, 0, Seq::empty()),
{
    let r = m.register;
    let b = bits | error_register::GENERIC;
    assert((r | b) & !b == r) by (bit_vector)
        requires
            r & b == 0,
    ;
}

} // verus!
