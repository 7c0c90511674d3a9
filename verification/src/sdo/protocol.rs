//! SDO frame encoding.

use crate::bytes::{bit, byte_or_zero, padded, u32_bytes, u32_to_le};
use vstd::prelude::*;

verus! {

/// SDO abort codes (CiA 301 Table 22).
#[derive(Clone, Copy, Debug, PartialEq, Eq, Structural)]
pub enum AbortCode {
    ToggleBitNotAlternated,
    SdoProtocolTimeout,
    InvalidCommandSpecifier,
    InvalidBlockSize,
    InvalidSequenceNumber,
    CrcError,
    OutOfMemory,
    UnsupportedAccess,
    WriteOnlyObject,
    ReadOnlyObject,
    ObjectNotFound,
    ObjectCannotBeMapped,
    PdoLengthExceeded,
    ParameterIncompatibility,
    SubindexNotFound,
    ValueRangeExceeded,
    ValueTooHigh,
    ValueTooLow,
    DataTypeMismatch,
    GeneralError,
    DataTransferError,
    DataTransferLocalControl,
    DataTransferDeviceState,
}

impl AbortCode {
    /// The number of an abort code, for use in contracts.
    pub open spec fn spec_to_u32(self) -> u32 {
        match self {
            AbortCode::ToggleBitNotAlternated => 0x0503_0000,
            AbortCode::SdoProtocolTimeout => 0x0504_0000,
            AbortCode::InvalidCommandSpecifier => 0x0504_0001,
            AbortCode::InvalidBlockSize => 0x0504_0002,
            AbortCode::InvalidSequenceNumber => 0x0504_0003,
            AbortCode::CrcError => 0x0504_0004,
            AbortCode::OutOfMemory => 0x0504_0005,
            AbortCode::UnsupportedAccess => 0x0601_0000,
            AbortCode::WriteOnlyObject => 0x0601_0001,
            AbortCode::ReadOnlyObject => 0x0601_0002,
            AbortCode::ObjectNotFound => 0x0602_0000,
            AbortCode::ObjectCannotBeMapped => 0x0604_0041,
            AbortCode::PdoLengthExceeded => 0x0604_0042,
            AbortCode::ParameterIncompatibility => 0x0604_0043,
            AbortCode::SubindexNotFound => 0x0609_0011,
            AbortCode::ValueRangeExceeded => 0x0609_0030,
            AbortCode::ValueTooHigh => 0x0609_0031,
            AbortCode::ValueTooLow => 0x0609_0032,
            AbortCode::DataTypeMismatch => 0x0609_0043,
            AbortCode::GeneralError => 0x0800_0000,
            AbortCode::DataTransferError => 0x0800_0020,
            AbortCode::DataTransferLocalControl => 0x0800_0021,
            AbortCode::DataTransferDeviceState => 0x0800_0022,
        }
    }

    #[verifier::when_used_as_spec(spec_to_u32)]
    pub fn to_u32(self) -> (r: u32)
        ensures
            r == self.to_u32(),
    {
        match self {
            AbortCode::ToggleBitNotAlternated => 0x0503_0000,
            AbortCode::SdoProtocolTimeout => 0x0504_0000,
            AbortCode::InvalidCommandSpecifier => 0x0504_0001,
            AbortCode::InvalidBlockSize => 0x0504_0002,
            AbortCode::InvalidSequenceNumber => 0x0504_0003,
            AbortCode::CrcError => 0x0504_0004,
            AbortCode::OutOfMemory => 0x0504_0005,
            AbortCode::UnsupportedAccess => 0x0601_0000,
            AbortCode::WriteOnlyObject => 0x0601_0001,
            AbortCode::ReadOnlyObject => 0x0601_0002,
            AbortCode::ObjectNotFound => 0x0602_0000,
            AbortCode::ObjectCannotBeMapped => 0x0604_0041,
            AbortCode::PdoLengthExceeded => 0x0604_0042,
            AbortCode::ParameterIncompatibility => 0x0604_0043,
            AbortCode::SubindexNotFound => 0x0609_0011,
            AbortCode::ValueRangeExceeded => 0x0609_0030,
            AbortCode::ValueTooHigh => 0x0609_0031,
            AbortCode::ValueTooLow => 0x0609_0032,
            AbortCode::DataTypeMismatch => 0x0609_0043,
            AbortCode::GeneralError => 0x0800_0000,
            AbortCode::DataTransferError => 0x0800_0020,
            AbortCode::DataTransferLocalControl => 0x0800_0021,
            AbortCode::DataTransferDeviceState => 0x0800_0022,
        }
    }

    pub fn to_le_bytes(self) -> (r: [u8; 4])
        ensures
            r@ == u32_bytes(self.to_u32()),
    {
        u32_to_le(self.to_u32())
    }
}

/// Different abort codes have different numbers.
pub proof fn lemma_abort_codes_are_distinct(a: AbortCode, b: AbortCode)
    requires
        a.to_u32() == b.to_u32(),
    ensures
        a == b,
{
}

/// Client Command Specifier (CCS): upper 3 bits of byte 0 in client to server SDO frames.
#[derive(Clone, Copy, Debug, PartialEq, Eq, Structural)]
pub enum Ccs {
    /// Download segment
    DownloadSegment,
    /// Initiate download (write) request
    InitiateDownload,
    /// Initiate upload (read) request
    InitiateUpload,
    /// Upload segment
    UploadSegment,
    /// Abort transfer
    AbortTransfer,
    /// Block upload (client initiates)
    BlockUpload,
    /// Block download (client initiates)
    BlockDownload,
}

/// Server Command Specifier (SCS): upper 3 bits of byte 0 in server to client SDO frames.
#[derive(Clone, Copy, Debug, PartialEq, Eq, Structural)]
pub enum Scs {
    /// Upload segment response
    UploadSegmentResponse,
    /// Download segment response
    DownloadSegmentResponse,
    /// Initiate upload response
    InitiateUploadResponse,
    /// Initiate download response
    InitiateDownloadResponse,
    /// Abort transfer
    AbortTransfer,
}

/// The client command that byte 0 of a request carries, for use in contracts.
pub open spec fn ccs_of(byte0: u8) -> Option<Ccs> {
    let cs = byte0 / 32;
    if cs == 0 {
        Some(Ccs::DownloadSegment)
    } else if cs == 1 {
        Some(Ccs::InitiateDownload)
    } else if cs == 2 {
        Some(Ccs::InitiateUpload)
    } else if cs == 3 {
        Some(Ccs::UploadSegment)
    } else if cs == 4 {
        Some(Ccs::AbortTransfer)
    } else if cs == 5 {
        Some(Ccs::BlockUpload)
    } else if cs == 6 {
        Some(Ccs::BlockDownload)
    } else {
        None
    }
}

impl Ccs {
    /// The client command that byte 0 of a request carries.
    pub fn from_byte0(byte0: u8) -> (r: Option<Ccs>)
        ensures
            r == ccs_of(byte0),
    {
        match command_specifier(byte0) {
            0 => Some(Ccs::DownloadSegment),
            1 => Some(Ccs::InitiateDownload),
            2 => Some(Ccs::InitiateUpload),
            3 => Some(Ccs::UploadSegment),
            4 => Some(Ccs::AbortTransfer),
            5 => Some(Ccs::BlockUpload),
            6 => Some(Ccs::BlockDownload),
            _ => None,
        }
    }
}

/// Extract the command specifier (upper 3 bits) from SDO byte 0.
pub fn command_specifier(byte0: u8) -> (r: u8)
    ensures
        r == byte0 / 32,
        r <= 7,
{
    byte0 / 32
}

/// The index and subindex in bytes 1-3 of an SDO frame.
pub open spec fn index_of(data: Seq<u8>) -> u16 {
    (data[1] + 0x100 * data[2]) as u16
}

/// A frame that starts with a command byte and an object's address.
pub open spec fn addressed(cmd: u8, index: u16, subindex: u8) -> Seq<u8> {
    seq![cmd, (index % 256) as u8, (index / 256) as u8, subindex]
}

/// The abort frame for an object.
pub open spec fn abort_frame(index: u16, subindex: u8, code: AbortCode) -> Seq<u8> {
    addressed(0x80, index, subindex) + u32_bytes(code.to_u32())
}

/// The response to an upload of at most 4 bytes.
pub open spec fn expedited_upload_frame(index: u16, subindex: u8, value: Seq<u8>) -> Seq<u8> {
    addressed((0x43 + 4 * (4 - value.len())) as u8, index, subindex) + padded(value, 4)
}

/// The response that announces a segmented upload.
pub open spec fn segmented_upload_frame(index: u16, subindex: u8, total_size: u32) -> Seq<u8> {
    addressed(0x41, index, subindex) + u32_bytes(total_size)
}

/// One segment: toggle bit, number of unused bytes, last flag, then the data.
pub open spec fn segment_frame(toggle: bool, data: Seq<u8>, last: bool) -> Seq<u8> {
    seq![(16 * bit(toggle) + 2 * (7 - data.len()) + bit(last)) as u8] + padded(data, 7)
}

/// The response to a download request.
pub open spec fn download_frame(index: u16, subindex: u8) -> Seq<u8> {
    addressed(0x60, index, subindex) + seq![0u8, 0, 0, 0]
}

/// The response to a download segment.
pub open spec fn download_segment_frame(toggle: bool) -> Seq<u8> {
    seq![(0x20 + 16 * bit(toggle)) as u8, 0, 0, 0, 0, 0, 0, 0]
}

/// Encode an SDO abort frame.
pub fn encode_abort(index: u16, subindex: u8, code: AbortCode) -> (r: [u8; 8])
    ensures
        r@ == abort_frame(index, subindex, code),
{
    let c: [u8; 4] = code.to_le_bytes();
    let r: [u8; 8] = [
        0x80,
        (index % 256) as u8,
        (index / 256) as u8,
        subindex,
        c[0],
        c[1],
        c[2],
        c[3],
    ];
    assert(r@ =~= abort_frame(index, subindex, code));
    r
}

/// Encode an initiate upload response (expedited, at most 4 bytes).
pub fn encode_upload_response_expedited(index: u16, subindex: u8, value: &[u8]) -> (r: Option<
    [u8; 8],
>)
    ensures
        r is Some <==> value@.len() <= 4,
        r matches Some(d) ==> d@ == expedited_upload_frame(index, subindex, value@),
{
    if value.len() > 4 {
        return None;
    }
    let n: u8 = (4 - value.len()) as u8;
    let d: [u8; 8] = [
        0x43 + 4 * n,
        (index % 256) as u8,
        (index / 256) as u8,
        subindex,
        byte_or_zero(value, 0),
        byte_or_zero(value, 1),
        byte_or_zero(value, 2),
        byte_or_zero(value, 3),
    ];
    assert(d@ =~= expedited_upload_frame(index, subindex, value@));
    Some(d)
}

/// Encode an initiate upload response for segmented transfer (size indicated).
pub fn encode_upload_response_segmented(index: u16, subindex: u8, total_size: u32) -> (r: [u8; 8])
    ensures
        r@ == segmented_upload_frame(index, subindex, total_size),
{
    let c: [u8; 4] = u32_to_le(total_size);
    let r: [u8; 8] = [
        0x41,
        (index % 256) as u8,
        (index / 256) as u8,
        subindex,
        c[0],
        c[1],
        c[2],
        c[3],
    ];
    assert(r@ =~= segmented_upload_frame(index, subindex, total_size));
    r
}

/// Encode an upload segment response.
pub fn encode_upload_segment_response(toggle: bool, segment_data: &[u8], last: bool) -> (r: [u8; 8])
    requires
        segment_data@.len() <= 7,
    ensures
        r@ == segment_frame(toggle, segment_data@, last),
{
    let n: u8 = (7 - segment_data.len()) as u8;
    let t: u8 = if toggle {
        16
    } else {
        0
    };
    let l: u8 = if last {
        1
    } else {
        0
    };
    let r: [u8; 8] = [
        t + 2 * n + l,
        byte_or_zero(segment_data, 0),
        byte_or_zero(segment_data, 1),
        byte_or_zero(segment_data, 2),
        byte_or_zero(segment_data, 3),
        byte_or_zero(segment_data, 4),
        byte_or_zero(segment_data, 5),
        byte_or_zero(segment_data, 6),
    ];
    assert(r@ =~= segment_frame(toggle, segment_data@, last));
    r
}

/// Encode an initiate download response.
pub fn encode_download_response(index: u16, subindex: u8) -> (r: [u8; 8])
    ensures
        r@ == download_frame(index, subindex),
{
    let r: [u8; 8] = [0x60, (index % 256) as u8, (index / 256) as u8, subindex, 0, 0, 0, 0];
    assert(r@ =~= download_frame(index, subindex));
    r
}

/// Encode a download segment response.
pub fn encode_download_segment_response(toggle: bool) -> (r: [u8; 8])
    ensures
        r@ == download_segment_frame(toggle),
{
    let t: u8 = if toggle {
        16
    } else {
        0
    };
    let r: [u8; 8] = [0x20 + t, 0, 0, 0, 0, 0, 0, 0];
    assert(r@ =~= download_segment_frame(toggle));
    r
}

/// Parse index and subindex from SDO frame bytes 1-3.
pub fn parse_index_sub(data: &[u8; 8]) -> (r: (u16, u8))
    ensures
        r == (index_of(data@), data@[3]),
{
    (data[1] as u16 + 0x100 * data[2] as u16, data[3])
}

/// A frame addressed to an object carries that object's address.
pub proof fn lemma_addressed_index(cmd: u8, index: u16, subindex: u8, rest: Seq<u8>)
    ensures
        index_of(addressed(cmd, index, subindex) + rest) == index,
        (addressed(cmd, index, subindex) + rest)[3] == subindex,
{
}

} // verus!
