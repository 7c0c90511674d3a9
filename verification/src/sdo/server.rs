//! SDO server: answers the requests of one client, one transfer at a time.

use crate::bytes::{byte_or_zero, le_u32, padded, to_vec, u32_bytes, u32_from_le, u32_to_le};
use crate::nmt::NmtState;
use crate::od::{ObjectDictionary, OdContents, OdError, OdEvent, OdEventSource};
use crate::queue::{push_evicting, BoundedQueue};
use crate::sdo::protocol::{
    abort_frame, addressed, ccs_of, download_frame, download_segment_frame, encode_abort,
    encode_download_response, encode_download_segment_response, encode_upload_response_expedited,
    encode_upload_response_segmented, encode_upload_segment_response, expedited_upload_frame,
    index_of, parse_index_sub, segment_frame, segmented_upload_frame, AbortCode, Ccs,
};
use crate::time::elapsed_us;
use vstd::prelude::*;
use vstd::slice::slice_subrange;

verus! {

/// SDO server timeout for transfers: 5 seconds in microseconds.
pub const SDO_TIMEOUT_US: u64 = 5_000_000;

/// Maximum block size (number of segments per sub-block). CiA 301 max is 127.
pub const MAX_BLKSIZE: u8 = 127;

/// The largest object that can be transferred: 127 segments of 7 bytes.
pub const MAX_TRANSFER: usize = 889;

/// Object with the consumer heartbeat times.
pub const CONSUMER_HEARTBEAT: u16 = 0x1016;

// ---- What a transfer in progress is ----

/// A segmented upload: the object's bytes and how many were sent.
#[verifier::ext_equal]
pub struct UploadModel {
    pub index: u16,
    pub subindex: u8,
    pub data: Seq<u8>,
    pub offset: nat,
    pub toggle: bool,
    pub last_activity: u64,
}

/// A segmented download: the bytes received so far.
#[verifier::ext_equal]
pub struct DownloadModel {
    pub index: u16,
    pub subindex: u8,
    pub received: Seq<u8>,
    pub toggle: bool,
    pub last_activity: u64,
}

/// A block upload. `seqno` is the number of the next segment of the sub-block,
/// or 0 while the server waits for the client.
#[verifier::ext_equal]
pub struct BlockUploadModel {
    pub index: u16,
    pub subindex: u8,
    pub data: Seq<u8>,
    pub offset: nat,
    pub blksize: u8,
    pub seqno: u8,
    pub last_activity: u64,
}

/// A block download. `seqno` is the number of the last segment received in the
/// sub-block. `declared` is the announced size, 0 if none was announced.
#[verifier::ext_equal]
pub struct BlockDownloadModel {
    pub index: u16,
    pub subindex: u8,
    pub received: Seq<u8>,
    pub declared: nat,
    pub seqno: u8,
    pub awaiting_end: bool,
    pub crc_enabled: bool,
    pub last_activity: u64,
}

/// A transfer in progress.
#[verifier::ext_equal]
pub enum TransferModel {
    Upload(UploadModel),
    Download(DownloadModel),
    BlockUpload(BlockUploadModel),
    BlockDownload(BlockDownloadModel),
}

impl TransferModel {
    /// When the client was last heard of, or a segment last sent.
    pub open spec fn last_activity(self) -> u64 {
        match self {
            TransferModel::Upload(t) => t.last_activity,
            TransferModel::Download(t) => t.last_activity,
            TransferModel::BlockUpload(t) => t.last_activity,
            TransferModel::BlockDownload(t) => t.last_activity,
        }
    }

    /// The object that is transferred.
    pub open spec fn address(self) -> (u16, u8) {
        match self {
            TransferModel::Upload(t) => (t.index, t.subindex),
            TransferModel::Download(t) => (t.index, t.subindex),
            TransferModel::BlockUpload(t) => (t.index, t.subindex),
            TransferModel::BlockDownload(t) => (t.index, t.subindex),
        }
    }

    /// What holds of every transfer in progress.
    pub open spec fn valid(self) -> bool {
        match self {
            TransferModel::Upload(t) => t.offset <= t.data.len() <= MAX_TRANSFER,
            TransferModel::Download(t) => t.received.len() <= MAX_TRANSFER,
            TransferModel::BlockUpload(t) => {
                &&& t.offset <= t.data.len() <= MAX_TRANSFER
                &&& t.blksize <= MAX_BLKSIZE
                &&& t.seqno <= MAX_BLKSIZE
            },
            TransferModel::BlockDownload(t) => {
                &&& t.received.len() <= MAX_TRANSFER
                &&& t.declared <= MAX_TRANSFER
                &&& t.seqno <= MAX_BLKSIZE
            },
        }
    }
}

/// The state of an SDO server: the transfer in progress, and the address of
/// the last object written that nobody has asked about yet.
#[verifier::ext_equal]
pub struct ServerModel {
    pub transfer: Option<TransferModel>,
    pub committed: Option<(u16, u8)>,
}

/// What a request does: the server, the dictionary and the event queue after
/// it, and the response, if there is one.
pub struct SdoStep<OD> {
    pub server: ServerModel,
    pub od: OD,
    pub events: Seq<OdEvent>,
    pub response: Option<Seq<u8>>,
}

// ---- CRC ----

/// One step of the division by the polynomial 0x1021.
pub open spec fn crc16_bit(crc: u16) -> u16 {
    if crc & 0x8000 != 0 {
        (crc << 1) ^ 0x1021
    } else {
        crc << 1
    }
}

/// `n` steps of the division by the polynomial 0x1021.
pub open spec fn crc16_bits(crc: u16, n: nat) -> u16
    decreases n,
{
    if n == 0 {
        crc
    } else {
        crc16_bit(crc16_bits(crc, (n - 1) as nat))
    }
}

/// A checksum extended by a byte.
pub open spec fn crc16_byte(crc: u16, byte: u8) -> u16 {
    crc16_bits(crc ^ ((byte as u16) << 8), 8)
}

/// A checksum extended by a sequence of bytes.
pub open spec fn crc16(crc: u16, data: Seq<u8>) -> u16
    decreases data.len(),
{
    if data.len() == 0 {
        crc
    } else {
        crc16_byte(crc16(crc, data.drop_last()), data.last())
    }
}

/// The checksum of a sequence can be computed piece by piece.
pub proof fn lemma_crc16_concat(crc: u16, a: Seq<u8>, b: Seq<u8>)
    ensures
        crc16(crc, a + b) == crc16(crc16(crc, a), b),
    decreases b.len(),
{
    if b.len() == 0 {
        assert(a + b =~= a);
    } else {
        assert((a + b).drop_last() =~= a + b.drop_last());
        lemma_crc16_concat(crc, a, b.drop_last());
    }
}

/// CRC-16/CCITT with initial value 0 (aka CRC-16/XMODEM, polynomial 0x1021)
/// as specified by CiA 301 for block SDO transfers.
pub fn crc16_ccitt_update(crc: u16, data: &[u8]) -> (r: u16)
    ensures
        r == crc16(crc, data@),
{
    let start: u16 = crc;
    let mut crc: u16 = crc;
    let mut i: usize = 0;
    assert(data@.take(0) =~= Seq::<u8>::empty());
    while i < data.len()
        invariant
            i <= data.len(),
            crc == crc16(start, data@.take(i as int)),
        decreases data.len() - i,
    {
        let ghost before = crc;
        crc = crc ^ ((data[i] as u16) << 8);
        let ghost mixed = crc;
        let mut k: u8 = 0;
        while k < 8
            invariant
                k <= 8,
                crc == crc16_bits(mixed, k as nat),
            decreases 8 - k,
        {
            if crc & 0x8000 != 0 {
                crc = (crc << 1) ^ 0x1021;
            } else {
                crc = crc << 1;
            }
            k += 1;
        }
        i += 1;
        assert(data@.take(i as int).drop_last() =~= data@.take(i - 1));
    }
    assert(data@.take(i as int) =~= data@);
    crc
}

// ---- What a request does ----

/// The abort code that reports a dictionary error.
pub open spec fn abort_for(e: OdError) -> AbortCode {
    match e {
        OdError::NotFound => AbortCode::ObjectNotFound,
        OdError::ReadOnly => AbortCode::ReadOnlyObject,
        OdError::WriteOnly => AbortCode::WriteOnlyObject,
        OdError::DataTypeMismatch => AbortCode::DataTypeMismatch,
        OdError::ValueTooLong => AbortCode::OutOfMemory,
        OdError::ValueRange => AbortCode::ValueRangeExceeded,
        OdError::HardwareError => AbortCode::GeneralError,
    }
}

/// PDO communication and mapping parameters (0x1400-0x1BFF).
pub open spec fn pdo_config_index(index: u16) -> bool {
    0x1400 <= index <= 0x1BFF
}

/// The value of a four-byte entry, short entries being filled up with zeros.
pub open spec fn read_u32<OD: OdContents>(od: OD, index: u16, subindex: u8) -> Option<u32> {
    match od.read_result(index, subindex, 4) {
        Ok(bytes) => Some(le_u32(padded(bytes, 4))),
        Err(_) => None,
    }
}

/// The node that a consumer heartbeat entry names (bits 16..24).
pub open spec fn hb_entry_node(raw: u32) -> u8 {
    (raw / 0x1_0000 % 256) as u8
}

/// The time of a consumer heartbeat entry in milliseconds (bits 0..16).
pub open spec fn hb_entry_time(raw: u32) -> u16 {
    (raw % 0x1_0000) as u16
}

/// An entry of the consumer heartbeat object is active and names the node.
pub open spec fn entry_monitors<OD: OdContents>(od: OD, subindex: u8, node: u8) -> bool {
    match read_u32(od, CONSUMER_HEARTBEAT, subindex) {
        Some(raw) => hb_entry_time(raw) != 0 && hb_entry_node(raw) == node,
        None => false,
    }
}

/// Another entry of the consumer heartbeat object monitors the node already.
pub open spec fn monitored_elsewhere<OD: OdContents>(od: OD, subindex: u8, node: u8) -> bool {
    exists|s: u8|
        {
            &&& od.subs_of(CONSUMER_HEARTBEAT) matches Some(count)
            &&& 1 <= s <= count
            &&& s != subindex
            &&& #[trigger] entry_monitors(od, s, node)
        }
}

/// Why a value is not admissible as a consumer heartbeat entry. Bits 24..32
/// are reserved. An active entry (one with a time) names a node from 1 to 127
/// that no other active entry names.
pub open spec fn consumer_heartbeat_fault<OD: OdContents>(
    od: OD,
    index: u16,
    subindex: u8,
    data: Seq<u8>,
) -> Option<AbortCode> {
    if index != CONSUMER_HEARTBEAT || subindex == 0 || data.len() != 4 {
        None
    } else {
        let raw = le_u32(data);
        if raw >= 0x100_0000 {
            Some(AbortCode::ValueRangeExceeded)
        } else if hb_entry_time(raw) == 0 {
            None
        } else if !(1 <= hb_entry_node(raw) <= 127) {
            Some(AbortCode::ValueRangeExceeded)
        } else if monitored_elsewhere(od, subindex, hb_entry_node(raw)) {
            Some(AbortCode::ParameterIncompatibility)
        } else {
            None
        }
    }
}

/// Why a write is refused before the dictionary is asked to perform it.
pub open spec fn write_fault<OD: OdContents>(
    od: OD,
    index: u16,
    subindex: u8,
    data: Seq<u8>,
) -> Option<AbortCode> {
    match consumer_heartbeat_fault(od, index, subindex, data) {
        Some(code) => Some(code),
        None => match od.validate_result(index, subindex, data) {
            Ok(_) => None,
            Err(e) => Some(abort_for(e)),
        },
    }
}

impl ServerModel {
    /// The server with another transfer.
    pub open spec fn with(self, transfer: Option<TransferModel>) -> ServerModel {
        ServerModel { transfer, committed: self.committed }
    }

    /// A step that touches neither dictionary nor events.
    pub open spec fn answer<OD>(
        self,
        od: OD,
        events: Seq<OdEvent>,
        transfer: Option<TransferModel>,
        response: Option<Seq<u8>>,
    ) -> SdoStep<OD> {
        SdoStep { server: self.with(transfer), od, events, response }
    }

    /// A complete value has arrived: it is written, and the end of the
    /// transfer is confirmed with `ok` or aborted. PDO parameters are protected
    /// in the operational state.
    pub open spec fn finish_download<OD: OdContents>(
        self,
        od: OD,
        events: Seq<OdEvent>,
        capacity: nat,
        nmt: NmtState,
        index: u16,
        subindex: u8,
        data: Seq<u8>,
        ok: Seq<u8>,
    ) -> SdoStep<OD> {
        if nmt == NmtState::Operational && pdo_config_index(index) {
            self.answer(
                od,
                events,
                None,
                Some(abort_frame(index, subindex, AbortCode::DataTransferDeviceState)),
            )
        } else {
            match write_fault(od, index, subindex, data) {
                Some(code) => self.answer(od, events, None, Some(abort_frame(index, subindex, code))),
                None => match od.write_result(index, subindex, data) {
                    Ok(_) => SdoStep {
                        server: ServerModel { transfer: None, committed: Some((index, subindex)) },
                        od: od.after_write(index, subindex, data),
                        events: push_evicting(
                            events,
                            capacity,
                            OdEvent { index, subindex, source: OdEventSource::Sdo },
                        ),
                        response: Some(ok),
                    },
                    Err(e) => SdoStep {
                        server: self.with(None),
                        od: od.after_write(index, subindex, data),
                        events,
                        response: Some(abort_frame(index, subindex, abort_for(e))),
                    },
                },
            }
        }
    }

    /// Request to read an object.
    pub open spec fn initiate_upload<OD: OdContents>(
        self,
        od: OD,
        events: Seq<OdEvent>,
        req: Seq<u8>,
        now: u64,
    ) -> SdoStep<OD> {
        let (index, subindex) = (index_of(req), req[3]);
        match od.read_result(index, subindex, MAX_TRANSFER as nat) {
            Err(e) => self.answer(
                od,
                events,
                self.transfer,
                Some(abort_frame(index, subindex, abort_for(e))),
            ),
            Ok(data) => if data.len() <= 4 {
                self.answer(
                    od,
                    events,
                    None,
                    Some(expedited_upload_frame(index, subindex, data)),
                )
            } else {
                self.answer(
                    od,
                    events,
                    Some(
                        TransferModel::Upload(
                            UploadModel {
                                index,
                                subindex,
                                data,
                                offset: 0,
                                toggle: false,
                                last_activity: now,
                            },
                        ),
                    ),
                    Some(segmented_upload_frame(index, subindex, data.len() as u32)),
                )
            },
        }
    }

    /// Request for the next segment of an upload.
    pub open spec fn upload_segment<OD>(
        self,
        od: OD,
        events: Seq<OdEvent>,
        req: Seq<u8>,
        now: u64,
    ) -> SdoStep<OD> {
        match self.transfer {
            Some(TransferModel::Upload(t)) => {
                let toggle = req[0] / 16 % 2 == 1;
                if toggle != t.toggle {
                    self.answer(
                        od,
                        events,
                        None,
                        Some(abort_frame(t.index, t.subindex, AbortCode::ToggleBitNotAlternated)),
                    )
                } else if t.data.len() - t.offset <= 7 {
                    self.answer(
                        od,
                        events,
                        None,
                        Some(segment_frame(t.toggle, t.data.skip(t.offset as int), true)),
                    )
                } else {
                    self.answer(
                        od,
                        events,
                        Some(
                            TransferModel::Upload(
                                UploadModel {
                                    offset: t.offset + 7,
                                    toggle: !t.toggle,
                                    last_activity: now,
                                    ..t
                                },
                            ),
                        ),
                        Some(
                            segment_frame(
                                t.toggle,
                                t.data.subrange(t.offset as int, t.offset as int + 7),
                                false,
                            ),
                        ),
                    )
                }
            },
            _ => self.answer(
                od,
                events,
                self.transfer,
                Some(abort_frame(0, 0, AbortCode::InvalidCommandSpecifier)),
            ),
        }
    }

    /// Request to write an object: with the value in the request itself
    /// (expedited) or in segments.
    pub open spec fn initiate_download<OD: OdContents>(
        self,
        od: OD,
        events: Seq<OdEvent>,
        capacity: nat,
        req: Seq<u8>,
        nmt: NmtState,
        now: u64,
    ) -> SdoStep<OD> {
        let (index, subindex) = (index_of(req), req[3]);
        let expedited = req[0] / 2 % 2 == 1;
        let size_indicated = req[0] % 2 == 1;
        if nmt == NmtState::Operational && pdo_config_index(index) {
            self.answer(
                od,
                events,
                self.transfer,
                Some(abort_frame(index, subindex, AbortCode::DataTransferDeviceState)),
            )
        } else if expedited {
            self.finish_download(
                od,
                events,
                capacity,
                nmt,
                index,
                subindex,
                req.subrange(4, 4 + expedited_len(od, req)),
                download_frame(index, subindex),
            )
        } else if size_indicated && le_u32(req.skip(4)) > MAX_TRANSFER {
            self.answer(
                od,
                events,
                self.transfer,
                Some(abort_frame(index, subindex, AbortCode::OutOfMemory)),
            )
        } else {
            self.answer(
                od,
                events,
                Some(
                    TransferModel::Download(
                        DownloadModel {
                            index,
                            subindex,
                            received: Seq::empty(),
                            toggle: false,
                            last_activity: now,
                        },
                    ),
                ),
                Some(download_frame(index, subindex)),
            )
        }
    }

    /// A segment of a download.
    pub open spec fn download_segment<OD: OdContents>(
        self,
        od: OD,
        events: Seq<OdEvent>,
        capacity: nat,
        req: Seq<u8>,
        nmt: NmtState,
        now: u64,
    ) -> SdoStep<OD> {
        match self.transfer {
            Some(TransferModel::Download(t)) => {
                let toggle = req[0] / 16 % 2 == 1;
                let last = req[0] % 2 == 1;
                let received = t.received + req.subrange(1, 8 - req[0] / 2 % 8);
                if toggle != t.toggle {
                    self.answer(
                        od,
                        events,
                        None,
                        Some(abort_frame(t.index, t.subindex, AbortCode::ToggleBitNotAlternated)),
                    )
                } else if received.len() > MAX_TRANSFER {
                    self.answer(
                        od,
                        events,
                        None,
                        Some(abort_frame(t.index, t.subindex, AbortCode::OutOfMemory)),
                    )
                } else if last {
                    self.finish_download(
                        od,
                        events,
                        capacity,
                        nmt,
                        t.index,
                        t.subindex,
                        received,
                        download_segment_frame(toggle),
                    )
                } else {
                    self.answer(
                        od,
                        events,
                        Some(
                            TransferModel::Download(
                                DownloadModel {
                                    received,
                                    toggle: !t.toggle,
                                    last_activity: now,
                                    ..t
                                },
                            ),
                        ),
                        Some(download_segment_frame(toggle)),
                    )
                }
            },
            _ => self.answer(
                od,
                events,
                self.transfer,
                Some(abort_frame(0, 0, AbortCode::InvalidCommandSpecifier)),
            ),
        }
    }

    /// The client commands of a block upload.
    pub open spec fn block_upload<OD: OdContents>(
        self,
        od: OD,
        events: Seq<OdEvent>,
        req: Seq<u8>,
        now: u64,
    ) -> SdoStep<OD> {
        let (index, subindex) = (index_of(req), req[3]);
        let sub_cmd = req[0] % 4;
        if sub_cmd == 0 {
            match od.read_result(index, subindex, MAX_TRANSFER as nat) {
                Err(e) => self.answer(
                    od,
                    events,
                    self.transfer,
                    Some(abort_frame(index, subindex, abort_for(e))),
                ),
                Ok(data) => self.answer(
                    od,
                    events,
                    Some(
                        TransferModel::BlockUpload(
                            BlockUploadModel {
                                index,
                                subindex,
                                data,
                                offset: 0,
                                blksize: block_size(req[4]),
                                seqno: 0,
                                last_activity: now,
                            },
                        ),
                    ),
                    Some(addressed(0xC6, index, subindex) + u32_bytes(data.len() as u32)),
                ),
            }
        } else if sub_cmd == 1 {
            self.answer(od, events, None, None)
        } else {
            match self.transfer {
                Some(TransferModel::BlockUpload(t)) => if sub_cmd == 3 {
                    if t.seqno == 0 && t.offset == 0 {
                        let t2 = BlockUploadModel { seqno: 1, last_activity: now, ..t };
                        self.answer(od, events, Some(TransferModel::BlockUpload(t2)), None)
                    } else {
                        self.answer(
                            od,
                            events,
                            self.transfer,
                            Some(abort_frame(0, 0, AbortCode::InvalidCommandSpecifier)),
                        )
                    }
                } else if t.seqno != 0 {
                    self.answer(od, events, self.transfer, None)
                } else if t.offset >= t.data.len() {
                    self.answer(od, events, None, Some(end_upload_frame(t.data)))
                } else {
                    let t2 = BlockUploadModel {
                        seqno: 1,
                        blksize: block_size(req[2]),
                        last_activity: now,
                        ..t
                    };
                    self.answer(od, events, Some(TransferModel::BlockUpload(t2)), None)
                },
                _ => self.answer(
                    od,
                    events,
                    self.transfer,
                    Some(abort_frame(0, 0, AbortCode::InvalidCommandSpecifier)),
                ),
            }
        }
    }

    /// The start and the end of a block download.
    pub open spec fn block_download<OD: OdContents>(
        self,
        od: OD,
        events: Seq<OdEvent>,
        capacity: nat,
        req: Seq<u8>,
        nmt: NmtState,
        now: u64,
    ) -> SdoStep<OD> {
        if req[0] % 2 == 0 {
            let (index, subindex) = (index_of(req), req[3]);
            let declared: nat = if req[0] / 2 % 2 == 1 {
                le_u32(req.skip(4)) as nat
            } else {
                0
            };
            if nmt == NmtState::Operational && pdo_config_index(index) {
                self.answer(
                    od,
                    events,
                    self.transfer,
                    Some(abort_frame(index, subindex, AbortCode::DataTransferDeviceState)),
                )
            } else if declared > MAX_TRANSFER {
                self.answer(
                    od,
                    events,
                    self.transfer,
                    Some(abort_frame(index, subindex, AbortCode::OutOfMemory)),
                )
            } else {
                self.answer(
                    od,
                    events,
                    Some(
                        TransferModel::BlockDownload(
                            BlockDownloadModel {
                                index,
                                subindex,
                                received: Seq::empty(),
                                declared,
                                seqno: 0,
                                awaiting_end: false,
                                crc_enabled: req[0] / 4 % 2 == 1,
                                last_activity: now,
                            },
                        ),
                    ),
                    Some(addressed(0xA4, index, subindex) + seq![MAX_BLKSIZE, 0, 0, 0]),
                )
            }
        } else {
            match self.transfer {
                Some(TransferModel::BlockDownload(t)) => {
                    let unused = req[0] / 4 % 8;
                    let data = t.received.take(t.received.len() - unused);
                    if unused > 6 || t.received.len() < unused || (t.declared != 0 && data.len()
                        != t.declared) {
                        self.answer(
                            od,
                            events,
                            None,
                            Some(abort_frame(t.index, t.subindex, AbortCode::DataTransferError)),
                        )
                    } else if t.crc_enabled && crc16(0, data) != req[1] + 0x100 * req[2] {
                        self.answer(
                            od,
                            events,
                            None,
                            Some(abort_frame(t.index, t.subindex, AbortCode::CrcError)),
                        )
                    } else {
                        self.finish_download(
                            od,
                            events,
                            capacity,
                            nmt,
                            t.index,
                            t.subindex,
                            data,
                            seq![0xA1u8, 0, 0, 0, 0, 0, 0, 0],
                        )
                    }
                },
                _ => self.answer(
                    od,
                    events,
                    self.transfer,
                    Some(abort_frame(0, 0, AbortCode::InvalidCommandSpecifier)),
                ),
            }
        }
    }

    /// A segment of a block download. Segments are numbered from 1 in each
    /// sub-block; the last one of a sub-block, or of the object, is confirmed.
    pub open spec fn block_segment(self, t: BlockDownloadModel, req: Seq<u8>, now: u64) -> (
        ServerModel,
        Option<Seq<u8>>,
    ) {
        let seqno = (req[0] % 128) as u8;
        let last = req[0] >= 128;
        let space = MAX_TRANSFER - t.received.len();
        let taken = if space < 7 {
            space
        } else {
            7
        };
        let t2 = BlockDownloadModel {
            received: t.received + req.subrange(1, 1 + taken),
            seqno: if seqno >= MAX_BLKSIZE && !last {
                0
            } else {
                seqno
            },
            awaiting_end: last,
            last_activity: now,
            ..t
        };
        if seqno == 0 || seqno != t.seqno + 1 {
            (
                self.with(None),
                Some(abort_frame(t.index, t.subindex, AbortCode::InvalidSequenceNumber)),
            )
        } else if !last && space < 7 {
            (self.with(None), Some(abort_frame(t.index, t.subindex, AbortCode::OutOfMemory)))
        } else if last || seqno >= MAX_BLKSIZE {
            (
                self.with(Some(TransferModel::BlockDownload(t2))),
                Some(seq![0xA2u8, seqno, MAX_BLKSIZE, 0, 0, 0, 0, 0]),
            )
        } else {
            (self.with(Some(TransferModel::BlockDownload(t2))), None)
        }
    }

    /// What a request does.
    pub open spec fn step<OD: OdContents>(
        self,
        od: OD,
        events: Seq<OdEvent>,
        capacity: nat,
        req: Seq<u8>,
        nmt: NmtState,
        now: u64,
    ) -> SdoStep<OD> {
        match self.transfer {
            Some(TransferModel::BlockDownload(t)) if !t.awaiting_end && req[0] != 0x80 => {
                let (server, response) = self.block_segment(t, req, now);
                SdoStep { server, od, events, response }
            },
            _ => match ccs_of(req[0]) {
                Some(Ccs::InitiateUpload) => self.initiate_upload(od, events, req, now),
                Some(Ccs::UploadSegment) => self.upload_segment(od, events, req, now),
                Some(Ccs::InitiateDownload) => self.initiate_download(
                    od,
                    events,
                    capacity,
                    req,
                    nmt,
                    now,
                ),
                Some(Ccs::DownloadSegment) => self.download_segment(
                    od,
                    events,
                    capacity,
                    req,
                    nmt,
                    now,
                ),
                Some(Ccs::BlockUpload) => self.block_upload(od, events, req, now),
                Some(Ccs::BlockDownload) => self.block_download(
                    od,
                    events,
                    capacity,
                    req,
                    nmt,
                    now,
                ),
                Some(Ccs::AbortTransfer) => self.answer(od, events, None, None),
                None => self.answer(
                    od,
                    events,
                    self.transfer,
                    Some(abort_frame(index_of(req), req[3], AbortCode::InvalidCommandSpecifier)),
                ),
            },
        }
    }

    /// The next segment of a block upload, if one is due, and the server after
    /// sending it.
    pub open spec fn poll(self, now: u64) -> (ServerModel, Option<Seq<u8>>) {
        match self.transfer {
            Some(TransferModel::BlockUpload(t)) if t.seqno != 0 => {
                let last = t.data.len() - t.offset <= 7;
                let end = if last {
                    t.data.len()
                } else {
                    t.offset + 7
                };
                let t2 = BlockUploadModel {
                    offset: end,
                    seqno: if t.seqno >= t.blksize || last {
                        0
                    } else {
                        (t.seqno + 1) as u8
                    },
                    last_activity: now,
                    ..t
                };
                (
                    self.with(Some(TransferModel::BlockUpload(t2))),
                    Some(
                        seq![
                            if last {
                                (0x80 + t.seqno) as u8
                            } else {
                                t.seqno
                            },
                        ] + padded(t.data.subrange(t.offset as int, end as int), 7),
                    ),
                )
            },
            _ => (self, None),
        }
    }

    /// All segments of a block upload that are due, and the server after
    /// sending them.
    pub open spec fn drain(self, now: u64) -> (ServerModel, Seq<Seq<u8>>)
        decreases self.due_segments(),
    {
        match self.poll(now) {
            (next, Some(segment)) => {
                let (end, more) = next.drain(now);
                (end, seq![segment] + more)
            },
            (next, None) => (next, Seq::empty()),
        }
    }

    /// A bound on the number of segments that are due.
    pub open spec fn due_segments(self) -> nat {
        match self.transfer {
            Some(TransferModel::BlockUpload(t)) if t.seqno != 0 => (256 - t.seqno) as nat,
            _ => 0,
        }
    }

    /// The abort of a transfer that has been silent for too long, and the
    /// server after it.
    pub open spec fn timeout(self, now: u64) -> (ServerModel, Option<Seq<u8>>) {
        match self.transfer {
            Some(t) if elapsed_us(now, t.last_activity()) >= SDO_TIMEOUT_US => (
                self.with(None),
                Some(abort_frame(t.address().0, t.address().1, AbortCode::SdoProtocolTimeout)),
            ),
            _ => (self, None),
        }
    }
}

/// A sub-block is at most 127 segments long.
pub open spec fn block_size(requested: u8) -> u8 {
    if requested < MAX_BLKSIZE {
        requested
    } else {
        MAX_BLKSIZE
    }
}

/// The end of a block upload: the unused bytes of the last segment, and the
/// checksum of the object.
pub open spec fn end_upload_frame(data: Seq<u8>) -> Seq<u8> {
    let unused = if data.len() % 7 == 0 {
        0
    } else {
        7 - data.len() % 7
    };
    let crc = crc16(0, data);
    seq![(0xC1 + 4 * unused) as u8, (crc % 256) as u8, (crc / 256) as u8, 0, 0, 0, 0, 0]
}

/// The number of bytes that an expedited download carries: as indicated, else
/// the object's size, else all four.
pub open spec fn expedited_len<OD: OdContents>(od: OD, req: Seq<u8>) -> int {
    if req[0] % 2 == 1 {
        4 - req[0] / 4 % 4
    } else {
        match od.type_of(index_of(req), req[3]) {
            Some(t) => match t.spec_size() {
                Some(n) => if n < 4 {
                    n as int
                } else {
                    4
                },
                None => 4,
            },
            None => 4,
        }
    }
}

// ---- The server ----

/// A segmented upload in progress.
pub struct UploadTransfer {
    index: u16,
    subindex: u8,
    toggle: bool,
    data: Vec<u8>,
    offset: usize,
    last_activity_us: u64,
}

/// A segmented download in progress.
pub struct DownloadTransfer {
    index: u16,
    subindex: u8,
    toggle: bool,
    received: Vec<u8>,
    last_activity_us: u64,
}

/// A block upload in progress (server sending blocks to client).
pub struct BlockUploadState {
    index: u16,
    subindex: u8,
    data: Vec<u8>,
    offset: usize,
    blksize: u8,
    seqno: u8,
    crc: u16,
    last_activity_us: u64,
}

/// A block download in progress (server receiving blocks from client).
pub struct BlockDownloadState {
    index: u16,
    subindex: u8,
    received: Vec<u8>,
    declared: usize,
    seqno: u8,
    /// Set after the final segment (bit 7) is acknowledged; the next frame
    /// is expected to be the End Block Download request, not a segment.
    awaiting_end: bool,
    /// Client requested CRC verification in the initiate frame.
    crc_enabled: bool,
    last_activity_us: u64,
}

/// A transfer in progress.
pub enum TransferState {
    Upload(UploadTransfer),
    Download(DownloadTransfer),
    BlockUpload(BlockUploadState),
    BlockDownload(BlockDownloadState),
}

impl View for TransferState {
    type V = TransferModel;

    closed spec fn view(&self) -> TransferModel {
        match self {
            TransferState::Upload(t) => TransferModel::Upload(
                UploadModel {
                    index: t.index,
                    subindex: t.subindex,
                    data: t.data@,
                    offset: t.offset as nat,
                    toggle: t.toggle,
                    last_activity: t.last_activity_us,
                },
            ),
            TransferState::Download(t) => TransferModel::Download(
                DownloadModel {
                    index: t.index,
                    subindex: t.subindex,
                    received: t.received@,
                    toggle: t.toggle,
                    last_activity: t.last_activity_us,
                },
            ),
            TransferState::BlockUpload(t) => TransferModel::BlockUpload(
                BlockUploadModel {
                    index: t.index,
                    subindex: t.subindex,
                    data: t.data@,
                    offset: t.offset as nat,
                    blksize: t.blksize,
                    seqno: t.seqno,
                    last_activity: t.last_activity_us,
                },
            ),
            TransferState::BlockDownload(t) => TransferModel::BlockDownload(
                BlockDownloadModel {
                    index: t.index,
                    subindex: t.subindex,
                    received: t.received@,
                    declared: t.declared as nat,
                    seqno: t.seqno,
                    awaiting_end: t.awaiting_end,
                    crc_enabled: t.crc_enabled,
                    last_activity: t.last_activity_us,
                },
            ),
        }
    }
}

impl TransferState {
    /// The running checksum of a block upload covers what was sent.
    spec fn crc_current(self) -> bool {
        self matches TransferState::BlockUpload(t) ==> t.crc == crc16(
            0,
            t.data@.take(t.offset as int),
        )
    }

    fn last_activity_us(&self) -> (r: u64)
        ensures
            r == self@.last_activity(),
    {
        match self {
            TransferState::Upload(t) => t.last_activity_us,
            TransferState::Download(t) => t.last_activity_us,
            TransferState::BlockUpload(t) => t.last_activity_us,
            TransferState::BlockDownload(t) => t.last_activity_us,
        }
    }

    fn index_sub(&self) -> (r: (u16, u8))
        ensures
            r == self@.address(),
    {
        match self {
            TransferState::Upload(t) => (t.index, t.subindex),
            TransferState::Download(t) => (t.index, t.subindex),
            TransferState::BlockUpload(t) => (t.index, t.subindex),
            TransferState::BlockDownload(t) => (t.index, t.subindex),
        }
    }
}

/// SDO server state machine. Handles one transfer at a time.
pub struct SdoServer {
    transfer: Option<TransferState>,
    committed: Option<(u16, u8)>,
}

impl View for SdoServer {
    type V = ServerModel;

    closed spec fn view(&self) -> ServerModel {
        ServerModel {
            transfer: match self.transfer {
                Some(t) => Some(t@),
                None => None,
            },
            committed: self.committed,
        }
    }
}

impl SdoServer {
    #[verifier::type_invariant]
    spec fn inv(self) -> bool {
        self.transfer matches Some(t) ==> t@.valid() && t.crc_current()
    }

    pub fn new() -> (r: Self)
        ensures
            r@ == (ServerModel { transfer: None, committed: None }),
    {
        SdoServer { transfer: None, committed: None }
    }

    /// Take the transfer in progress out of the server.
    fn take_transfer(&mut self) -> (r: Option<TransferState>)
        ensures
            final(self)@ == old(self)@.with(None),
            r matches Some(t) ==> t@.valid() && t.crc_current() && old(self)@.transfer == Some(t@),
            r is None ==> old(self)@.transfer is None,
    {
        proof {
            use_type_invariant(&*self);
        }
        let mut t: Option<TransferState> = None;
        std::mem::swap(&mut t, &mut self.transfer);
        t
    }

    /// Abort any in-progress transfer (e.g. on NMT reset).
    pub fn abort_transfer(&mut self)
        ensures
            final(self)@ == old(self)@.with(None),
    {
        self.transfer = None;
    }

    /// The object that was written last and not yet asked about.
    pub fn take_committed_write(&mut self) -> (r: Option<(u16, u8)>)
        ensures
            r == old(self)@.committed,
            final(self)@ == (ServerModel { committed: None, ..old(self)@ }),
    {
        proof {
            use_type_invariant(&*self);
        }
        let r = self.committed;
        self.committed = None;
        r
    }

    /// Check for timed-out transfers. Call periodically.
    /// Returns an abort frame to send if a timeout occurred, or None.
    pub fn check_timeout(&mut self, now_us: u64) -> (r: Option<[u8; 8]>)
        ensures
            final(self)@ == old(self)@.timeout(now_us).0,
            match r {
                Some(d) => old(self)@.timeout(now_us).1 == Some(d@),
                None => old(self)@.timeout(now_us).1 is None,
            },
    {
        let timed_out: bool = match &self.transfer {
            Some(t) => now_us.wrapping_sub(t.last_activity_us()) >= SDO_TIMEOUT_US,
            None => false,
        };
        if timed_out {
            let t = self.take_transfer().unwrap();
            let (idx, sub) = t.index_sub();
            Some(encode_abort(idx, sub, AbortCode::SdoProtocolTimeout))
        } else {
            None
        }
    }

    /// Poll for the next block upload segment to send. Call repeatedly
    /// until it returns None. Each call returns one CAN frame.
    pub fn poll_block_upload(&mut self, now_us: u64) -> (r: Option<[u8; 8]>)
        ensures
            final(self)@ == old(self)@.poll(now_us).0,
            match r {
                Some(d) => old(self)@.poll(now_us).1 == Some(d@),
                None => old(self)@.poll(now_us).1 is None,
            },
            old(self)@.transfer matches Some(t) ==> t.valid(),
    {
        proof {
            use_type_invariant(&*self);
        }
        match self.take_transfer() {
            Some(TransferState::BlockUpload(state)) => {
                let mut state = state;
                if state.seqno == 0 {
                    // Waiting for the client's start or acknowledgement.
                    self.transfer = Some(TransferState::BlockUpload(state));
                    return None;
                }
                let remaining: usize = state.data.len() - state.offset;
                let last: bool = remaining <= 7;
                let seg_len: usize = if last {
                    remaining
                } else {
                    7
                };
                let end: usize = state.offset + seg_len;
                let seg = slice_subrange(state.data.as_slice(), state.offset, end);
                let cmd: u8 = if last {
                    0x80 + state.seqno
                } else {
                    state.seqno
                };
                let frame: [u8; 8] = [
                    cmd,
                    byte_or_zero(seg, 0),
                    byte_or_zero(seg, 1),
                    byte_or_zero(seg, 2),
                    byte_or_zero(seg, 3),
                    byte_or_zero(seg, 4),
                    byte_or_zero(seg, 5),
                    byte_or_zero(seg, 6),
                ];
                assert(frame@ =~= seq![cmd] + padded(seg@, 7));
                proof {
                    let sent = state.data@.take(state.offset as int);
                    lemma_crc16_concat(0, sent, seg@);
                    assert(sent + seg@ =~= state.data@.take(end as int));
                }
                state.crc = crc16_ccitt_update(state.crc, seg);
                state.offset = end;
                state.last_activity_us = now_us;
                if state.seqno >= state.blksize || last {
                    state.seqno = 0;  // wait for the acknowledgement
                } else {
                    state.seqno = state.seqno + 1;
                }
                self.transfer = Some(TransferState::BlockUpload(state));
                Some(frame)
            },
            other => {
                self.transfer = other;
                None
            },
        }
    }

    /// Process an incoming SDO request frame and produce a response.
    ///
    /// `nmt_state` is used to enforce PDO config protection: writes to
    /// PDO communication/mapping parameters (0x1400-0x1BFF) are rejected
    /// when the node is in Operational state (per CiA 301).
    ///
    /// Returns `Ok(())` if a response was written to `response`.
    /// Returns `Err(())` if no response should be sent.
    pub fn process<OD: ObjectDictionary, const EVT_QUEUE: usize>(
        &mut self,
        request: &[u8; 8],
        od: &mut OD,
        response: &mut [u8; 8],
        events: &mut BoundedQueue<OdEvent, EVT_QUEUE>,
        nmt_state: NmtState,
        now_us: u64,
    ) -> (r: Result<(), ()>)
        ensures
            ({
                let st = old(self)@.step(
                    old(od).contents(),
                    old(events)@,
                    EVT_QUEUE as nat,
                    request@,
                    nmt_state,
                    now_us,
                );
                &&& final(self)@ == st.server
                &&& final(od).contents() == st.od
                &&& final(events)@ == st.events
                &&& replied(st.response, old(response)@, final(response)@, r)
            }),
    {
        // While receiving block download sub-blocks, byte 0 carries a sequence
        // number (1..=127, bit 7 set on the final segment), so it aliases every
        // command specifier. Per CiA 301 the only non-segment frame in this
        // phase is a client abort, which is exactly 0x80. Once the final
        // segment has been acknowledged, normal dispatch resumes.
        let segment: bool = match &self.transfer {
            Some(TransferState::BlockDownload(t)) => !t.awaiting_end && request[0] != 0x80,
            _ => false,
        };
        if segment {
            return self.handle_block_download_segment(request, response, now_us);
        }
        match Ccs::from_byte0(request[0]) {
            Some(Ccs::InitiateUpload) => self.handle_initiate_upload(
                request,
                &*od,
                response,
                now_us,
            ),
            Some(Ccs::UploadSegment) => self.handle_upload_segment(request, response, now_us),
            Some(Ccs::InitiateDownload) => self.handle_initiate_download(
                request,
                od,
                response,
                events,
                nmt_state,
                now_us,
            ),
            Some(Ccs::DownloadSegment) => self.handle_download_segment(
                request,
                od,
                response,
                events,
                nmt_state,
                now_us,
            ),
            Some(Ccs::BlockUpload) => self.handle_block_upload(request, &*od, response, now_us),
            Some(Ccs::BlockDownload) => self.handle_block_download(
                request,
                od,
                response,
                events,
                nmt_state,
                now_us,
            ),
            Some(Ccs::AbortTransfer) => {
                self.transfer = None;
                Err(())  // no response for abort from client
            },
            None => {
                let (index, subindex) = parse_index_sub(request);
                *response = encode_abort(index, subindex, AbortCode::InvalidCommandSpecifier);
                Ok(())
            },
        }
    }

    // ---- Segmented transfer handlers ----

    fn handle_initiate_upload<OD: ObjectDictionary>(
        &mut self,
        request: &[u8; 8],
        od: &OD,
        response: &mut [u8; 8],
        now_us: u64,
    ) -> (r: Result<(), ()>)
        ensures
            ({
                let st = old(self)@.initiate_upload(od.contents(), Seq::empty(), request@, now_us);
                &&& final(self)@ == st.server
                &&& replied(st.response, old(response)@, final(response)@, r)
            }),
    {
        proof {
            use_type_invariant(&*self);
        }
        let (index, subindex) = parse_index_sub(request);
        let mut buf: [u8; 889] = [0u8; 889];
        let len: usize = match od.read(index, subindex, &mut buf) {
            Ok(n) => n,
            Err(e) => {
                *response = encode_abort(index, subindex, od_error_to_abort(e));
                return Ok(());
            },
        };
        let data = slice_subrange(buf.as_slice(), 0, len);
        assert(data@ =~= buf@.take(len as int));
        if len <= 4 {
            *response = encode_upload_response_expedited(index, subindex, data).unwrap();
            self.transfer = None;
        } else {
            *response = encode_upload_response_segmented(index, subindex, len as u32);
            self.transfer = Some(
                TransferState::Upload(
                    UploadTransfer {
                        index,
                        subindex,
                        toggle: false,
                        data: to_vec(data),
                        offset: 0,
                        last_activity_us: now_us,
                    },
                ),
            );
        }
        Ok(())
    }

    fn handle_upload_segment(
        &mut self,
        request: &[u8; 8],
        response: &mut [u8; 8],
        now_us: u64,
    ) -> (r: Result<(), ()>)
        ensures
            ({
                let st = old(self)@.upload_segment((), Seq::empty(), request@, now_us);
                &&& final(self)@ == st.server
                &&& replied(st.response, old(response)@, final(response)@, r)
            }),
    {
        proof {
            use_type_invariant(&*self);
        }
        match self.take_transfer() {
            Some(TransferState::Upload(t)) => {
                let mut t = t;
                let client_toggle: bool = request[0] / 16 % 2 == 1;
                if client_toggle != t.toggle {
                    *response =
                    encode_abort(t.index, t.subindex, AbortCode::ToggleBitNotAlternated);
                    return Ok(());
                }
                let remaining: usize = t.data.len() - t.offset;
                let last: bool = remaining <= 7;
                let seg_len: usize = if last {
                    remaining
                } else {
                    7
                };
                let seg = slice_subrange(t.data.as_slice(), t.offset, t.offset + seg_len);
                assert(last ==> seg@ =~= t.data@.skip(t.offset as int));
                *response = encode_upload_segment_response(t.toggle, seg, last);
                if !last {
                    t.offset = t.offset + 7;
                    t.toggle = !t.toggle;
                    t.last_activity_us = now_us;
                    self.transfer = Some(TransferState::Upload(t));
                }
                Ok(())
            },
            other => {
                self.transfer = other;
                *response = encode_abort(0, 0, AbortCode::InvalidCommandSpecifier);
                Ok(())
            },
        }
    }

    /// Write a completely received value and answer with `ok` or an abort.
    fn commit_write<OD: ObjectDictionary, const EVT_QUEUE: usize>(
        &mut self,
        od: &mut OD,
        response: &mut [u8; 8],
        events: &mut BoundedQueue<OdEvent, EVT_QUEUE>,
        nmt_state: NmtState,
        index: u16,
        subindex: u8,
        data: &[u8],
        ok: [u8; 8],
    )
        ensures
            ({
                let st = old(self)@.finish_download(
                    old(od).contents(),
                    old(events)@,
                    EVT_QUEUE as nat,
                    nmt_state,
                    index,
                    subindex,
                    data@,
                    ok@,
                );
                &&& final(self)@ == st.server
                &&& final(od).contents() == st.od
                &&& final(events)@ == st.events
                &&& st.response == Some(final(response)@)
            }),
    {
        self.transfer = None;
        if nmt_state == NmtState::Operational && is_pdo_config_index(index) {
            *response = encode_abort(index, subindex, AbortCode::DataTransferDeviceState);
            return;
        }
        if let Some(code) = consumer_heartbeat_check(&*od, index, subindex, data) {
            *response = encode_abort(index, subindex, code);
            return;
        }
        if let Err(e) = od.validate_write(index, subindex, data) {
            *response = encode_abort(index, subindex, od_error_to_abort(e));
            return;
        }
        match od.write(index, subindex, data) {
            Ok(()) => {
                *response = ok;
                let _ = events.push_evicting(
                    OdEvent { index, subindex, source: OdEventSource::Sdo },
                );
                self.committed = Some((index, subindex));
            },
            Err(e) => {
                *response = encode_abort(index, subindex, od_error_to_abort(e));
            },
        }
    }

    fn handle_initiate_download<OD: ObjectDictionary, const EVT_QUEUE: usize>(
        &mut self,
        request: &[u8; 8],
        od: &mut OD,
        response: &mut [u8; 8],
        events: &mut BoundedQueue<OdEvent, EVT_QUEUE>,
        nmt_state: NmtState,
        now_us: u64,
    ) -> (r: Result<(), ()>)
        ensures
            ({
                let st = old(self)@.initiate_download(
                    old(od).contents(),
                    old(events)@,
                    EVT_QUEUE as nat,
                    request@,
                    nmt_state,
                    now_us,
                );
                &&& final(self)@ == st.server
                &&& final(od).contents() == st.od
                &&& final(events)@ == st.events
                &&& replied(st.response, old(response)@, final(response)@, r)
            }),
    {
        let (index, subindex) = parse_index_sub(request);
        if nmt_state == NmtState::Operational && is_pdo_config_index(index) {
            *response = encode_abort(index, subindex, AbortCode::DataTransferDeviceState);
            return Ok(());
        }
        let expedited: bool = request[0] / 2 % 2 == 1;
        let size_indicated: bool = request[0] % 2 == 1;
        if expedited {
            let data_len: usize = if size_indicated {
                4 - (request[0] / 4 % 4) as usize
            } else {
                // Size not indicated: per CiA 301 the server uses the object's
                // known length; without it, all 4 data bytes are taken.
                match od.lookup(index, subindex) {
                    Some(meta) => match meta.data_type.size() {
                        Some(n) => if n < 4 {
                            n
                        } else {
                            4
                        },
                        None => 4,
                    },
                    None => 4,
                }
            };
            let data = slice_subrange(request.as_slice(), 4, 4 + data_len);
            self.commit_write(
                od,
                response,
                events,
                nmt_state,
                index,
                subindex,
                data,
                encode_download_response(index, subindex),
            );
        } else {
            let total_len: u32 = if size_indicated {
                let tail = slice_subrange(request.as_slice(), 4, 8);
                assert(tail@ =~= request@.skip(4));
                u32_from_le(tail)
            } else {
                0
            };
            if total_len > 889 {
                *response = encode_abort(index, subindex, AbortCode::OutOfMemory);
                return Ok(());
            }
            self.transfer = Some(
                TransferState::Download(
                    DownloadTransfer {
                        index,
                        subindex,
                        toggle: false,
                        received: Vec::new(),
                        last_activity_us: now_us,
                    },
                ),
            );
            *response = encode_download_response(index, subindex);
        }
        Ok(())
    }

    fn handle_download_segment<OD: ObjectDictionary, const EVT_QUEUE: usize>(
        &mut self,
        request: &[u8; 8],
        od: &mut OD,
        response: &mut [u8; 8],
        events: &mut BoundedQueue<OdEvent, EVT_QUEUE>,
        nmt_state: NmtState,
        now_us: u64,
    ) -> (r: Result<(), ()>)
        ensures
            ({
                let st = old(self)@.download_segment(
                    old(od).contents(),
                    old(events)@,
                    EVT_QUEUE as nat,
                    request@,
                    nmt_state,
                    now_us,
                );
                &&& final(self)@ == st.server
                &&& final(od).contents() == st.od
                &&& final(events)@ == st.events
                &&& replied(st.response, old(response)@, final(response)@, r)
            }),
    {
        proof {
            use_type_invariant(&*self);
        }
        match self.take_transfer() {
            Some(TransferState::Download(t)) => {
                let mut t = t;
                let client_toggle: bool = request[0] / 16 % 2 == 1;
                if client_toggle != t.toggle {
                    *response =
                    encode_abort(t.index, t.subindex, AbortCode::ToggleBitNotAlternated);
                    return Ok(());
                }
                let last: bool = request[0] % 2 == 1;
                let seg_len: usize = 7 - (request[0] / 2 % 8) as usize;
                if t.received.len() + seg_len > 889 {
                    *response = encode_abort(t.index, t.subindex, AbortCode::OutOfMemory);
                    return Ok(());
                }
                append_bytes(&mut t.received, request, seg_len);
                if last {
                    self.commit_write(
                        od,
                        response,
                        events,
                        nmt_state,
                        t.index,
                        t.subindex,
                        t.received.as_slice(),
                        encode_download_segment_response(client_toggle),
                    );
                } else {
                    *response = encode_download_segment_response(client_toggle);
                    t.toggle = !t.toggle;
                    t.last_activity_us = now_us;
                    self.transfer = Some(TransferState::Download(t));
                }
                Ok(())
            },
            other => {
                self.transfer = other;
                *response = encode_abort(0, 0, AbortCode::InvalidCommandSpecifier);
                Ok(())
            },
        }
    }

    // ---- Block transfer handlers ----

    fn handle_block_upload<OD: ObjectDictionary>(
        &mut self,
        request: &[u8; 8],
        od: &OD,
        response: &mut [u8; 8],
        now_us: u64,
    ) -> (r: Result<(), ()>)
        ensures
            ({
                let st = old(self)@.block_upload(od.contents(), Seq::empty(), request@, now_us);
                &&& final(self)@ == st.server
                &&& replied(st.response, old(response)@, final(response)@, r)
            }),
    {
        proof {
            use_type_invariant(&*self);
        }
        let sub_cmd: u8 = request[0] % 4;
        if sub_cmd == 0 {
            // Initiate block upload
            let (index, subindex) = parse_index_sub(request);
            let mut buf: [u8; 889] = [0u8; 889];
            let len: usize = match od.read(index, subindex, &mut buf) {
                Ok(n) => n,
                Err(e) => {
                    *response = encode_abort(index, subindex, od_error_to_abort(e));
                    return Ok(());
                },
            };
            let data = slice_subrange(buf.as_slice(), 0, len);
            assert(data@ =~= buf@.take(len as int));
            let size: [u8; 4] = u32_to_le(len as u32);
            *response =
            [
                0xC6,
                (index % 256) as u8,
                (index / 256) as u8,
                subindex,
                size[0],
                size[1],
                size[2],
                size[3],
            ];
            assert(response@ =~= addressed(0xC6, index, subindex) + u32_bytes(len as u32));
            assert(data@.take(0) =~= Seq::<u8>::empty());
            self.transfer = Some(
                TransferState::BlockUpload(
                    BlockUploadState {
                        index,
                        subindex,
                        data: to_vec(data),
                        offset: 0,
                        blksize: limit_block_size(request[4]),
                        seqno: 0,
                        crc: 0,
                        last_activity_us: now_us,
                    },
                ),
            );
            return Ok(());
        }
        if sub_cmd == 1 {
            // End block upload confirmation from client
            self.transfer = None;
            return Err(());
        }
        match self.take_transfer() {
            Some(TransferState::BlockUpload(state)) => {
                let mut state = state;
                if sub_cmd == 3 {
                    // Start block upload
                    if state.seqno == 0 && state.offset == 0 {
                        state.seqno = 1;
                        state.last_activity_us = now_us;
                        self.transfer = Some(TransferState::BlockUpload(state));
                        Err(())  // poll_block_upload sends segments
                    } else {
                        self.transfer = Some(TransferState::BlockUpload(state));
                        *response = encode_abort(0, 0, AbortCode::InvalidCommandSpecifier);
                        Ok(())
                    }
                } else if state.seqno != 0 {
                    self.transfer = Some(TransferState::BlockUpload(state));
                    Err(())  // mid sub-block: ignore
                } else if state.offset >= state.data.len() {
                    // All data sent: end block upload
                    let rem: usize = state.data.len() % 7;
                    let n_unused: u8 = if rem == 0 {
                        0
                    } else {
                        (7 - rem) as u8
                    };
                    let crc: u16 = state.crc;
                    assert(state.data@.take(state.offset as int) =~= state.data@);
                    *response =
                    [0xC1 + 4 * n_unused, (crc % 256) as u8, (crc / 256) as u8, 0, 0, 0, 0, 0];
                    assert(response@ =~= end_upload_frame(state.data@));
                    Ok(())
                } else {
                    // More data to send: start next sub-block
                    state.blksize = limit_block_size(request[2]);
                    state.last_activity_us = now_us;
                    state.seqno = 1;
                    self.transfer = Some(TransferState::BlockUpload(state));
                    Err(())  // poll_block_upload sends segments
                }
            },
            other => {
                self.transfer = other;
                *response = encode_abort(0, 0, AbortCode::InvalidCommandSpecifier);
                Ok(())
            },
        }
    }

    fn handle_block_download<OD: ObjectDictionary, const EVT_QUEUE: usize>(
        &mut self,
        request: &[u8; 8],
        od: &mut OD,
        response: &mut [u8; 8],
        events: &mut BoundedQueue<OdEvent, EVT_QUEUE>,
        nmt_state: NmtState,
        now_us: u64,
    ) -> (r: Result<(), ()>)
        ensures
            ({
                let st = old(self)@.block_download(
                    old(od).contents(),
                    old(events)@,
                    EVT_QUEUE as nat,
                    request@,
                    nmt_state,
                    now_us,
                );
                &&& final(self)@ == st.server
                &&& final(od).contents() == st.od
                &&& final(events)@ == st.events
                &&& replied(st.response, old(response)@, final(response)@, r)
            }),
    {
        proof {
            use_type_invariant(&*self);
        }
        if request[0] % 2 == 0 {
            // Initiate block download
            let (index, subindex) = parse_index_sub(request);
            if nmt_state == NmtState::Operational && is_pdo_config_index(index) {
                *response = encode_abort(index, subindex, AbortCode::DataTransferDeviceState);
                return Ok(());
            }
            let declared: u32 = if request[0] / 2 % 2 == 1 {
                let tail = slice_subrange(request.as_slice(), 4, 8);
                assert(tail@ =~= request@.skip(4));
                u32_from_le(tail)
            } else {
                0
            };
            if declared > 889 {
                *response = encode_abort(index, subindex, AbortCode::OutOfMemory);
                return Ok(());
            }
            *response =
            [
                0xA4,
                (index % 256) as u8,
                (index / 256) as u8,
                subindex,
                MAX_BLKSIZE,
                0,
                0,
                0,
            ];
            assert(response@ =~= addressed(0xA4, index, subindex) + seq![MAX_BLKSIZE, 0, 0, 0]);
            self.transfer = Some(
                TransferState::BlockDownload(
                    BlockDownloadState {
                        index,
                        subindex,
                        received: Vec::new(),
                        declared: declared as usize,
                        seqno: 0,
                        awaiting_end: false,
                        crc_enabled: request[0] / 4 % 2 == 1,
                        last_activity_us: now_us,
                    },
                ),
            );
            return Ok(());
        }
        // End block download
        match self.take_transfer() {
            Some(TransferState::BlockDownload(t)) => {
                let n_unused: usize = (request[0] / 4 % 8) as usize;
                let client_crc: u16 = request[1] as u16 + 0x100 * request[2] as u16;
                // The final segment always carries 7 data bytes, of which at
                // least one must be valid, so only 0..=6 unused bytes are possible.
                if n_unused > 6 || t.received.len() < n_unused {
                    *response = encode_abort(t.index, t.subindex, AbortCode::DataTransferError);
                    return Ok(());
                }
                // Trim unused bytes from the last segment
                let data_len: usize = t.received.len() - n_unused;
                let data = slice_subrange(t.received.as_slice(), 0, data_len);
                assert(data@ =~= t.received@.take(data_len as int));
                // If the initiate request declared a size, the received
                // data must match it (CiA 301).
                if t.declared != 0 && data_len != t.declared {
                    *response = encode_abort(t.index, t.subindex, AbortCode::DataTransferError);
                    return Ok(());
                }
                if t.crc_enabled && crc16_ccitt_update(0, data) != client_crc {
                    *response = encode_abort(t.index, t.subindex, AbortCode::CrcError);
                    return Ok(());
                }
                let ok: [u8; 8] = [0xA1, 0, 0, 0, 0, 0, 0, 0];
                assert(ok@ =~= seq![0xA1u8, 0, 0, 0, 0, 0, 0, 0]);
                self.commit_write(
                    od,
                    response,
                    events,
                    nmt_state,
                    t.index,
                    t.subindex,
                    data,
                    ok,
                );
                Ok(())
            },
            other => {
                self.transfer = other;
                *response = encode_abort(0, 0, AbortCode::InvalidCommandSpecifier);
                Ok(())
            },
        }
    }

    /// Process a block download segment. Called from process() when a block
    /// download is in progress and the incoming frame is a data segment.
    fn handle_block_download_segment(
        &mut self,
        request: &[u8; 8],
        response: &mut [u8; 8],
        now_us: u64,
    ) -> (r: Result<(), ()>)
        ensures
            match old(self)@.transfer {
                Some(TransferModel::BlockDownload(t)) => {
                    &&& final(self)@ == old(self)@.block_segment(t, request@, now_us).0
                    &&& replied(
                        old(self)@.block_segment(t, request@, now_us).1,
                        old(response)@,
                        final(response)@,
                        r,
                    )
                },
                _ => {
                    &&& final(self)@ == old(self)@
                    &&& replied(
                        Some(abort_frame(0, 0, AbortCode::InvalidCommandSpecifier)),
                        old(response)@,
                        final(response)@,
                        r,
                    )
                },
            },
    {
        proof {
            use_type_invariant(&*self);
        }
        match self.take_transfer() {
            Some(TransferState::BlockDownload(t)) => {
                let mut t = t;
                let seqno: u8 = request[0] % 128;
                let is_last: bool = request[0] >= 128;
                if seqno == 0 || seqno != t.seqno + 1 {
                    *response = encode_abort(t.index, t.subindex, AbortCode::InvalidSequenceNumber);
                    return Ok(());
                }
                // A non-final segment that doesn't fit means the transfer
                // exceeds the buffer (possible when no size was indicated).
                let space: usize = 889 - t.received.len();
                if !is_last && space < 7 {
                    *response = encode_abort(t.index, t.subindex, AbortCode::OutOfMemory);
                    return Ok(());
                }
                let copy_len: usize = if space < 7 {
                    space
                } else {
                    7
                };
                append_bytes(&mut t.received, request, copy_len);
                t.last_activity_us = now_us;
                if is_last || seqno >= MAX_BLKSIZE {
                    // End of sub-block: acknowledge
                    *response = [0xA2, seqno, MAX_BLKSIZE, 0, 0, 0, 0, 0];
                    assert(response@ =~= seq![0xA2u8, seqno, MAX_BLKSIZE, 0, 0, 0, 0, 0]);
                    if is_last {
                        t.awaiting_end = true;
                        t.seqno = seqno;
                    } else {
                        t.awaiting_end = false;
                        t.seqno = 0;  // next sub-block restarts at seqno 1
                    }
                    self.transfer = Some(TransferState::BlockDownload(t));
                    Ok(())
                } else {
                    t.awaiting_end = false;
                    t.seqno = seqno;
                    self.transfer = Some(TransferState::BlockDownload(t));
                    Err(())  // no response for intermediate segments
                }
            },
            other => {
                self.transfer = other;
                *response = encode_abort(0, 0, AbortCode::InvalidCommandSpecifier);
                Ok(())
            },
        }
    }
}

/// A response was written and announced, or none was and the buffer is as before.
pub open spec fn replied(
    expected: Option<Seq<u8>>,
    before: Seq<u8>,
    after: Seq<u8>,
    r: Result<(), ()>,
) -> bool {
    match expected {
        Some(d) => r is Ok && after == d,
        None => r is Err && after == before,
    }
}

/// Append the `n` bytes of a request that follow the command byte.
fn append_bytes(v: &mut Vec<u8>, request: &[u8; 8], n: usize)
    requires
        n <= 7,
    ensures
        final(v)@ == old(v)@ + request@.subrange(1, 1 + n),
{
    let mut i: usize = 0;
    assert(v@ =~= old(v)@ + request@.subrange(1, 1 + i));
    while i < n
        invariant
            i <= n <= 7,
            v@ == old(v)@ + request@.subrange(1, 1 + i),
        decreases n - i,
    {
        v.push(request[1 + i]);
        i += 1;
        assert(v@ =~= old(v)@ + request@.subrange(1, 1 + i));
    }
}

fn limit_block_size(requested: u8) -> (r: u8)
    ensures
        r == block_size(requested),
        r <= MAX_BLKSIZE,
{
    if requested < MAX_BLKSIZE {
        requested
    } else {
        MAX_BLKSIZE
    }
}

/// Returns true if the index is a PDO communication or mapping parameter (0x1400-0x1BFF).
pub fn is_pdo_config_index(index: u16) -> (r: bool)
    ensures
        r == pdo_config_index(index),
{
    index >= 0x1400 && index <= 0x1BFF
}

/// The abort code that reports a dictionary error.
pub fn od_error_to_abort(e: OdError) -> (r: AbortCode)
    ensures
        r == abort_for(e),
{
    match e {
        OdError::NotFound => AbortCode::ObjectNotFound,
        OdError::ReadOnly => AbortCode::ReadOnlyObject,
        OdError::WriteOnly => AbortCode::WriteOnlyObject,
        OdError::DataTypeMismatch => AbortCode::DataTypeMismatch,
        OdError::ValueTooLong => AbortCode::OutOfMemory,
        OdError::ValueRange => AbortCode::ValueRangeExceeded,
        OdError::HardwareError => AbortCode::GeneralError,
    }
}

/// Read a four-byte entry, short entries being filled up with zeros.
pub fn read_entry_u32<OD: ObjectDictionary>(od: &OD, index: u16, subindex: u8) -> (r: Option<u32>)
    ensures
        r == read_u32(od.contents(), index, subindex),
{
    let mut buf: [u8; 4] = [0u8; 4];
    match od.read(index, subindex, &mut buf) {
        Ok(n) => {
            assert(buf@ =~= padded(buf@.take(n as int), 4)) by {
                assert forall|i: int| n <= i < 4 implies buf@[i] == 0 by {
                    assert(buf@.skip(n as int)[i - n] == 0);
                }
            }
            Some(u32_from_le(buf.as_slice()))
        },
        Err(_) => None,
    }
}

/// Check a value for the consumer heartbeat object.
pub fn consumer_heartbeat_check<OD: ObjectDictionary>(
    od: &OD,
    index: u16,
    subindex: u8,
    data: &[u8],
) -> (r: Option<AbortCode>)
    ensures
        r == consumer_heartbeat_fault(od.contents(), index, subindex, data@),
{
    if index != CONSUMER_HEARTBEAT || subindex == 0 || data.len() != 4 {
        return None;
    }
    let raw: u32 = u32_from_le(data);
    if raw >= 0x100_0000 {
        return Some(AbortCode::ValueRangeExceeded);
    }
    if raw % 0x1_0000 == 0 {
        return None;
    }
    let node: u8 = (raw / 0x1_0000 % 256) as u8;
    if node < 1 || node > 127 {
        return Some(AbortCode::ValueRangeExceeded);
    }
    let count: u8 = match od.sub_count(CONSUMER_HEARTBEAT) {
        Some(n) => n,
        None => {
            return None;
        },
    };
    let mut s: u8 = 0;
    while s < count
        invariant
            s <= count,
            index == CONSUMER_HEARTBEAT && subindex != 0 && data@.len() == 4,
            raw == le_u32(data@) && raw < 0x100_0000 && hb_entry_time(raw) != 0,
            node == hb_entry_node(raw) && 1 <= node <= 127,
            od.contents().subs_of(CONSUMER_HEARTBEAT) == Some(count),
            forall|k: u8|
                1 <= k <= s && k != subindex ==> !(#[trigger] entry_monitors(od.contents(), k, node)),
        decreases count - s,
    {
        s += 1;
        if s != subindex && entry_monitors_node(od, s, node) {
            assert(monitored_elsewhere(od.contents(), subindex, node));
            return Some(AbortCode::ParameterIncompatibility);
        }
    }
    None
}

/// Whether an entry of the consumer heartbeat object is active and names the node.
fn entry_monitors_node<OD: ObjectDictionary>(od: &OD, subindex: u8, node: u8) -> (r: bool)
    ensures
        r == entry_monitors(od.contents(), subindex, node),
{
    match read_entry_u32(od, CONSUMER_HEARTBEAT, subindex) {
        Some(raw) => raw % 0x1_0000 != 0 && (raw / 0x1_0000 % 256) as u8 == node,
        None => false,
    }
}

} // verus!
