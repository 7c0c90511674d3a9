//! PDO numbers, mappings and configurations.

use crate::cobid::NodeId;
use vstd::prelude::*;

verus! {

/// The largest number of entries that one PDO can map: 64 single bits.
pub const PDO_MAX_MAPPINGS: usize = 64;

/// One PDO mapping entry: which OD entry maps to which bits in the PDO frame.
#[derive(Clone, Copy, Debug, PartialEq, Eq, Structural)]
pub struct PdoMapping {
    /// OD index
    pub index: u16,
    /// OD subindex
    pub subindex: u8,
    /// Length in bits
    pub bit_length: u8,
}

impl Default for PdoMapping {
    fn default() -> (r: Self)
        ensures
            r == (PdoMapping { index: 0, subindex: 0, bit_length: 0 }),
    {
        PdoMapping { index: 0, subindex: 0, bit_length: 0 }
    }
}

impl PdoMapping {
    /// The mapping that a mapping value (0xIIIISSLL) stands for.
    pub open spec fn spec_from_mapping_value(val: u32) -> PdoMapping {
        PdoMapping {
            index: (val / 0x1_0000) as u16,
            subindex: (val / 0x100 % 0x100) as u8,
            bit_length: (val % 0x100) as u8,
        }
    }

    /// Decode a CANopen PDO mapping value (0xIIIISSLL).
    #[verifier::when_used_as_spec(spec_from_mapping_value)]
    pub fn from_mapping_value(val: u32) -> (r: Self)
        ensures
            r == PdoMapping::from_mapping_value(val),
    {
        PdoMapping {
            index: (val / 0x1_0000) as u16,
            subindex: (val / 0x100 % 0x100) as u8,
            bit_length: (val % 0x100) as u8,
        }
    }

    /// The mapping value of a mapping, for use in contracts.
    pub open spec fn spec_to_mapping_value(self) -> u32 {
        (self.index * 0x1_0000 + self.subindex * 0x100 + self.bit_length) as u32
    }

    /// Encode to CANopen PDO mapping value.
    #[verifier::when_used_as_spec(spec_to_mapping_value)]
    pub fn to_mapping_value(self) -> (r: u32)
        ensures
            r == self.to_mapping_value(),
    {
        self.index as u32 * 0x1_0000 + self.subindex as u32 * 0x100 + self.bit_length as u32
    }
}

/// Encoding a mapping and decoding the value gives the mapping, and the other
/// way round.
pub proof fn lemma_mapping_value_roundtrip(m: PdoMapping, val: u32)
    ensures
        PdoMapping::from_mapping_value(m.to_mapping_value()) == m,
        PdoMapping::from_mapping_value(val).to_mapping_value() == val,
{
}

// ---- Lists of mappings ----

/// The mappings of one PDO, in the order in which they fill the frame.
pub type PdoMappings = heapless::Vec<PdoMapping, 64>;

/// The mappings in a list.
pub uninterp spec fn mapped(list: heapless::Vec<PdoMapping, 64>) -> Seq<PdoMapping>;

/// Create an empty list of mappings.
///
/// Calls `heapless::Vec::new`, which makes an empty vector.
#[verifier::external_body]
pub fn heapless_vec_new() -> (r: heapless::Vec<PdoMapping, 64>)
    ensures
        mapped(r) == Seq::<PdoMapping>::empty(),
{
    heapless::Vec::new()
}

/// Append a mapping.
///
/// Calls `heapless::Vec::push`, which appends the item while the vector holds
/// fewer than its capacity of 64, and else hands the item back.
#[verifier::external_body]
pub fn heapless_vec_push(v: &mut heapless::Vec<PdoMapping, 64>, val: PdoMapping) -> (r: Result<
    (),
    PdoMapping,
>)
    ensures
        r is Ok <==> mapped(*old(v)).len() < 64,
        r is Ok ==> mapped(*final(v)) == mapped(*old(v)).push(val),
        r matches Err(back) ==> back == val && mapped(*final(v)) == mapped(*old(v)),
{
    v.push(val)
}

/// Calls `len` of the slice that `heapless::Vec` dereferences to: the number
/// of items, which is at most the capacity.
#[verifier::external_body]
pub(crate) fn mapping_count(v: &heapless::Vec<PdoMapping, 64>) -> (r: usize)
    ensures
        r == mapped(*v).len(),
        r <= 64,
{
    v.len()
}

/// Indexes the slice that `heapless::Vec` dereferences to, which holds the
/// items in order. An index beyond the items would panic.
#[verifier::external_body]
pub(crate) fn mapping_at(v: &heapless::Vec<PdoMapping, 64>, i: usize) -> (r: PdoMapping)
    requires
        i < mapped(*v).len(),
    ensures
        r == mapped(*v)[i as int],
{
    v[i]
}

/// Copy a list of mappings.
pub(crate) fn copy_mappings(v: &PdoMappings) -> (r: PdoMappings)
    ensures
        mapped(r) == mapped(*v),
{
    let n: usize = mapping_count(v);
    let mut r = heapless_vec_new();
    let mut i: usize = 0;
    while i < n
        invariant
            i <= n <= 64,
            n == mapped(*v).len(),
            mapped(r) == mapped(*v).take(i as int),
        decreases n - i,
    {
        let _ = heapless_vec_push(&mut r, mapping_at(v, i));
        i += 1;
        assert(mapped(r) =~= mapped(*v).take(i as int));
    }
    assert(mapped(*v).take(n as int) =~= mapped(*v));
    r
}

// ---- Transmission types (CiA 301) ----

/// Synchronous, acyclic: sent only when triggered, on the next SYNC.
pub const SYNC_ACYCLIC: u8 = 0;

/// Synchronous, cyclic: sent every N SYNC messages. Use `sync_cyclic` to construct.
pub const SYNC_CYCLIC_1: u8 = 1;

/// Event-driven, manufacturer-specific trigger.
pub const EVENT_DRIVEN_MANUFACTURER: u8 = 254;

/// Event-driven, device-profile-specific trigger.
pub const EVENT_DRIVEN: u8 = 255;

/// Synchronous, cyclic transmission type: send every `n` SYNCs (1..=240).
pub fn sync_cyclic(n: u8) -> (r: u8)
    requires
        1 <= n <= 240,
    ensures
        r == n,
{
    n
}

/// PDO transmission type (CiA 301).
///
/// Typed view of the raw `u8` transmission type.
#[derive(Clone, Copy, Debug, PartialEq, Eq, Structural)]
pub enum TransmissionType {
    /// 0: synchronous acyclic, transmitted on the next SYNC after a trigger.
    SyncAcyclic,
    /// 1..=240: synchronous cyclic, transmitted every N SYNC messages.
    SyncCyclic(u8),
    /// 252: RTR-only, sampled on SYNC (TPDO only).
    RtrSync,
    /// 253: RTR-only, event-driven (TPDO only).
    RtrEvent,
    /// 254: event-driven, manufacturer-specific trigger.
    EventDrivenManufacturer,
    /// 255: event-driven, device-profile-specific trigger.
    EventDriven,
}

impl TransmissionType {
    /// A cycle of 1 to 240 SYNC messages, where there is a cycle.
    pub open spec fn valid(self) -> bool {
        match self {
            TransmissionType::SyncCyclic(n) => 1 <= n <= 240,
            _ => true,
        }
    }

    /// The raw value of a transmission type, for use in contracts.
    pub open spec fn spec_raw(self) -> u8 {
        match self {
            TransmissionType::SyncAcyclic => 0,
            TransmissionType::SyncCyclic(n) => n,
            TransmissionType::RtrSync => 252,
            TransmissionType::RtrEvent => 253,
            TransmissionType::EventDrivenManufacturer => 254,
            TransmissionType::EventDriven => 255,
        }
    }

    /// The raw CiA 301 wire value.
    #[verifier::when_used_as_spec(spec_raw)]
    pub fn raw(self) -> (r: u8)
        requires
            self.valid(),
        ensures
            r == self.raw(),
    {
        match self {
            TransmissionType::SyncAcyclic => SYNC_ACYCLIC,
            TransmissionType::SyncCyclic(n) => n,
            TransmissionType::RtrSync => 252,
            TransmissionType::RtrEvent => 253,
            TransmissionType::EventDrivenManufacturer => EVENT_DRIVEN_MANUFACTURER,
            TransmissionType::EventDriven => EVENT_DRIVEN,
        }
    }

    /// The transmission type of a raw value, for use in contracts.
    pub open spec fn spec_from_raw(raw: u8) -> Option<TransmissionType> {
        if raw == 0 {
            Some(TransmissionType::SyncAcyclic)
        } else if raw <= 240 {
            Some(TransmissionType::SyncCyclic(raw))
        } else if raw == 252 {
            Some(TransmissionType::RtrSync)
        } else if raw == 253 {
            Some(TransmissionType::RtrEvent)
        } else if raw == 254 {
            Some(TransmissionType::EventDrivenManufacturer)
        } else if raw == 255 {
            Some(TransmissionType::EventDriven)
        } else {
            None
        }
    }

    /// Decode a raw CiA 301 value. Returns `None` for the reserved
    /// range 241..=251.
    #[verifier::when_used_as_spec(spec_from_raw)]
    pub fn from_raw(raw: u8) -> (r: Option<Self>)
        ensures
            r == TransmissionType::from_raw(raw),
    {
        if raw == 0 {
            Some(TransmissionType::SyncAcyclic)
        } else if raw <= 240 {
            Some(TransmissionType::SyncCyclic(raw))
        } else if raw == 252 {
            Some(TransmissionType::RtrSync)
        } else if raw == 253 {
            Some(TransmissionType::RtrEvent)
        } else if raw == 254 {
            Some(TransmissionType::EventDrivenManufacturer)
        } else if raw == 255 {
            Some(TransmissionType::EventDriven)
        } else {
            None
        }
    }
}

/// Every valid transmission type comes back from its raw value, every raw
/// value outside the reserved range from its transmission type.
pub proof fn lemma_transmission_type_roundtrip(tt: TransmissionType, raw: u8)
    ensures
        tt.valid() ==> TransmissionType::from_raw(tt.raw()) == Some(tt),
        TransmissionType::from_raw(raw) is None <==> 241 <= raw <= 251,
        TransmissionType::from_raw(raw) matches Some(t) ==> t.valid() && t.raw() == raw,
{
}

/// The raw value. A cycle out of range is passed on as it is.
impl From<TransmissionType> for u8 {
    fn from(tt: TransmissionType) -> (r: u8) {
        match tt {
            TransmissionType::SyncCyclic(n) => n,
            other => other.raw(),
        }
    }
}

impl vstd::std_specs::convert::FromSpecImpl<TransmissionType> for u8 {
    open spec fn obeys_from_spec() -> bool {
        true
    }

    open spec fn from_spec(tt: TransmissionType) -> u8 {
        tt.raw()
    }
}

// ---- PDO numbers ----

/// CANopen PDO number (1..=512): the `N` in `tpdo[N]` and `rpdo[N]`, the number
/// that determines the OD comm/mapping record addresses (`0x1400 + N - 1`
/// etc.), and the numbering used by every public API.
///
/// Not to be confused with the dense engine slot: with sparse declarations
/// (`rpdo[1]` and `rpdo[79]`), RPDO79 sits in engine slot 1 but is always
/// addressed as PDO number 79.
#[derive(Clone, Copy, Debug, PartialEq, Eq, PartialOrd, Ord, Hash, Structural)]
pub struct PdoNumber {
    number: u16,
}

impl PdoNumber {
    #[verifier::type_invariant]
    spec fn in_range(self) -> bool {
        1 <= self.number <= 512
    }

    /// The raw number, for use in contracts.
    pub closed spec fn spec_raw(self) -> u16 {
        self.number
    }

    pub fn new(n: u16) -> (r: Option<Self>)
        ensures
            r is Some <==> 1 <= n <= 512,
            r matches Some(p) ==> p.raw() == n,
    {
        if n >= 1 && n <= 512 {
            Some(PdoNumber { number: n })
        } else {
            None
        }
    }

    /// Constructor for literals: `PdoNumber::of::<79>()`.
    pub fn of<const N: u16>() -> (r: Self)
        requires
            1 <= N <= 512,
        ensures
            r.raw() == N,
    {
        PdoNumber { number: N }
    }

    /// The raw 1-based CANopen PDO number.
    #[verifier::when_used_as_spec(spec_raw)]
    pub fn raw(self) -> (r: u16)
        ensures
            r == self.raw(),
            1 <= r <= 512,
    {
        proof {
            use_type_invariant(&self);
        }
        self.number
    }

    /// 0-based offset from the comm/mapping record range base
    /// (0x1400/0x1600/0x1800/0x1A00).
    pub fn od_offset(self) -> (r: u16)
        ensures
            r == self.raw() - 1,
            r < 512,
    {
        proof {
            use_type_invariant(&self);
        }
        self.number - 1
    }
}

/// PDO numbers with the same raw number are the same.
pub broadcast proof fn lemma_pdo_number_injective(a: PdoNumber, b: PdoNumber)
    ensures
        (#[trigger] a.raw() == #[trigger] b.raw()) ==> a == b,
{
}

impl TryFrom<u16> for PdoNumber {
    type Error = ();

    fn try_from(n: u16) -> (r: Result<Self, ()>)
        ensures
            r is Ok <==> 1 <= n <= 512,
            r matches Ok(p) ==> p.raw() == n,
    {
        PdoNumber::new(n).ok_or(())
    }
}

impl vstd::std_specs::convert::TryFromSpecImpl<u16> for PdoNumber {
    open spec fn obeys_try_from_spec() -> bool {
        true
    }

    closed spec fn try_from_spec(n: u16) -> Result<Self, ()> {
        if 1 <= n <= 512 {
            Ok(PdoNumber { number: n })
        } else {
            Err(())
        }
    }
}

impl From<PdoNumber> for u16 {
    fn from(n: PdoNumber) -> (r: u16) {
        n.raw()
    }
}

impl vstd::std_specs::convert::FromSpecImpl<PdoNumber> for u16 {
    open spec fn obeys_from_spec() -> bool {
        true
    }

    open spec fn from_spec(n: PdoNumber) -> u16 {
        n.raw()
    }
}

/// CANopen number of the PDO stored in `slot`: the explicit `od_number` if
/// set, else slot + 1 (dense default).
pub open spec fn spec_number_for_slot(od_number: u16, slot: int) -> int {
    if od_number == 0 {
        slot + 1
    } else {
        od_number as int
    }
}

/// CANopen number of the PDO stored in `slot`, if it is one that a PDO can have.
pub(crate) fn pdo_number_for_slot(od_number: u16, slot: usize) -> (r: Option<PdoNumber>)
    ensures
        r is Some <==> 1 <= spec_number_for_slot(od_number, slot as int) <= 512,
        r matches Some(p) ==> p.raw() == spec_number_for_slot(od_number, slot as int),
{
    if od_number == 0 {
        if slot < 512 {
            PdoNumber::new(slot as u16 + 1)
        } else {
            None
        }
    } else {
        PdoNumber::new(od_number)
    }
}

// ---- Configurations ----

/// Configuration for one TPDO (transmit PDO).
#[derive(Debug)]
pub struct TpdoConfig {
    /// 1-based CANopen PDO number (TPDO1 = 1). Determines the OD index of the
    /// communication/mapping parameter records (0x1800/0x1A00 + number - 1).
    /// 0 = derive from the engine slot (slot n is PDO n+1).
    pub od_number: u16,
    /// COB-ID for this PDO
    pub cob_id: u16,
    /// Transmission type: 0=sync acyclic, 1-240=sync cyclic, 254/255=event-driven
    pub transmission_type: u8,
    /// Inhibit time in units of 100us
    pub inhibit_time_100us: u16,
    /// Event timer in ms (0=disabled)
    pub event_timer_ms: u16,
    /// PDO mappings
    pub mappings: PdoMappings,
    /// Whether this PDO is enabled
    pub enabled: bool,
}

/// What the configuration of a transmit PDO says.
#[verifier::ext_equal]
pub struct TpdoView {
    pub od_number: u16,
    pub cob_id: u16,
    pub transmission_type: u8,
    pub inhibit_time_100us: u16,
    pub event_timer_ms: u16,
    pub mappings: Seq<PdoMapping>,
    pub enabled: bool,
}

impl View for TpdoConfig {
    type V = TpdoView;

    open spec fn view(&self) -> TpdoView {
        TpdoView {
            od_number: self.od_number,
            cob_id: self.cob_id,
            transmission_type: self.transmission_type,
            inhibit_time_100us: self.inhibit_time_100us,
            event_timer_ms: self.event_timer_ms,
            mappings: mapped(self.mappings),
            enabled: self.enabled,
        }
    }
}

impl TpdoView {
    /// A pure padding slot: nothing about it was declared, so it is not
    /// addressable by PDO number. Declared but disabled PDOs (nonzero
    /// `od_number` or COB-ID, or mappings) are not placeholders.
    pub open spec fn is_placeholder(self) -> bool {
        self.od_number == 0 && self.cob_id == 0 && !self.enabled && self.mappings.len() == 0
    }

    /// The padding slot.
    pub open spec fn blank() -> TpdoView {
        TpdoView {
            od_number: 0,
            cob_id: 0,
            transmission_type: 255,
            inhibit_time_100us: 0,
            event_timer_ms: 0,
            mappings: Seq::empty(),
            enabled: false,
        }
    }
}

impl Default for TpdoConfig {
    fn default() -> (r: Self)
        ensures
            r@ == TpdoView::blank(),
    {
        TpdoConfig {
            od_number: 0,
            cob_id: 0,
            transmission_type: 255,
            inhibit_time_100us: 0,
            event_timer_ms: 0,
            mappings: heapless_vec_new(),
            enabled: false,
        }
    }
}

impl Clone for TpdoConfig {
    fn clone(&self) -> (r: Self)
        ensures
            r@ == self@,
    {
        TpdoConfig {
            od_number: self.od_number,
            cob_id: self.cob_id,
            transmission_type: self.transmission_type,
            inhibit_time_100us: self.inhibit_time_100us,
            event_timer_ms: self.event_timer_ms,
            mappings: copy_mappings(&self.mappings),
            enabled: self.enabled,
        }
    }
}

impl TpdoConfig {
    /// Whether this is a pure padding slot.
    pub(crate) fn is_placeholder(&self) -> (r: bool)
        ensures
            r == self@.is_placeholder(),
    {
        self.od_number == 0 && self.cob_id == 0 && !self.enabled && mapping_count(&self.mappings)
            == 0
    }
}

/// Configuration for one RPDO (receive PDO).
#[derive(Debug)]
pub struct RpdoConfig {
    /// 1-based CANopen PDO number (RPDO1 = 1). Determines the OD index of the
    /// communication/mapping parameter records (0x1400/0x1600 + number - 1).
    /// 0 = derive from the engine slot (slot n is PDO n+1).
    pub od_number: u16,
    /// COB-ID for this PDO
    pub cob_id: u16,
    /// Transmission type
    pub transmission_type: u8,
    /// Deadline monitoring timeout in ms (the CiA 301 "event timer", comm
    /// param sub 5). 0 = disabled.
    ///
    /// Monitoring arms on first reception; if no frame arrives within the
    /// timeout, the slot's deadline-expired flag is set until the next
    /// reception re-arms it. The mapped OD entries are never touched: they
    /// keep the last received values.
    pub deadline_ms: u16,
    /// PDO mappings
    pub mappings: PdoMappings,
    /// Whether this PDO is enabled
    pub enabled: bool,
}

/// What the configuration of a receive PDO says.
#[verifier::ext_equal]
pub struct RpdoView {
    pub od_number: u16,
    pub cob_id: u16,
    pub transmission_type: u8,
    pub deadline_ms: u16,
    pub mappings: Seq<PdoMapping>,
    pub enabled: bool,
}

impl View for RpdoConfig {
    type V = RpdoView;

    open spec fn view(&self) -> RpdoView {
        RpdoView {
            od_number: self.od_number,
            cob_id: self.cob_id,
            transmission_type: self.transmission_type,
            deadline_ms: self.deadline_ms,
            mappings: mapped(self.mappings),
            enabled: self.enabled,
        }
    }
}

impl RpdoView {
    /// A pure padding slot, see `TpdoView::is_placeholder`.
    pub open spec fn is_placeholder(self) -> bool {
        self.od_number == 0 && self.cob_id == 0 && !self.enabled && self.mappings.len() == 0
    }

    /// The padding slot.
    pub open spec fn blank() -> RpdoView {
        RpdoView {
            od_number: 0,
            cob_id: 0,
            transmission_type: 255,
            deadline_ms: 0,
            mappings: Seq::empty(),
            enabled: false,
        }
    }
}

impl Default for RpdoConfig {
    fn default() -> (r: Self)
        ensures
            r@ == RpdoView::blank(),
    {
        RpdoConfig {
            od_number: 0,
            cob_id: 0,
            transmission_type: 255,
            deadline_ms: 0,
            mappings: heapless_vec_new(),
            enabled: false,
        }
    }
}

impl Clone for RpdoConfig {
    fn clone(&self) -> (r: Self)
        ensures
            r@ == self@,
    {
        RpdoConfig {
            od_number: self.od_number,
            cob_id: self.cob_id,
            transmission_type: self.transmission_type,
            deadline_ms: self.deadline_ms,
            mappings: copy_mappings(&self.mappings),
            enabled: self.enabled,
        }
    }
}

impl RpdoConfig {
    /// Whether this is a pure padding slot.
    pub(crate) fn is_placeholder(&self) -> (r: bool)
        ensures
            r == self@.is_placeholder(),
    {
        self.od_number == 0 && self.cob_id == 0 && !self.enabled && mapping_count(&self.mappings)
            == 0
    }
}

/// What configurations of transmit PDOs say, one by one.
pub open spec fn tpdo_views(configs: Seq<TpdoConfig>) -> Seq<TpdoView> {
    configs.map_values(|c: TpdoConfig| c@)
}

/// What configurations of receive PDOs say, one by one.
pub open spec fn rpdo_views(configs: Seq<RpdoConfig>) -> Seq<RpdoView> {
    configs.map_values(|c: RpdoConfig| c@)
}

/// Source of PDO configuration: a dictionary whose PDO declarations carry
/// everything needed to build the configs.
///
/// Of a function that an implementation does not define, nothing is known.
pub trait PdoConfigSource<const TPDO: usize, const RPDO: usize> {
    /// The transmit PDOs that the dictionary declares.
    closed spec fn declared_tpdos(&self, node_id: NodeId) -> Seq<TpdoView> {
        arbitrary()
    }

    /// The receive PDOs that the dictionary declares.
    closed spec fn declared_rpdos(&self, node_id: NodeId) -> Seq<RpdoView> {
        arbitrary()
    }

    /// Build TPDO configs from current OD values. COB-IDs of 0 are resolved
    /// to the predefined defaults (0x180 + node_id, ...) using `node_id`.
    fn tpdo_configs(&self, node_id: NodeId) -> (r: [TpdoConfig; TPDO])
        ensures
            tpdo_views(r@) == self.declared_tpdos(node_id),
    ;

    /// Build RPDO configs from current OD values.
    fn rpdo_configs(&self, node_id: NodeId) -> (r: [RpdoConfig; RPDO])
        ensures
            rpdo_views(r@) == self.declared_rpdos(node_id),
    ;
}

} // verus!
