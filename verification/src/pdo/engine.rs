//! Transmission and reception of PDOs.

use crate::bytes::padded;
use crate::od::{ObjectDictionary, OdContents, OdEvent, OdEventSource};
use crate::pdo::bits::{append_bits, bits_of, bytes_for, bytes_of, pack_bits};
use crate::pdo::config::{
    mapped, mapping_at, mapping_count, pdo_number_for_slot, rpdo_views, spec_number_for_slot,
    tpdo_views, PdoMapping, PdoNumber, RpdoConfig, RpdoView, TpdoConfig, TpdoView,
};
use crate::queue::{push_evicting, BoundedQueue};
use crate::time::elapsed_us;
use crate::transport::{frame_views, CanFrame, FrameView};
use vstd::prelude::*;

verus! {

// ---- Addressing by number ----

/// The first slot from `from` on that has the given PDO number. A slot without
/// a number cannot be addressed.
pub open spec fn first_slot(numbers: Seq<Option<int>>, number: int, from: int) -> Option<int>
    decreases numbers.len() - from,
{
    if from < 0 || from >= numbers.len() {
        None
    } else if numbers[from] == Some(number) {
        Some(from)
    } else {
        first_slot(numbers, number, from + 1)
    }
}

/// The PDO numbers of the slots of transmit PDOs.
pub open spec fn tpdo_numbers(pdos: Seq<TpdoView>) -> Seq<Option<int>> {
    Seq::new(
        pdos.len(),
        |i: int|
            if pdos[i].is_placeholder() {
                None
            } else {
                Some(spec_number_for_slot(pdos[i].od_number, i))
            },
    )
}

/// The PDO numbers of the slots of receive PDOs.
pub open spec fn rpdo_numbers(pdos: Seq<RpdoView>) -> Seq<Option<int>> {
    Seq::new(
        pdos.len(),
        |i: int|
            if pdos[i].is_placeholder() {
                None
            } else {
                Some(spec_number_for_slot(pdos[i].od_number, i))
            },
    )
}

proof fn lemma_first_slot_bounds(numbers: Seq<Option<int>>, number: int, from: int)
    requires
        0 <= from,
    ensures
        first_slot(numbers, number, from) matches Some(s) ==> from <= s < numbers.len()
            && numbers[s] == Some(number),
    decreases numbers.len() - from,
{
    if from < numbers.len() && numbers[from] != Some(number) {
        lemma_first_slot_bounds(numbers, number, from + 1);
    }
}

// ---- Transmission ----

/// The bits of a PDO: those of the mapped values, one after the other. There
/// are none if a value cannot be read or the values take more than 64 bits.
pub open spec fn pdo_bits<OD: OdContents>(od: OD, mappings: Seq<PdoMapping>) -> Option<
    Seq<bool>,
>
    decreases mappings.len(),
{
    if mappings.len() == 0 {
        Some(Seq::empty())
    } else {
        match (pdo_bits(od, mappings.drop_last()), mapped_bits(od, mappings.last())) {
            (Some(front), Some(value)) if front.len() + value.len() <= 64 => Some(front + value),
            _ => None,
        }
    }
}

/// The bits of one mapped value, if it can be read.
pub open spec fn mapped_bits<OD: OdContents>(od: OD, m: PdoMapping) -> Option<Seq<bool>> {
    let size = bytes_for(m.bit_length as nat);
    match od.read_result(m.index, m.subindex, size) {
        Ok(value) => Some(bits_of(padded(value, size)).take(m.bit_length as int)),
        Err(_) => None,
    }
}

/// The frame of a transmit PDO, if it can be built.
pub open spec fn pdo_frame<OD: OdContents>(od: OD, pdo: TpdoView) -> Option<FrameView> {
    match pdo_bits(od, pdo.mappings) {
        Some(bits) if pdo.cob_id <= 0x7FF => Some(
            FrameView { id: pdo.cob_id, data: bytes_of(bits) },
        ),
        _ => None,
    }
}

/// The frames of the PDOs that are due, in the order of their slots. A PDO
/// whose frame cannot be built is left out.
pub open spec fn due_frames<OD: OdContents>(
    od: OD,
    pdos: Seq<TpdoView>,
    due: Seq<bool>,
) -> Seq<FrameView>
    decreases due.len(),
{
    if due.len() == 0 {
        Seq::empty()
    } else {
        let front = due_frames(od, pdos, due.drop_last());
        match pdo_frame(od, pdos[due.len() - 1]) {
            Some(frame) if due.last() => front.push(frame),
            _ => front,
        }
    }
}

/// The state of a TPDO engine, slot by slot.
#[verifier::ext_equal]
pub struct TpdoModel {
    pub pdos: Seq<TpdoView>,
    /// SYNC messages since the last transmission.
    pub sync_counter: Seq<u8>,
    pub last_send_us: Seq<u64>,
}

impl TpdoModel {
    /// A new engine.
    pub open spec fn fresh(pdos: Seq<TpdoView>) -> TpdoModel {
        TpdoModel {
            pdos,
            sync_counter: Seq::new(pdos.len(), |i: int| 0u8),
            last_send_us: Seq::new(pdos.len(), |i: int| 0u64),
        }
    }

    /// The slot of a PDO number.
    pub open spec fn slot_of(self, number: PdoNumber) -> Option<int> {
        first_slot(tpdo_numbers(self.pdos), number.raw() as int, 0)
    }

    /// A slot is sent every so many SYNC messages.
    pub open spec fn is_cyclic(self, i: int) -> bool {
        self.pdos[i].enabled && 1 <= self.pdos[i].transmission_type <= 240
    }

    /// The slots that are sent on the next SYNC.
    pub open spec fn due_on_sync(self) -> Seq<bool> {
        Seq::new(
            self.pdos.len(),
            |i: int|
                self.is_cyclic(i) && self.sync_counter[i] + 1 >= self.pdos[i].transmission_type,
        )
    }

    /// The engine after a SYNC.
    pub open spec fn after_sync(self) -> TpdoModel {
        TpdoModel {
            sync_counter: Seq::new(
                self.pdos.len(),
                |i: int|
                    if self.due_on_sync()[i] {
                        0
                    } else if self.is_cyclic(i) {
                        (self.sync_counter[i] + 1) as u8
                    } else {
                        self.sync_counter[i]
                    },
            ),
            ..self
        }
    }

    /// A slot maps one of the given entries.
    pub open spec fn maps_any(self, i: int, dirty: Seq<(u16, u8)>) -> bool {
        exists|k: int, d: int|
            0 <= k < self.pdos[i].mappings.len() && 0 <= d < dirty.len() && #[trigger] dirty[d] == (
                (#[trigger] self.pdos[i].mappings[k]).index,
                self.pdos[i].mappings[k].subindex,
            )
    }

    /// The event-driven slots that are sent now: those that map an entry that
    /// changed, unless the inhibit time forbids it, and those whose event timer
    /// has elapsed.
    pub open spec fn due_on_poll(self, now: u64, dirty: Seq<(u16, u8)>) -> Seq<bool> {
        Seq::new(
            self.pdos.len(),
            |i: int|
                {
                    let pdo = self.pdos[i];
                    let elapsed = elapsed_us(now, self.last_send_us[i]);
                    &&& pdo.enabled
                    &&& pdo.transmission_type >= 254
                    &&& {
                        ||| self.maps_any(i, dirty) && elapsed >= pdo.inhibit_time_100us * 100
                        ||| pdo.event_timer_ms > 0 && elapsed >= pdo.event_timer_ms * 1000
                    }
                },
        )
    }

    /// The engine after a poll.
    pub open spec fn after_poll(self, now: u64, dirty: Seq<(u16, u8)>) -> TpdoModel {
        TpdoModel {
            last_send_us: Seq::new(
                self.pdos.len(),
                |i: int|
                    if self.due_on_poll(now, dirty)[i] {
                        now
                    } else {
                        self.last_send_us[i]
                    },
            ),
            ..self
        }
    }
}

/// TPDO engine. Manages up to N transmit PDOs.
pub struct TpdoEngine<const N: usize> {
    pdos: [TpdoConfig; N],
    sync_counter: [u8; N],
    last_send_us: [u64; N],
}

impl<const N: usize> View for TpdoEngine<N> {
    type V = TpdoModel;

    closed spec fn view(&self) -> TpdoModel {
        TpdoModel {
            pdos: tpdo_views(self.pdos@),
            sync_counter: self.sync_counter@,
            last_send_us: self.last_send_us@,
        }
    }
}

proof fn lemma_bits_prefix<OD: OdContents>(od: OD, mappings: Seq<PdoMapping>, n: int)
    requires
        0 <= n <= mappings.len(),
        pdo_bits(od, mappings.take(n)) is None,
    ensures
        pdo_bits(od, mappings) is None,
    decreases mappings.len() - n,
{
    if n < mappings.len() {
        assert(mappings.take(n + 1).drop_last() =~= mappings.take(n));
        lemma_bits_prefix(od, mappings, n + 1);
    } else {
        assert(mappings.take(n) =~= mappings);
    }
}

impl<const N: usize> TpdoEngine<N> {
    pub fn new(pdos: [TpdoConfig; N]) -> (r: Self)
        ensures
            r@ == TpdoModel::fresh(tpdo_views(pdos@)),
    {
        let r = TpdoEngine { pdos, sync_counter: [0u8; N], last_send_us: [0u64; N] };
        assert(r@ =~= TpdoModel::fresh(tpdo_views(pdos@)));
        r
    }

    /// Every slot has a configuration and its counters.
    pub proof fn lemma_slots(&self)
        ensures
            self@.pdos.len() == N,
            self@.sync_counter.len() == N,
            self@.last_send_us.len() == N,
    {
    }

    /// Config of the PDO in a slot.
    pub(crate) fn config_slot(&self, slot: usize) -> (r: &TpdoConfig)
        requires
            slot < N,
        ensures
            r@ == self@.pdos[slot as int],
    {
        &self.pdos[slot]
    }

    /// Replace the config of the PDO in a slot.
    pub(crate) fn set_config_slot(&mut self, slot: usize, config: TpdoConfig)
        requires
            slot < N,
        ensures
            final(self)@ == (TpdoModel {
                pdos: old(self)@.pdos.update(slot as int, config@),
                ..old(self)@
            }),
    {
        self.pdos[slot] = config;
        assert(self@.pdos =~= old(self)@.pdos.update(slot as int, config@));
    }

    /// Config of the TPDO with the given CANopen number (TPDO1 = 1), if declared.
    pub fn config(&self, number: PdoNumber) -> (r: Option<&TpdoConfig>)
        ensures
            match r {
                Some(c) => self@.slot_of(number) matches Some(s) && c@ == self@.pdos[s],
                None => self@.slot_of(number) is None,
            },
    {
        match self.slot_for_number(number) {
            Some(s) => Some(&self.pdos[s]),
            None => None,
        }
    }

    /// Mutable config of the TPDO with the given CANopen number, if declared.
    pub fn config_mut(&mut self, number: PdoNumber) -> (r: Option<&mut TpdoConfig>)
        ensures
            match r {
                Some(c) => {
                    &&& old(self)@.slot_of(number) matches Some(s)
                    &&& c@ == old(self)@.pdos[s]
                    &&& final(self)@ == (TpdoModel {
                        pdos: old(self)@.pdos.update(s, final(c)@),
                        ..old(self)@
                    })
                },
                None => old(self)@.slot_of(number) is None && final(self)@ == old(self)@,
            },
    {
        match self.slot_for_number(number) {
            Some(s) => Some(&mut self.pdos[s]),
            None => None,
        }
    }

    fn slot_for_number(&self, number: PdoNumber) -> (r: Option<usize>)
        ensures
            match r {
                Some(s) => s < N && self@.slot_of(number) == Some(s as int),
                None => self@.slot_of(number) is None,
            },
    {
        broadcast use crate::pdo::config::lemma_pdo_number_injective;

        let mut slot: usize = 0;
        while slot < N
            invariant
                slot <= N,
                self@.pdos.len() == N,
                self@.slot_of(number) == first_slot(
                    tpdo_numbers(self@.pdos),
                    number.raw() as int,
                    slot as int,
                ),
            decreases N - slot,
        {
            let c = &self.pdos[slot];
            assert(c@ == self@.pdos[slot as int]);
            if !c.is_placeholder() {
                let raw: u16 = number.raw();
                if let Some(p) = pdo_number_for_slot(c.od_number, slot) {
                    if p.raw() == raw {
                        return Some(slot);
                    }
                }
            }
            slot += 1;
        }
        None
    }

    /// Called on SYNC reception. Appends the frames to transmit for
    /// sync-triggered PDOs.
    pub fn on_sync<OD: ObjectDictionary>(&mut self, od: &OD, out: &mut Vec<CanFrame>)
        ensures
            final(self)@ == old(self)@.after_sync(),
            frame_views(final(out)@) == frame_views(old(out)@) + due_frames(
                od.contents(),
                old(self)@.pdos,
                old(self)@.due_on_sync(),
            ),
    {
        let ghost m = self@;
        let ghost before = frame_views(out@);
        let mut i: usize = 0;
        assert(m.due_on_sync().take(0) =~= Seq::empty());
        assert(before + Seq::<FrameView>::empty() =~= before);
        while i < N
            invariant
                i <= N,
                m.pdos.len() == N,
                m.sync_counter.len() == N,
                self@.pdos == m.pdos,
                self@.last_send_us == m.last_send_us,
                self.sync_counter@.len() == N,
                forall|j: int| 0 <= j < i ==> self@.sync_counter[j] == m.after_sync().sync_counter[j],
                forall|j: int| i <= j < N ==> self@.sync_counter[j] == m.sync_counter[j],
                frame_views(out@) == before + due_frames(
                    od.contents(),
                    m.pdos,
                    m.due_on_sync().take(i as int),
                ),
            decreases N - i,
        {
            let ghost due = m.due_on_sync();
            assert(due.take(i + 1).drop_last() =~= due.take(i as int));
            assert(m.pdos[i as int] == self.pdos[i as int]@);
            let tt: u8 = self.pdos[i].transmission_type;
            if self.pdos[i].enabled && tt >= 1 && tt <= 240 {
                if self.sync_counter[i] >= tt - 1 {
                    self.sync_counter[i] = 0;
                    self.emit(i, od, out);
                } else {
                    let c: u8 = self.sync_counter[i];
                    self.sync_counter[i] = c + 1;
                }
            }
            i += 1;
        }
        assert(m.due_on_sync().take(N as int) =~= m.due_on_sync());
        assert(self@ =~= m.after_sync());
    }

    /// Called periodically. Checks event timers and dirty entries for event-driven PDOs.
    ///
    /// If any mapped entry is in the `dirty` set and the inhibit time has elapsed,
    /// the PDO is sent immediately (event-driven). The dirty set should be cleared
    /// by the caller after this returns.
    pub fn poll<OD: ObjectDictionary>(
        &mut self,
        od: &OD,
        now_us: u64,
        dirty: &[(u16, u8)],
        out: &mut Vec<CanFrame>,
    )
        ensures
            final(self)@ == old(self)@.after_poll(now_us, dirty@),
            frame_views(final(out)@) == frame_views(old(out)@) + due_frames(
                od.contents(),
                old(self)@.pdos,
                old(self)@.due_on_poll(now_us, dirty@),
            ),
    {
        let ghost m = self@;
        let ghost before = frame_views(out@);
        let mut i: usize = 0;
        assert(m.due_on_poll(now_us, dirty@).take(0) =~= Seq::empty());
        assert(before + Seq::<FrameView>::empty() =~= before);
        while i < N
            invariant
                i <= N,
                m.pdos.len() == N,
                m.last_send_us.len() == N,
                self@.pdos == m.pdos,
                self@.sync_counter == m.sync_counter,
                self.last_send_us@.len() == N,
                forall|j: int|
                    0 <= j < i ==> self@.last_send_us[j] == m.after_poll(
                        now_us,
                        dirty@,
                    ).last_send_us[j],
                forall|j: int| i <= j < N ==> self@.last_send_us[j] == m.last_send_us[j],
                frame_views(out@) == before + due_frames(
                    od.contents(),
                    m.pdos,
                    m.due_on_poll(now_us, dirty@).take(i as int),
                ),
            decreases N - i,
        {
            let ghost due = m.due_on_poll(now_us, dirty@);
            assert(due.take(i + 1).drop_last() =~= due.take(i as int));
            assert(m.pdos[i as int] == self.pdos[i as int]@);
            let tt: u8 = self.pdos[i].transmission_type;
            if self.pdos[i].enabled && tt >= 254 {
                let elapsed: u64 = now_us.wrapping_sub(self.last_send_us[i]);
                let inhibit_us: u64 = self.pdos[i].inhibit_time_100us as u64 * 100;
                let interval_us: u64 = self.pdos[i].event_timer_ms as u64 * 1000;
                let has_dirty = self.maps_dirty(i, dirty);
                assert(has_dirty == m.maps_any(i as int, dirty@));
                if (has_dirty && elapsed >= inhibit_us) || (interval_us > 0 && elapsed
                    >= interval_us) {
                    self.last_send_us[i] = now_us;
                    self.emit(i, od, out);
                    assert(due[i as int]);
                } else {
                    assert(!due[i as int]);
                }
            }
            assert(self@.last_send_us[i as int] == m.after_poll(
                now_us,
                dirty@,
            ).last_send_us[i as int]);
            i += 1;
        }
        assert(m.due_on_poll(now_us, dirty@).take(N as int) =~= m.due_on_poll(now_us, dirty@));
        assert(self@ =~= m.after_poll(now_us, dirty@));
    }

    fn maps_dirty(&self, i: usize, dirty: &[(u16, u8)]) -> (r: bool)
        requires
            i < N,
        ensures
            r == self@.maps_any(i as int, dirty@),
    {
        let list = &self.pdos[i].mappings;
        assert(self@.pdos[i as int].mappings == mapped(*list));
        let n: usize = mapping_count(list);
        let mut k: usize = 0;
        while k < n
            invariant
                k <= n,
                n == mapped(*list).len(),
                self@.pdos[i as int].mappings == mapped(*list),
                forall|a: int, d: int|
                    0 <= a < k && 0 <= d < dirty@.len() ==> #[trigger] dirty@[d] != (
                        (#[trigger] mapped(*list)[a]).index,
                        mapped(*list)[a].subindex,
                    ),
            decreases n - k,
        {
            let m = mapping_at(list, k);
            let mut d: usize = 0;
            while d < dirty.len()
                invariant
                    k < n,
                    n == mapped(*list).len(),
                    m == mapped(*list)[k as int],
                    self@.pdos[i as int].mappings == mapped(*list),
                    d <= dirty@.len(),
                    forall|b: int|
                        0 <= b < d ==> #[trigger] dirty@[b] != (m.index, m.subindex),
                decreases dirty@.len() - d,
            {
                if dirty[d].0 == m.index && dirty[d].1 == m.subindex {
                    assert(dirty@[d as int] == (
                        self@.pdos[i as int].mappings[k as int].index,
                        self@.pdos[i as int].mappings[k as int].subindex,
                    ));
                    return true;
                }
                d += 1;
            }
            k += 1;
        }
        false
    }

    fn emit<OD: ObjectDictionary>(&self, i: usize, od: &OD, out: &mut Vec<CanFrame>)
        requires
            i < N,
        ensures
            frame_views(final(out)@) == (match pdo_frame(od.contents(), self@.pdos[i as int]) {
                Some(f) => frame_views(old(out)@).push(f),
                None => frame_views(old(out)@),
            }),
    {
        if let Some(f) = self.build_pdo_frame(i, od) {
            out.push(f);
            assert(frame_views(out@) =~= frame_views(old(out)@).push(f@));
        }
    }

    fn build_pdo_frame<OD: ObjectDictionary>(&self, pdo_idx: usize, od: &OD) -> (r: Option<
        CanFrame,
    >)
        requires
            pdo_idx < N,
        ensures
            match r {
                Some(f) => pdo_frame(od.contents(), self@.pdos[pdo_idx as int]) == Some(f@),
                None => pdo_frame(od.contents(), self@.pdos[pdo_idx as int]) is None,
            },
    {
        let pdo = &self.pdos[pdo_idx];
        let ghost ms = self@.pdos[pdo_idx as int].mappings;
        assert(ms == mapped(pdo.mappings));
        let mut bits: Vec<bool> = Vec::new();
        let n: usize = mapping_count(&pdo.mappings);
        let mut i: usize = 0;
        assert(ms.take(0) =~= Seq::empty());
        while i < n
            invariant
                i <= n,
                n == ms.len(),
                ms == mapped(pdo.mappings),
                pdo@ == self@.pdos[pdo_idx as int],
                bits@.len() <= 64,
                pdo_bits(od.contents(), ms.take(i as int)) == Some(bits@),
            decreases n - i,
        {
            let m = mapping_at(&pdo.mappings, i);
            assert(ms.take(i + 1).drop_last() =~= ms.take(i as int));
            let mut ok = false;
            if bits.len() + m.bit_length as usize <= 64 {
                ok = append_entry(od, m, &mut bits);
            }
            if !ok {
                proof {
                    assert(pdo_bits(od.contents(), ms.take(i + 1)) is None);
                    lemma_bits_prefix(od.contents(), ms, i + 1);
                }
                return None;
            }
            i += 1;
        }
        assert(ms.take(n as int) =~= ms);
        let data = pack_bits(&bits);
        CanFrame::new(pdo.cob_id, data.as_slice())
    }
}

/// Append the bits of a mapped value. Returns whether it could be read.
fn append_entry<OD: ObjectDictionary>(od: &OD, m: PdoMapping, bits: &mut Vec<bool>) -> (ok: bool)
    ensures
        match mapped_bits(od.contents(), m) {
            Some(value) => ok && final(bits)@ == old(bits)@ + value,
            None => !ok,
        },
{
    let size: usize = (m.bit_length as usize + 7) / 8;
    let mut value: Vec<u8> = Vec::new();
    while value.len() < size
        invariant
            value@.len() <= size,
            value@ == Seq::new(value@.len(), |k: int| 0u8),
        decreases size - value@.len(),
    {
        value.push(0);
        assert(value@ =~= Seq::new(value@.len(), |k: int| 0u8));
    }
    let ghost zeros = value@;
    match od.read(m.index, m.subindex, value.as_mut_slice()) {
        Ok(len) => {
            proof {
                let got = value@.take(len as int);
                assert forall|k: int| 0 <= k < size implies value@[k] == padded(
                    got,
                    size as nat,
                )[k] by {
                    if k >= len {
                        assert(value@[k] == value@.skip(len as int)[k - len]);
                        assert(zeros[k] == zeros.skip(len as int)[k - len]);
                    }
                }
                assert(value@ =~= padded(got, size as nat));
            }
            append_bits(bits, value.as_slice(), m.bit_length as usize);
            true
        },
        Err(_) => false,
    }
}

// ---- Reception ----

/// The bytes of a value that takes the given bits of a payload.
pub open spec fn received_value(data: Seq<u8>, at: int, bit_length: u8) -> Seq<u8> {
    bytes_of(bits_of(data).subrange(at, at + bit_length))
}

/// What the reception of a PDO does.
#[verifier::reject_recursive_types(OD)]
pub struct RpdoStep<OD: OdContents> {
    pub od: OD,
    pub events: Seq<OdEvent>,
    /// Events that were lost because the queue was full.
    pub dropped: int,
}

impl<OD: OdContents> RpdoStep<OD> {
    /// One mapped value is written. A successful write is announced.
    pub open spec fn write(self, capacity: nat, m: PdoMapping, value: Seq<u8>) -> RpdoStep<OD> {
        let od = self.od.after_write(m.index, m.subindex, value);
        let event = OdEvent {
            index: m.index,
            subindex: m.subindex,
            source: OdEventSource::Rpdo,
        };
        if self.od.write_result(m.index, m.subindex, value) is Ok {
            RpdoStep {
                od,
                events: push_evicting(self.events, capacity, event),
                dropped: if self.events.len() == capacity {
                    self.dropped + 1
                } else {
                    self.dropped
                },
            }
        } else {
            RpdoStep { od, ..self }
        }
    }

    /// The mapped values from number `k` on are written, the first of them
    /// from bit `at` on. The first value that is not all in the payload ends
    /// the reception.
    pub open spec fn receive(
        self,
        capacity: nat,
        data: Seq<u8>,
        mappings: Seq<PdoMapping>,
        k: int,
        at: int,
    ) -> RpdoStep<OD>
        decreases mappings.len() - k,
    {
        if k < 0 || k >= mappings.len() || at + mappings[k].bit_length > 8 * data.len() {
            self
        } else {
            let m = mappings[k];
            self.write(capacity, m, received_value(data, at, m.bit_length)).receive(
                capacity,
                data,
                mappings,
                k + 1,
                at + m.bit_length,
            )
        }
    }
}

/// The first enabled slot from `from` on that receives the given COB-ID.
pub open spec fn receiving_slot(pdos: Seq<RpdoView>, id: u16, from: int) -> Option<int>
    decreases pdos.len() - from,
{
    if from < 0 || from >= pdos.len() {
        None
    } else if pdos[from].enabled && pdos[from].cob_id == id {
        Some(from)
    } else {
        receiving_slot(pdos, id, from + 1)
    }
}

/// The state of an RPDO engine, slot by slot.
#[verifier::ext_equal]
pub struct RpdoModel {
    pub pdos: Seq<RpdoView>,
    /// When the last frame came (meaningful where `armed`).
    pub last_rx_us: Seq<u64>,
    /// A frame came since deadline monitoring was reset.
    pub armed: Seq<bool>,
    /// The deadline passed since the last frame.
    pub expired: Seq<bool>,
}

impl RpdoModel {
    /// A new engine.
    pub open spec fn fresh(pdos: Seq<RpdoView>) -> RpdoModel {
        RpdoModel {
            pdos,
            last_rx_us: Seq::new(pdos.len(), |i: int| 0u64),
            armed: Seq::new(pdos.len(), |i: int| false),
            expired: Seq::new(pdos.len(), |i: int| false),
        }
    }

    /// The slot of a PDO number.
    pub open spec fn slot_of(self, number: PdoNumber) -> Option<int> {
        first_slot(rpdo_numbers(self.pdos), number.raw() as int, 0)
    }

    /// The slot that receives a frame.
    pub open spec fn receiver(self, frame: FrameView) -> Option<int> {
        receiving_slot(self.pdos, frame.id, 0)
    }

    /// The engine after a frame.
    pub open spec fn received(self, frame: FrameView, now: u64) -> RpdoModel {
        match self.receiver(frame) {
            Some(slot) => RpdoModel {
                pdos: self.pdos,
                last_rx_us: self.last_rx_us.update(slot, now),
                armed: self.armed.update(slot, true),
                expired: self.expired.update(slot, false),
            },
            None => self,
        }
    }

    /// What a frame does to the dictionary and the event queue.
    pub open spec fn effect<OD: OdContents>(
        self,
        frame: FrameView,
        od: OD,
        events: Seq<OdEvent>,
        capacity: nat,
    ) -> RpdoStep<OD> {
        let start = RpdoStep { od, events, dropped: 0 };
        match self.receiver(frame) {
            Some(slot) => start.receive(capacity, frame.data, self.pdos[slot].mappings, 0, 0),
            None => start,
        }
    }

    /// The reception of a slot is monitored.
    pub open spec fn is_monitored(self, i: int) -> bool {
        self.pdos[i].enabled && self.pdos[i].deadline_ms > 0
    }

    /// The deadline of a slot passes unnoticed so far.
    pub open spec fn newly_expired(self, i: int, now: u64) -> bool {
        &&& self.is_monitored(i)
        &&& self.armed[i]
        &&& !self.expired[i]
        &&& elapsed_us(now, self.last_rx_us[i]) > self.pdos[i].deadline_ms * 1000
    }

    /// The engine after the deadlines were checked.
    pub open spec fn checked(self, now: u64) -> RpdoModel {
        RpdoModel {
            expired: Seq::new(
                self.pdos.len(),
                |i: int| self.expired[i] || self.newly_expired(i, now),
            ),
            ..self
        }
    }

    /// The numbers of the newly expired PDOs among the first `n` slots.
    pub open spec fn expired_numbers(self, now: u64, n: int) -> Seq<int>
        decreases n,
    {
        if n <= 0 {
            Seq::empty()
        } else {
            let front = self.expired_numbers(now, n - 1);
            let number = spec_number_for_slot(self.pdos[n - 1].od_number, n - 1);
            if self.newly_expired(n - 1, now) && number <= 512 {
                front.push(number)
            } else {
                front
            }
        }
    }

    /// A monitored PDO has no data that came within its deadline.
    pub open spec fn lacks_data(self, i: int) -> bool {
        self.is_monitored(i) && (!self.armed[i] || self.expired[i])
    }

    /// The engine after deadline monitoring was reset.
    pub open spec fn monitoring_reset(self) -> RpdoModel {
        RpdoModel {
            armed: Seq::new(self.pdos.len(), |i: int| false),
            expired: Seq::new(self.pdos.len(), |i: int| false),
            ..self
        }
    }
}

/// The raw numbers of PDO numbers.
pub open spec fn raw_numbers(numbers: Seq<PdoNumber>) -> Seq<int> {
    numbers.map_values(|p: PdoNumber| p.raw() as int)
}

/// RPDO engine. Manages up to N receive PDOs.
///
/// Optionally performs deadline monitoring per slot (CiA 301 RPDO event
/// timer): when `RpdoConfig::deadline_ms` is nonzero, monitoring arms on
/// the first received frame and `check_deadlines` flags slots whose silence
/// exceeds the deadline. Detection latency equals the caller's polling period.
pub struct RpdoEngine<const N: usize> {
    pdos: [RpdoConfig; N],
    last_rx_us: [u64; N],
    armed: [bool; N],
    expired: [bool; N],
}

impl<const N: usize> View for RpdoEngine<N> {
    type V = RpdoModel;

    closed spec fn view(&self) -> RpdoModel {
        RpdoModel {
            pdos: rpdo_views(self.pdos@),
            last_rx_us: self.last_rx_us@,
            armed: self.armed@,
            expired: self.expired@,
        }
    }
}

impl<const N: usize> RpdoEngine<N> {
    pub fn new(pdos: [RpdoConfig; N]) -> (r: Self)
        ensures
            r@ == RpdoModel::fresh(rpdo_views(pdos@)),
    {
        let r = RpdoEngine {
            pdos,
            last_rx_us: [0u64; N],
            armed: [false; N],
            expired: [false; N],
        };
        assert(r@ =~= RpdoModel::fresh(rpdo_views(pdos@)));
        r
    }

    /// Every slot has a configuration and its counters.
    pub proof fn lemma_slots(&self)
        ensures
            self@.pdos.len() == N,
            self@.last_rx_us.len() == N,
            self@.armed.len() == N,
            self@.expired.len() == N,
    {
    }

    /// Config of the PDO in a slot.
    pub(crate) fn config_slot(&self, slot: usize) -> (r: &RpdoConfig)
        requires
            slot < N,
        ensures
            r@ == self@.pdos[slot as int],
    {
        &self.pdos[slot]
    }

    /// Replace the config of the PDO in a slot.
    pub(crate) fn set_config_slot(&mut self, slot: usize, config: RpdoConfig)
        requires
            slot < N,
        ensures
            final(self)@ == (RpdoModel {
                pdos: old(self)@.pdos.update(slot as int, config@),
                ..old(self)@
            }),
    {
        self.pdos[slot] = config;
        assert(self@.pdos =~= old(self)@.pdos.update(slot as int, config@));
    }

    /// Config of the RPDO with the given CANopen number (RPDO1 = 1), if declared.
    pub fn config(&self, number: PdoNumber) -> (r: Option<&RpdoConfig>)
        ensures
            match r {
                Some(c) => self@.slot_of(number) matches Some(s) && c@ == self@.pdos[s],
                None => self@.slot_of(number) is None,
            },
    {
        match self.slot_for_number(number) {
            Some(s) => Some(&self.pdos[s]),
            None => None,
        }
    }

    /// Mutable config of the RPDO with the given CANopen number, if declared.
    pub fn config_mut(&mut self, number: PdoNumber) -> (r: Option<&mut RpdoConfig>)
        ensures
            match r {
                Some(c) => {
                    &&& old(self)@.slot_of(number) matches Some(s)
                    &&& c@ == old(self)@.pdos[s]
                    &&& final(self)@ == (RpdoModel {
                        pdos: old(self)@.pdos.update(s, final(c)@),
                        ..old(self)@
                    })
                },
                None => old(self)@.slot_of(number) is None && final(self)@ == old(self)@,
            },
    {
        match self.slot_for_number(number) {
            Some(s) => Some(&mut self.pdos[s]),
            None => None,
        }
    }

    fn slot_for_number(&self, number: PdoNumber) -> (r: Option<usize>)
        ensures
            match r {
                Some(s) => s < N && self@.slot_of(number) == Some(s as int),
                None => self@.slot_of(number) is None,
            },
    {
        let mut slot: usize = 0;
        while slot < N
            invariant
                slot <= N,
                self@.pdos.len() == N,
                self@.slot_of(number) == first_slot(
                    rpdo_numbers(self@.pdos),
                    number.raw() as int,
                    slot as int,
                ),
            decreases N - slot,
        {
            let c = &self.pdos[slot];
            assert(c@ == self@.pdos[slot as int]);
            if !c.is_placeholder() {
                let raw: u16 = number.raw();
                if let Some(p) = pdo_number_for_slot(c.od_number, slot) {
                    if p.raw() == raw {
                        return Some(slot);
                    }
                }
            }
            slot += 1;
        }
        None
    }

    /// Process an incoming CAN frame. If it matches an RPDO, write mapped values to OD.
    /// Returns true if the frame was consumed by an RPDO.
    ///
    /// Pushes one `OdEvent` per successfully written mapped entry.
    /// `now_us` stamps the reception time for deadline monitoring; reception
    /// re-arms an expired deadline.
    pub fn process<OD: ObjectDictionary, const EVT_QUEUE: usize>(
        &mut self,
        frame: &CanFrame,
        od: &mut OD,
        events: &mut BoundedQueue<OdEvent, EVT_QUEUE>,
        now_us: u64,
    ) -> (consumed: bool)
        ensures
            consumed == (old(self)@.receiver(frame@) is Some),
            final(self)@ == old(self)@.received(frame@, now_us),
            ({
                let step = old(self)@.effect(frame@, old(od).contents(), old(events)@, EVT_QUEUE as nat);
                final(od).contents() == step.od && final(events)@ == step.events
            }),
    {
        self.process_with_drop_count(frame, od, events, now_us).0
    }

    /// Process an incoming CAN frame, as `process` does, and count the events
    /// that were lost because the queue was full.
    pub fn process_with_drop_count<OD: ObjectDictionary, const EVT_QUEUE: usize>(
        &mut self,
        frame: &CanFrame,
        od: &mut OD,
        events: &mut BoundedQueue<OdEvent, EVT_QUEUE>,
        now_us: u64,
    ) -> (r: (bool, u32))
        ensures
            r.0 == (old(self)@.receiver(frame@) is Some),
            final(self)@ == old(self)@.received(frame@, now_us),
            ({
                let step = old(self)@.effect(frame@, old(od).contents(), old(events)@, EVT_QUEUE as nat);
                final(od).contents() == step.od && final(events)@ == step.events && r.1 == step.dropped
            }),
    {
        let id: u16 = frame.raw_id();
        let mut slot: usize = 0;
        while slot < N
            invariant
                slot <= N,
                id == frame@.id,
                *self == *old(self),
                od.contents() == old(od).contents(),
                events@ == old(events)@,
                self@.pdos.len() == N,
                self@.receiver(frame@) == receiving_slot(self@.pdos, id, slot as int),
            decreases N - slot,
        {
            assert(self.pdos[slot as int]@ == self@.pdos[slot as int]);
            if self.pdos[slot].enabled && self.pdos[slot].cob_id == id {
                let ghost before = self@;
                self.last_rx_us[slot] = now_us;
                self.armed[slot] = true;
                self.expired[slot] = false;
                assert(self@ =~= before.received(frame@, now_us));
                let dropped: u32 = receive_mapped(
                    &self.pdos[slot],
                    frame.data(),
                    od,
                    events,
                );
                return (true, dropped);
            }
            slot += 1;
        }
        (false, 0)
    }

    /// Check all RPDOs for expired deadlines. Appends the CANopen PDO number
    /// of each *newly* expired RPDO to `out` (edge-triggered: fires once
    /// per silence period and re-arms on the next reception).
    ///
    /// An RPDO is monitored when it is enabled, has a nonzero `deadline_ms`,
    /// and has received at least one frame. The comparison is strictly
    /// `elapsed > deadline`. A number above 512 sets the level flag but cannot
    /// be reported.
    pub fn check_deadlines(&mut self, now_us: u64, out: &mut Vec<PdoNumber>)
        ensures
            final(self)@ == old(self)@.checked(now_us),
            raw_numbers(final(out)@) == raw_numbers(old(out)@) + old(self)@.expired_numbers(
                now_us,
                N as int,
            ),
    {
        let ghost m = self@;
        let ghost before = raw_numbers(out@);
        let mut slot: usize = 0;
        assert(before + Seq::<int>::empty() =~= before);
        while slot < N
            invariant
                slot <= N,
                m.pdos.len() == N,
                m.expired.len() == N,
                self@.pdos == m.pdos,
                self@.last_rx_us == m.last_rx_us,
                self@.armed == m.armed,
                self.expired@.len() == N,
                forall|j: int| 0 <= j < slot ==> self@.expired[j] == m.checked(now_us).expired[j],
                forall|j: int| slot <= j < N ==> self@.expired[j] == m.expired[j],
                raw_numbers(out@) == before + m.expired_numbers(now_us, slot as int),
            decreases N - slot,
        {
            assert(m.pdos[slot as int] == self.pdos[slot as int]@);
            let deadline_us: u64 = self.pdos[slot].deadline_ms as u64 * 1000;
            if self.pdos[slot].enabled && deadline_us > 0 && self.armed[slot]
                && !self.expired[slot] && now_us.wrapping_sub(self.last_rx_us[slot])
                > deadline_us {
                assert(m.newly_expired(slot as int, now_us));
                self.expired[slot] = true;
                if let Some(number) = pdo_number_for_slot(self.pdos[slot].od_number, slot) {
                    let ghost so_far = out@;
                    out.push(number);
                    assert(raw_numbers(out@) =~= raw_numbers(so_far).push(number.raw() as int));
                }
            } else {
                assert(!m.newly_expired(slot as int, now_us));
            }
            assert(self@.expired[slot as int] == m.checked(now_us).expired[slot as int]);
            slot += 1;
        }
        assert(self@ =~= m.checked(now_us));
    }

    /// Level query: does the RPDO with the given CANopen number lack an
    /// in-deadline reception?
    ///
    /// `true` whenever a monitored RPDO (enabled, nonzero `deadline_ms`) has
    /// no fresh data: initially, before the first frame ever arrives, and
    /// again from expiry until the next reception. Unmonitored or undeclared
    /// RPDOs always read `false`.
    pub fn deadline_expired(&self, number: PdoNumber) -> (r: bool)
        ensures
            r == (self@.slot_of(number) matches Some(s) && self@.lacks_data(s)),
    {
        match self.slot_for_number(number) {
            Some(slot) => {
                assert(self@.pdos[slot as int] == self.pdos[slot as int]@);
                self.pdos[slot].enabled && self.pdos[slot].deadline_ms > 0 && (!self.armed[slot]
                    || self.expired[slot])
            },
            None => false,
        }
    }

    /// Forget all deadline monitoring state (arm flags, expiry flags).
    ///
    /// Called when leaving Operational: PDO traffic legitimately stops there,
    /// so silence must not count against the deadline. Monitoring re-arms per
    /// slot on the first reception after returning to Operational.
    pub fn reset_deadline_monitoring(&mut self)
        ensures
            final(self)@ == old(self)@.monitoring_reset(),
    {
        self.armed = [false; N];
        self.expired = [false; N];
        assert(self@ =~= old(self)@.monitoring_reset());
    }
}

/// Write the values of a received PDO. Returns the number of lost events.
fn receive_mapped<OD: ObjectDictionary, const EVT_QUEUE: usize>(
    pdo: &RpdoConfig,
    data: &[u8],
    od: &mut OD,
    events: &mut BoundedQueue<OdEvent, EVT_QUEUE>,
) -> (dropped: u32)
    requires
        data@.len() <= 8,
    ensures
        ({
            let step = (RpdoStep { od: old(od).contents(), events: old(events)@, dropped: 0 }).receive(
                EVT_QUEUE as nat,
                data@,
                pdo@.mappings,
                0,
                0,
            );
            final(od).contents() == step.od && final(events)@ == step.events && dropped == step.dropped
        }),
{
    let ghost cap = EVT_QUEUE as nat;
    let ghost goal = (RpdoStep { od: od.contents(), events: events@, dropped: 0 }).receive(
        cap,
        data@,
        pdo@.mappings,
        0,
        0,
    );
    let mut bits: Vec<bool> = Vec::new();
    append_bits(&mut bits, data, 8 * data.len());
    assert(bits@ =~= bits_of(data@));
    let n: usize = mapping_count(&pdo.mappings);
    let mut dropped: u32 = 0;
    let mut at: usize = 0;
    let mut k: usize = 0;
    while k < n
        invariant
            k <= n <= 64,
            dropped <= k,
            at <= 64,
            data@.len() <= 8,
            n == pdo@.mappings.len(),
            cap == EVT_QUEUE,
            bits@ == bits_of(data@),
            goal == (RpdoStep { od: old(od).contents(), events: old(events)@, dropped: 0 }).receive(
                cap,
                data@,
                pdo@.mappings,
                0,
                0,
            ),
            goal == (RpdoStep { od: od.contents(), events: events@, dropped: dropped as int }).receive(
                cap,
                data@,
                pdo@.mappings,
                k as int,
                at as int,
            ),
        decreases n - k,
    {
        let m = mapping_at(&pdo.mappings, k);
        assert(m == pdo@.mappings[k as int]);
        if at + m.bit_length as usize > bits.len() {
            return dropped;
        }
        let value = extract(&bits, at, m.bit_length as usize);
        assert(value@ == received_value(data@, at as int, m.bit_length));
        if od.write(m.index, m.subindex, value.as_slice()).is_ok() {
            let event = OdEvent {
                index: m.index,
                subindex: m.subindex,
                source: OdEventSource::Rpdo,
            };
            if events.push_evicting(event) {
                dropped += 1;
            }
        }
        at += m.bit_length as usize;
        k += 1;
    }
    dropped
}

/// Pack some of the given bits.
fn extract(bits: &Vec<bool>, at: usize, count: usize) -> (r: Vec<u8>)
    requires
        at + count <= bits@.len() <= 64,
    ensures
        r@ == bytes_of(bits@.subrange(at as int, at + count)),
{
    let mut part: Vec<bool> = Vec::new();
    while part.len() < count
        invariant
            part@.len() <= count,
            at + count <= bits@.len() <= 64,
            part@ == bits@.subrange(at as int, at + part@.len()),
        decreases count - part@.len(),
    {
        part.push(bits[at + part.len()]);
        assert(part@ =~= bits@.subrange(at as int, at + part@.len()));
    }
    pack_bits(&part)
}

// ---- Laws ----

/// The bits that the first `k` mappings take.
pub open spec fn bits_before(mappings: Seq<PdoMapping>, k: int) -> int
    decreases k,
{
    if k <= 0 {
        0
    } else {
        bits_before(mappings, k - 1) + mappings[k - 1].bit_length
    }
}

/// The value at its place in the bits of a PDO.
proof fn lemma_value_in_bits<OD: OdContents>(od: OD, mappings: Seq<PdoMapping>, k: int)
    requires
        0 <= k < mappings.len(),
        pdo_bits(od, mappings) is Some,
    ensures
        mapped_bits(od, mappings[k]) is Some,
        pdo_bits(od, mappings)->0.len() <= 64,
        bits_before(mappings, mappings.len() as int) == pdo_bits(od, mappings)->0.len(),
        0 <= bits_before(mappings, k),
        bits_before(mappings, k) + mappings[k].bit_length <= pdo_bits(od, mappings)->0.len(),
        pdo_bits(od, mappings)->0.subrange(
            bits_before(mappings, k),
            bits_before(mappings, k) + mappings[k].bit_length,
        ) == mapped_bits(od, mappings[k])->0,
    decreases mappings.len(),
{
    let front = mappings.drop_last();
    let n = front.len() as int;
    let all = pdo_bits(od, mappings)->0;
    lemma_bits_before_prefix(mappings, n, k);
    lemma_bits_before_prefix(mappings, n, n);
    lemma_mapped_bits_len(od, mappings.last());
    if n > 0 {
        lemma_value_in_bits(od, front, if k < n {
            k
        } else {
            0
        });
    }
    assert(bits_before(mappings, n) == pdo_bits(od, front)->0.len());
    if k < n {
        assert(front[k] == mappings[k]);
        assert(all.subrange(
            bits_before(mappings, k),
            bits_before(mappings, k) + mappings[k].bit_length,
        ) =~= pdo_bits(od, front)->0.subrange(
            bits_before(mappings, k),
            bits_before(mappings, k) + mappings[k].bit_length,
        ));
    } else {
        assert(all.subrange(bits_before(mappings, n), all.len() as int) =~= mapped_bits(
            od,
            mappings.last(),
        )->0);
    }
}

proof fn lemma_mapped_bits_len<OD: OdContents>(od: OD, m: PdoMapping)
    ensures
        mapped_bits(od, m) matches Some(v) ==> v.len() == m.bit_length,
{
}

proof fn lemma_bits_before_prefix(mappings: Seq<PdoMapping>, n: int, k: int)
    requires
        0 <= k <= n <= mappings.len(),
    ensures
        bits_before(mappings, k) == bits_before(mappings.take(n), k),
        0 <= bits_before(mappings, k),
    decreases k,
{
    if k > 0 {
        lemma_bits_before_prefix(mappings, n, k - 1);
    }
    assert(mappings.drop_last() =~= mappings.take(mappings.len() - 1));
}

/// What a transmit PDO sends, a receive PDO with mappings of the same lengths
/// gets: the value that it finds for each mapping is the one that the sender
/// read, cut to the mapped bits, which for a value of whole bytes is the value
/// itself.
pub proof fn lemma_pdo_delivers<OD: OdContents>(
    od: OD,
    pdo: TpdoView,
    value: Seq<u8>,
    k: int,
)
    requires
        pdo_frame(od, pdo) is Some,
        0 <= k < pdo.mappings.len(),
        od.read_result(
            pdo.mappings[k].index,
            pdo.mappings[k].subindex,
            bytes_for(pdo.mappings[k].bit_length as nat),
        ) == Ok::<Seq<u8>, crate::od::OdError>(value),
    ensures
        ({
            let m = pdo.mappings[k];
            let size = bytes_for(m.bit_length as nat);
            let got = received_value(
                pdo_frame(od, pdo)->0.data,
                bits_before(pdo.mappings, k),
                m.bit_length,
            );
            &&& got == bytes_of(bits_of(padded(value, size)).take(m.bit_length as int))
            &&& 8 * value.len() == m.bit_length ==> got == value
        }),
{
    let m = pdo.mappings[k];
    let size = bytes_for(m.bit_length as nat);
    let bits = pdo_bits(od, pdo.mappings)->0;
    let at = bits_before(pdo.mappings, k);
    lemma_value_in_bits(od, pdo.mappings, k);
    crate::pdo::bits::lemma_pack_then_unpack(bits);
    let sent = bits_of(bytes_of(bits));
    assert(sent.subrange(at, at + m.bit_length) =~= bits.subrange(at, at + m.bit_length)) by {
        assert forall|i: int| at <= i < at + m.bit_length implies sent[i] == bits[i] by {
            assert(sent.take(bits.len() as int)[i] == bits[i]);
        }
    }
    if 8 * value.len() == m.bit_length {
        assert(padded(value, size) =~= value);
        assert(bits_of(value).take(m.bit_length as int) =~= bits_of(value));
        crate::pdo::bits::lemma_unpack_then_pack(value);
    }
}

/// A value of whole bytes that starts at a whole byte is received as those
/// bytes of the payload.
pub proof fn lemma_aligned_value(data: Seq<u8>, at: int, len: int)
    requires
        0 <= at,
        0 <= len < 32,
        at + len <= data.len(),
    ensures
        received_value(data, 8 * at, (8 * len) as u8) == data.subrange(at, at + len),
{
    let part = data.subrange(at, at + len);
    let bits = bits_of(data).subrange(8 * at, 8 * at + 8 * len);
    assert forall|i: int| 0 <= i < 8 * len implies bits[i] == bits_of(part)[i] by {
        assert((8 * at + i) / 8 == at + i / 8);
        assert((8 * at + i) % 8 == i % 8);
    }
    assert(bits =~= bits_of(part));
    crate::pdo::bits::lemma_unpack_then_pack(part);
}

/// A dictionary after the first `n` values were written to mapped objects.
pub open spec fn values_written<OD: OdContents>(
    od: OD,
    mappings: Seq<PdoMapping>,
    values: Seq<Seq<u8>>,
    n: int,
) -> OD
    decreases n,
{
    if n <= 0 {
        od
    } else {
        values_written(od, mappings, values, n - 1).after_write(
            mappings[n - 1].index,
            mappings[n - 1].subindex,
            values[n - 1],
        )
    }
}

/// The writes of the first `n` values all succeed.
pub open spec fn writes_succeed<OD: OdContents>(
    od: OD,
    mappings: Seq<PdoMapping>,
    values: Seq<Seq<u8>>,
    n: int,
) -> bool {
    forall|k: int|
        0 <= k < n ==> #[trigger] values_written(od, mappings, values, k).write_result(
            mappings[k].index,
            mappings[k].subindex,
            values[k],
        ) is Ok
}

/// The values that a payload holds for mapped objects, one after the other.
pub open spec fn values_in(data: Seq<u8>, mappings: Seq<PdoMapping>) -> Seq<Seq<u8>> {
    Seq::new(
        mappings.len(),
        |k: int| received_value(data, bits_before(mappings, k), mappings[k].bit_length),
    )
}

proof fn lemma_receives<OD: OdContents>(
    step: RpdoStep<OD>,
    od: OD,
    events: Seq<OdEvent>,
    capacity: nat,
    data: Seq<u8>,
    mappings: Seq<PdoMapping>,
    k: int,
    n: int,
)
    requires
        0 <= k <= n <= mappings.len(),
        bits_before(mappings, n) <= 8 * data.len(),
        n < mappings.len() ==> bits_before(mappings, n + 1) > 8 * data.len(),
        step.od == values_written(od, mappings, values_in(data, mappings), k),
        writes_succeed(od, mappings, values_in(data, mappings), n) && events.len() + n <= capacity
            ==> step.dropped == 0 && step.events == events + Seq::new(
            k as nat,
            |j: int|
                OdEvent {
                    index: mappings[j].index,
                    subindex: mappings[j].subindex,
                    source: OdEventSource::Rpdo,
                },
        ),
    ensures
        ({
            let end = step.receive(capacity, data, mappings, k, bits_before(mappings, k));
            let values = values_in(data, mappings);
            &&& end.od == values_written(od, mappings, values, n)
            &&& writes_succeed(od, mappings, values, n) && events.len() + n <= capacity
                ==> end.dropped == 0 && end.events == events + Seq::new(
                n as nat,
                |j: int|
                    OdEvent {
                        index: mappings[j].index,
                        subindex: mappings[j].subindex,
                        source: OdEventSource::Rpdo,
                    },
            )
        }),
    decreases n - k,
{
    let values = values_in(data, mappings);
    if k < n {
        lemma_bits_grow(mappings, k + 1, n);
        let next = step.write(capacity, mappings[k], values[k]);
        if writes_succeed(od, mappings, values, n) && events.len() + n <= capacity {
            assert(values_written(od, mappings, values, k).write_result(
                mappings[k].index,
                mappings[k].subindex,
                values[k],
            ) is Ok);
            assert(next.events =~= events + Seq::new(
                (k + 1) as nat,
                |j: int|
                    OdEvent {
                        index: mappings[j].index,
                        subindex: mappings[j].subindex,
                        source: OdEventSource::Rpdo,
                    },
            ));
        }
        lemma_receives(next, od, events, capacity, data, mappings, k + 1, n);
    }
}

proof fn lemma_bits_grow(mappings: Seq<PdoMapping>, k: int, n: int)
    requires
        0 <= k <= n <= mappings.len(),
    ensures
        bits_before(mappings, k) <= bits_before(mappings, n),
    decreases n - k,
{
    if k < n {
        lemma_bits_grow(mappings, k, n - 1);
    }
}

/// A frame with the COB-ID of an enabled PDO brings the mapped objects the
/// values that the payload holds for them, one after the other, and announces
/// each of them. What does not fit into the payload any more is left alone. The
/// first PDO with the COB-ID gets the frame, and no other frame changes
/// anything.
pub proof fn lemma_reception<OD: OdContents>(
    m: RpdoModel,
    frame: FrameView,
    od: OD,
    events: Seq<OdEvent>,
    capacity: nat,
    i: int,
    n: int,
)
    requires
        0 <= i < m.pdos.len(),
        m.pdos[i].enabled,
        m.pdos[i].cob_id == frame.id,
        forall|j: int| 0 <= j < i ==> !((#[trigger] m.pdos[j]).enabled && m.pdos[j].cob_id == frame.id),
        0 <= n <= m.pdos[i].mappings.len(),
        bits_before(m.pdos[i].mappings, n) <= 8 * frame.data.len(),
        n < m.pdos[i].mappings.len() ==> bits_before(m.pdos[i].mappings, n + 1) > 8
            * frame.data.len(),
    ensures
        ({
            let mappings = m.pdos[i].mappings;
            let values = values_in(frame.data, mappings);
            let end = m.effect(frame, od, events, capacity);
            &&& m.receiver(frame) == Some(i)
            &&& end.od == values_written(od, mappings, values, n)
            &&& writes_succeed(od, mappings, values, n) && events.len() + n <= capacity
                ==> end.dropped == 0 && end.events == events + Seq::new(
                n as nat,
                |j: int|
                    OdEvent {
                        index: mappings[j].index,
                        subindex: mappings[j].subindex,
                        source: OdEventSource::Rpdo,
                    },
            )
        }),
{
    lemma_receiver(m.pdos, frame.id, 0, i);
    let start = RpdoStep { od, events, dropped: 0 };
    assert(start.events =~= events + Seq::new(
        0,
        |j: int|
            OdEvent {
                index: m.pdos[i].mappings[j].index,
                subindex: m.pdos[i].mappings[j].subindex,
                source: OdEventSource::Rpdo,
            },
    ));
    lemma_receives(start, od, events, capacity, frame.data, m.pdos[i].mappings, 0, n);
}

proof fn lemma_receiver(pdos: Seq<RpdoView>, id: u16, from: int, i: int)
    requires
        0 <= from <= i < pdos.len(),
        pdos[i].enabled && pdos[i].cob_id == id,
        forall|j: int| from <= j < i ==> !((#[trigger] pdos[j]).enabled && pdos[j].cob_id == id),
    ensures
        receiving_slot(pdos, id, from) == Some(i),
    decreases i - from,
{
    if from < i {
        lemma_receiver(pdos, id, from + 1, i);
    }
}

/// A frame with a COB-ID that no enabled PDO has changes nothing.
pub proof fn lemma_foreign_frame_is_ignored<OD: OdContents>(
    m: RpdoModel,
    frame: FrameView,
    od: OD,
    events: Seq<OdEvent>,
    capacity: nat,
    now: u64,
)
    requires
        forall|j: int|
            0 <= j < m.pdos.len() ==> !((#[trigger] m.pdos[j]).enabled && m.pdos[j].cob_id
                == frame.id),
    ensures
        m.receiver(frame) is None,
        m.received(frame, now) == m,
        m.effect(frame, od, events, capacity).od == od,
        m.effect(frame, od, events, capacity).events == events,
        m.effect(frame, od, events, capacity).dropped == 0,
{
    lemma_no_receiver(m.pdos, frame.id, 0);
}

proof fn lemma_no_receiver(pdos: Seq<RpdoView>, id: u16, from: int)
    requires
        0 <= from <= pdos.len(),
        forall|j: int| from <= j < pdos.len() ==> !((#[trigger] pdos[j]).enabled && pdos[j].cob_id == id),
    ensures
        receiving_slot(pdos, id, from) is None,
    decreases pdos.len() - from,
{
    if from < pdos.len() {
        lemma_no_receiver(pdos, id, from + 1);
    }
}

/// A monitored PDO lacks data before its first frame, and from the moment at
/// which its last frame is older than its deadline until the next one. Nothing
/// is reported of a PDO that is disabled or has no deadline.
pub proof fn lemma_deadline(m: RpdoModel, i: int, now: u64)
    requires
        0 <= i < m.pdos.len(),
    ensures
        !m.pdos[i].enabled || m.pdos[i].deadline_ms == 0 ==> !m.newly_expired(i, now)
            && !m.lacks_data(i),
        m.pdos[i].enabled && m.pdos[i].deadline_ms > 0 && !m.armed[i] ==> m.lacks_data(i),
        m.pdos[i].enabled && m.pdos[i].deadline_ms > 0 && m.armed[i] && !m.expired[i] ==> {
            let late = elapsed_us(now, m.last_rx_us[i]) > 1000 * m.pdos[i].deadline_ms;
            &&& m.newly_expired(i, now) <==> late
            &&& m.checked(now).lacks_data(i) <==> late
            &&& !m.lacks_data(i)
        },
        m.checked(now).pdos == m.pdos,
        m.checked(now).armed == m.armed,
        m.checked(now).last_rx_us == m.last_rx_us,
{
}

/// Only an enabled PDO with a transmission type from 1 to 240 is sent on SYNC,
/// and one of type 1 on every SYNC. The other PDOs do not count the SYNCs.
pub proof fn lemma_sync_types(m: TpdoModel, i: int)
    requires
        0 <= i < m.pdos.len(),
    ensures
        m.due_on_sync()[i] ==> m.pdos[i].enabled && 1 <= m.pdos[i].transmission_type <= 240,
        m.pdos[i].enabled && m.pdos[i].transmission_type == 1 ==> m.due_on_sync()[i],
        m.pdos[i].enabled && 1 <= m.pdos[i].transmission_type <= 240 && m.sync_counter[i]
            == m.pdos[i].transmission_type - 1 ==> m.due_on_sync()[i]
            && m.after_sync().sync_counter[i] == 0,
        m.pdos[i].enabled && 1 <= m.pdos[i].transmission_type <= 240 && m.sync_counter[i]
            < m.pdos[i].transmission_type - 1 ==> !m.due_on_sync()[i]
            && m.after_sync().sync_counter[i] == m.sync_counter[i] + 1,
        !m.pdos[i].enabled || m.pdos[i].transmission_type == 0 || m.pdos[i].transmission_type > 240
            ==> m.after_sync().sync_counter[i] == m.sync_counter[i],
        m.after_sync().last_send_us == m.last_send_us,
        m.after_sync().pdos == m.pdos,
{
}

/// A deadline is reported once per silence period: after it was reported the
/// next check is silent about that PDO until a frame arrives. Before the first
/// frame nothing is reported.
pub proof fn lemma_deadline_fires_once(m: RpdoModel, i: int, now: u64, later: u64)
    requires
        0 <= i < m.pdos.len(),
    ensures
        m.newly_expired(i, now) ==> !m.checked(now).newly_expired(i, later) && m.checked(
            now,
        ).lacks_data(i),
        !m.armed[i] ==> !m.newly_expired(i, now),
{
}

/// Reception gives a monitored PDO fresh data again.
pub proof fn lemma_reception_clears_deadline(m: RpdoModel, frame: FrameView, now: u64)
    requires
        m.receiver(frame) matches Some(s) && 0 <= s < m.pdos.len() && m.armed.len() == m.pdos.len()
            && m.expired.len() == m.pdos.len(),
    ensures
        !m.received(frame, now).lacks_data(m.receiver(frame)->0),
        m.received(frame, now).pdos == m.pdos,
{
}

/// A cyclic PDO of type `n` is sent on the `n`-th SYNC after a transmission and
/// not before.
pub proof fn lemma_cyclic_transmission(m: TpdoModel, i: int, c: int)
    requires
        0 <= i < m.pdos.len(),
        m.is_cyclic(i),
        0 <= c < m.pdos[i].transmission_type,
        m.sync_counter[i] == c,
    ensures
        m.due_on_sync()[i] <==> c == m.pdos[i].transmission_type - 1,
        m.after_sync().sync_counter[i] == (if m.due_on_sync()[i] {
            0
        } else {
            c + 1
        }),
{
}

/// After a transmission an event-driven PDO without an event timer is silent
/// for its inhibit time, whatever changes.
pub proof fn lemma_inhibit_time(
    m: TpdoModel,
    i: int,
    now: u64,
    dirty: Seq<(u16, u8)>,
    later: u64,
    changed: Seq<(u16, u8)>,
)
    requires
        0 <= i < m.pdos.len(),
        m.due_on_poll(now, dirty)[i],
        m.pdos[i].event_timer_ms == 0,
        elapsed_us(later, now) < m.pdos[i].inhibit_time_100us * 100,
    ensures
        !m.after_poll(now, dirty).due_on_poll(later, changed)[i],
{
}

/// An enabled event-driven PDO with an event timer is sent whenever the timer
/// has elapsed since its last transmission, even if nothing changed.
pub proof fn lemma_event_timer(m: TpdoModel, i: int, now: u64, dirty: Seq<(u16, u8)>)
    requires
        0 <= i < m.pdos.len(),
        m.pdos[i].enabled,
        m.pdos[i].transmission_type >= 254,
        0 < m.pdos[i].event_timer_ms,
        elapsed_us(now, m.last_send_us[i]) >= m.pdos[i].event_timer_ms * 1000,
    ensures
        m.due_on_poll(now, dirty)[i],
        m.after_poll(now, dirty).last_send_us[i] == now,
{
}

/// A change of any of its mapped entries makes an enabled event-driven PDO be
/// sent, unless its inhibit time has not elapsed yet.
pub proof fn lemma_change_is_sent(m: TpdoModel, i: int, k: int, now: u64, dirty: Seq<(u16, u8)>)
    requires
        0 <= i < m.pdos.len(),
        m.pdos[i].enabled,
        m.pdos[i].transmission_type == 254 || m.pdos[i].transmission_type == 255,
        0 <= k < m.pdos[i].mappings.len(),
        dirty.contains((m.pdos[i].mappings[k].index, m.pdos[i].mappings[k].subindex)),
        elapsed_us(now, m.last_send_us[i]) >= m.pdos[i].inhibit_time_100us * 100,
    ensures
        m.due_on_poll(now, dirty)[i],
        m.after_poll(now, dirty).last_send_us[i] == now,
{
    let d = choose|d: int|
        0 <= d < dirty.len() && dirty[d] == (
            m.pdos[i].mappings[k].index,
            m.pdos[i].mappings[k].subindex,
        );
    assert(dirty[d] == (m.pdos[i].mappings[k].index, m.pdos[i].mappings[k].subindex));
}

/// A PDO is sent on a poll only if it is enabled and event-driven, and either
/// one of its mapped entries changed and the inhibit time has elapsed, or its
/// event timer has. Nothing but the time of its transmission changes.
pub proof fn lemma_nothing_else_is_sent(m: TpdoModel, i: int, now: u64, dirty: Seq<(u16, u8)>)
    requires
        0 <= i < m.pdos.len(),
        m.last_send_us.len() == m.pdos.len(),
    ensures
        m.due_on_poll(now, dirty)[i] ==> {
            let pdo = m.pdos[i];
            &&& pdo.enabled
            &&& pdo.transmission_type == 254 || pdo.transmission_type == 255
            &&& {
                ||| elapsed_us(now, m.last_send_us[i]) >= pdo.inhibit_time_100us * 100 && exists|
                    k: int,
                |
                    0 <= k < pdo.mappings.len() && dirty.contains(
                        ((#[trigger] pdo.mappings[k]).index, pdo.mappings[k].subindex),
                    )
                ||| pdo.event_timer_ms > 0 && elapsed_us(now, m.last_send_us[i]) / 1000
                    >= pdo.event_timer_ms
            }
        },
        !m.due_on_poll(now, dirty)[i] ==> m.after_poll(now, dirty).last_send_us[i]
            == m.last_send_us[i],
        m.after_poll(now, dirty).pdos == m.pdos,
        m.after_poll(now, dirty).sync_counter == m.sync_counter,
{
    if m.maps_any(i, dirty) {
        let (k, d) = choose|k: int, d: int|
            0 <= k < m.pdos[i].mappings.len() && 0 <= d < dirty.len() && #[trigger] dirty[d] == (
                (#[trigger] m.pdos[i].mappings[k]).index,
                m.pdos[i].mappings[k].subindex,
            );
        assert(dirty.contains((m.pdos[i].mappings[k].index, m.pdos[i].mappings[k].subindex)));
    }
}

/// Of the PDOs that are due exactly those whose frame can be built are sent, in
/// the order of their slots.
pub proof fn lemma_due_frames_in_order<OD: OdContents>(
    od: OD,
    pdos: Seq<TpdoView>,
    due: Seq<bool>,
    n: int,
)
    requires
        0 <= n < due.len() <= pdos.len(),
    ensures
        due_frames(od, pdos, Seq::empty()) == Seq::<FrameView>::empty(),
        due_frames(od, pdos, due.take(n + 1)) == due_frames(od, pdos, due.take(n)) + (match pdo_frame(
            od,
            pdos[n],
        ) {
            Some(frame) => if due[n] {
                seq![frame]
            } else {
                Seq::empty()
            },
            None => Seq::empty(),
        }),
        due_frames(od, pdos, due.take(n)).len() <= n,
    decreases n,
{
    assert(due.take(n + 1).drop_last() =~= due.take(n));
    let front = due_frames(od, pdos, due.take(n));
    assert(front + Seq::<FrameView>::empty() =~= front);
    if n > 0 {
        lemma_due_frames_in_order(od, pdos, due, n - 1);
    }
}

/// A PDO is sent under its COB-ID, as long as its mapped objects are together,
/// if all of them can be read and take no more than the 64 bits of a frame.
pub proof fn lemma_pdo_can_be_sent<OD: OdContents>(od: OD, pdo: TpdoView)
    requires
        pdo.cob_id <= 0x7FF,
        bits_before(pdo.mappings, pdo.mappings.len() as int) <= 64,
        forall|k: int|
            0 <= k < pdo.mappings.len() ==> od.read_result(
                (#[trigger] pdo.mappings[k]).index,
                pdo.mappings[k].subindex,
                ((pdo.mappings[k].bit_length + 7) / 8) as nat,
            ) is Ok,
    ensures
        pdo_frame(od, pdo) matches Some(f) && f.id == pdo.cob_id && f.data.len() == (bits_before(
            pdo.mappings,
            pdo.mappings.len() as int,
        ) + 7) / 8,
{
    lemma_all_readable(od, pdo.mappings);
}

proof fn lemma_all_readable<OD: OdContents>(od: OD, mappings: Seq<PdoMapping>)
    requires
        bits_before(mappings, mappings.len() as int) <= 64,
        forall|k: int|
            0 <= k < mappings.len() ==> od.read_result(
                (#[trigger] mappings[k]).index,
                mappings[k].subindex,
                ((mappings[k].bit_length + 7) / 8) as nat,
            ) is Ok,
    ensures
        pdo_bits(od, mappings) matches Some(b) && b.len() == bits_before(
            mappings,
            mappings.len() as int,
        ),
    decreases mappings.len(),
{
    if mappings.len() > 0 {
        let n = mappings.len() - 1;
        lemma_bits_before_prefix(mappings, n, n);
        assert(mappings.drop_last() =~= mappings.take(n));
        assert(mappings.last() == mappings[n]);
        assert forall|k: int| 0 <= k < n implies od.read_result(
            (#[trigger] mappings.drop_last()[k]).index,
            mappings.drop_last()[k].subindex,
            ((mappings.drop_last()[k].bit_length + 7) / 8) as nat,
        ) is Ok by {
            assert(mappings.drop_last()[k] == mappings[k]);
        }
        lemma_all_readable(od, mappings.drop_last());
        lemma_mapped_bits_len(od, mappings.last());
    }
}

/// A PDO that is sent on SYNC is not sent because an entry changed.
pub proof fn lemma_sync_pdo_ignores_changes(
    m: TpdoModel,
    i: int,
    now: u64,
    dirty: Seq<(u16, u8)>,
)
    requires
        0 <= i < m.pdos.len(),
        m.is_cyclic(i),
    ensures
        !m.due_on_poll(now, dirty)[i],
{
}

/// An undeclared PDO number addresses no slot, and a declared one only a slot
/// that has that number.
pub proof fn lemma_addressing(m: TpdoModel, number: PdoNumber)
    ensures
        m.slot_of(number) matches Some(s) ==> 0 <= s < m.pdos.len() && !m.pdos[s].is_placeholder()
            && spec_number_for_slot(m.pdos[s].od_number, s) == number.raw(),
{
    lemma_first_slot_bounds(tpdo_numbers(m.pdos), number.raw() as int, 0);
}

/// The PDOs whose deadline has expired since the last check are named by their
/// CANopen numbers, and no others are.
pub proof fn lemma_expired_pdos_are_named(m: RpdoModel, now: u64, n: int, number: int)
    requires
        0 <= n <= m.pdos.len() <= 512,
        m.last_rx_us.len() == m.pdos.len(),
        forall|i: int| 0 <= i < m.pdos.len() ==> (#[trigger] m.pdos[i]).od_number <= 512,
    ensures
        m.expired_numbers(now, n).contains(number) <==> exists|i: int|
            0 <= i < n && #[trigger] m.newly_expired(i, now) && number == if m.pdos[i].od_number
                == 0 {
                i + 1
            } else {
                m.pdos[i].od_number as int
            },
        m.expired_numbers(now, n).len() <= n,
    decreases n,
{
    if n > 0 {
        lemma_expired_pdos_are_named(m, now, n - 1, number);
        let front = m.expired_numbers(now, n - 1);
        let all = m.expired_numbers(now, n);
        assert(m.pdos[n - 1].od_number <= 512);
        if front.contains(number) {
            let k = choose|k: int| 0 <= k < front.len() && front[k] == number;
            assert(all[k] == number);
        }
        if all.contains(number) && !front.contains(number) {
            let k = choose|k: int| 0 <= k < all.len() && all[k] == number;
            if k < front.len() {
                assert(front[k] == number);
            }
            assert(m.newly_expired(n - 1, now));
        }
        if m.newly_expired(n - 1, now) {
            assert(all[front.len() as int] == all.last());
        }
    }
}

/// A PDO with a deadline lacks data until its first frame comes, and again
/// once its deadline has expired; a frame makes it up to date. One without a
/// deadline never lacks any.
pub proof fn lemma_data_is_lacking(
    m: RpdoModel,
    i: int,
    frame: FrameView,
    now: u64,
)
    requires
        0 <= i < m.pdos.len(),
        m.armed.len() == m.pdos.len(),
        m.expired.len() == m.pdos.len(),
        m.last_rx_us.len() == m.pdos.len(),
    ensures
        m.lacks_data(i) ==> m.pdos[i].enabled && m.pdos[i].deadline_ms > 0,
        RpdoModel::fresh(m.pdos).lacks_data(i) <==> m.pdos[i].enabled && m.pdos[i].deadline_ms > 0,
        m.receiver(frame) == Some(i) ==> !m.received(frame, now).lacks_data(i),
        m.newly_expired(i, now) ==> m.checked(now).lacks_data(i),
        m.monitoring_reset().lacks_data(i) <==> m.pdos[i].enabled && m.pdos[i].deadline_ms > 0,
{
}

} // verus!
