//! CAN frame router: demuxes a single receive stream to multiple consumers.
//!
//! Each consumer gets its own buffer so frames are never lost: while one waits
//! for its frames, the frames of the others are kept. The caller receives from
//! the transport and offers each frame.

use crate::cobid::{parse_cob, CobId, NodeId, ParsedCobId};
use crate::sdo::driver::is_response;
use crate::transport::{frame_views, CanFrame, FrameView};
use std::collections::VecDeque;
use vstd::prelude::*;

verus! {

/// A frame is a heartbeat, of the given node if one is given.
pub open spec fn is_heartbeat(frame: FrameView, node: Option<NodeId>) -> bool {
    match parse_cob(frame.id) {
        ParsedCobId::Heartbeat(n) => node is None || node == Some(n),
        _ => false,
    }
}

/// A frame carries process data.
pub open spec fn is_pdo(frame: FrameView) -> bool {
    parse_cob(frame.id) is Tpdo || parse_cob(frame.id) is Rpdo
}

/// A frame is an SDO response of some node.
pub open spec fn is_sdo_response(frame: FrameView) -> bool {
    parse_cob(frame.id) is SdoResponse
}

/// Whether a frame is a heartbeat, of the given node if one is given.
pub fn heartbeat_matches(frame: &CanFrame, node: Option<NodeId>) -> (r: bool)
    ensures
        r == is_heartbeat(frame@, node),
{
    match CobId::new(frame.raw_id()) {
        Some(cob) => match cob.parse() {
            ParsedCobId::Heartbeat(n) => match node {
                Some(wanted) => n == wanted,
                None => true,
            },
            _ => false,
        },
        None => false,
    }
}

/// Whether a frame carries process data.
pub fn pdo_matches(frame: &CanFrame) -> (r: bool)
    ensures
        r == is_pdo(frame@),
{
    match CobId::new(frame.raw_id()) {
        Some(cob) => match cob.parse() {
            ParsedCobId::Tpdo { .. } | ParsedCobId::Rpdo { .. } => true,
            _ => false,
        },
        None => false,
    }
}

/// Whether a frame is an SDO response of a node.
pub fn sdo_response_matches(frame: &CanFrame, target: NodeId) -> (r: bool)
    ensures
        r == is_response(target, frame@),
{
    frame.raw_id() == CobId::sdo_tx(target).raw() && frame.raw_dlc() == 8
}

fn store(buf: &mut VecDeque<CanFrame>, frame: CanFrame)
    ensures
        frame_views(final(buf)@) == frame_views(old(buf)@).push(frame@),
{
    let ghost before = buf@;
    buf.push_back(frame);
    assert(frame_views(buf@) =~= frame_views(before).push(frame@));
}

fn take_first(buf: &mut VecDeque<CanFrame>) -> (r: Option<CanFrame>)
    ensures
        r is Some <==> frame_views(old(buf)@).len() > 0,
        r matches Some(f) ==> f@ == frame_views(old(buf)@)[0] && frame_views(final(buf)@)
            == frame_views(old(buf)@).drop_first(),
        r is None ==> frame_views(final(buf)@) == frame_views(old(buf)@),
{
    let ghost before = buf@;
    let r = buf.pop_front();
    assert(r is Some ==> frame_views(buf@) =~= frame_views(before).drop_first());
    r
}

// ---- Ports ----

fn keep(buf: &mut Vec<CanFrame>, frame: CanFrame)
    ensures
        frame_views(final(buf)@) == frame_views(old(buf)@).push(frame@),
{
    let ghost before = buf@;
    buf.push(frame);
    assert(frame_views(buf@) =~= frame_views(before).push(frame@));
}

/// A filtered port for SDO communication with a specific node: it takes the
/// SDO responses of that node, and buffers the other frames.
pub struct SdoPort {
    target: NodeId,
    /// Frames that are no responses of the node.
    pub overflow: Vec<CanFrame>,
}

/// The state of a port: whom it listens to, and the frames that it did not take.
#[verifier::ext_equal]
pub struct SdoPortView {
    pub target: NodeId,
    pub overflow: Seq<FrameView>,
}

impl View for SdoPort {
    type V = SdoPortView;

    closed spec fn view(&self) -> SdoPortView {
        SdoPortView {
            target: self.target,
            overflow: frame_views(self.overflow@),
        }
    }
}

impl SdoPort {
    pub fn new(target: NodeId) -> (r: Self)
        ensures
            r@ == (SdoPortView { target, overflow: Seq::empty() }),
    {
        let r = SdoPort { target, overflow: Vec::new() };
        assert(r@.overflow =~= Seq::<FrameView>::empty());
        r
    }

    /// Offer a received frame. Returns whether the port takes it; if not, the
    /// frame is buffered for other consumers.
    pub fn offer(&mut self, frame: &CanFrame) -> (taken: bool)
        ensures
            taken == is_response(old(self)@.target, frame@),
            final(self)@ == (if taken {
                old(self)@
            } else {
                SdoPortView { overflow: old(self)@.overflow.push(frame@), ..old(self)@ }
            }),
    {
        if sdo_response_matches(frame, self.target) {
            return true;
        }
        keep(&mut self.overflow, *frame);
        false
    }

    /// The overflow frames (frames received during SDO transfers that are no
    /// responses). Call this after each SDO operation to process heartbeats,
    /// PDOs, etc.
    pub fn drain_overflow(&mut self) -> (r: &[CanFrame])
        ensures
            frame_views(r@) == old(self)@.overflow,
            final(self)@ == old(self)@,
    {
        self.overflow.as_slice()
    }

    /// Forget the overflow frames.
    pub fn clear_overflow(&mut self)
        ensures
            final(self)@ == (SdoPortView { overflow: Seq::empty(), ..old(self)@ }),
    {
        self.overflow.clear();
        assert(self@.overflow =~= Seq::<FrameView>::empty());
    }
}

/// A filtered port that only takes heartbeat frames, of one node or of all.
pub struct HeartbeatPort {
    filter_node: Option<NodeId>,
    /// Frames that are no heartbeats, or none of the node.
    pub overflow: Vec<CanFrame>,
}

/// The state of a heartbeat port.
#[verifier::ext_equal]
pub struct HeartbeatPortView {
    pub filter_node: Option<NodeId>,
    pub overflow: Seq<FrameView>,
}

impl View for HeartbeatPort {
    type V = HeartbeatPortView;

    closed spec fn view(&self) -> HeartbeatPortView {
        HeartbeatPortView {
            filter_node: self.filter_node,
            overflow: frame_views(self.overflow@),
        }
    }
}

impl HeartbeatPort {
    pub fn new(node: Option<NodeId>) -> (r: Self)
        ensures
            r@ == (HeartbeatPortView { filter_node: node, overflow: Seq::empty() }),
    {
        let r = HeartbeatPort { filter_node: node, overflow: Vec::new() };
        assert(r@.overflow =~= Seq::<FrameView>::empty());
        r
    }

    /// Offer a received frame. Returns whether the port takes it; if not, the
    /// frame is buffered.
    pub fn offer(&mut self, frame: &CanFrame) -> (taken: bool)
        ensures
            taken == is_heartbeat(frame@, old(self)@.filter_node),
            final(self)@ == (if taken {
                old(self)@
            } else {
                HeartbeatPortView {
                    overflow: old(self)@.overflow.push(frame@),
                    ..old(self)@
                }
            }),
    {
        if heartbeat_matches(frame, self.filter_node) {
            return true;
        }
        keep(&mut self.overflow, *frame);
        false
    }
}

// ---- Demultiplexer ----

/// The buffered frames of each protocol, oldest first.
#[verifier::ext_equal]
pub struct DemuxModel {
    pub sdo: Seq<FrameView>,
    pub pdo: Seq<FrameView>,
    pub heartbeat: Seq<FrameView>,
    pub other: Seq<FrameView>,
}

impl DemuxModel {
    /// A frame is put into the buffer of its protocol.
    pub open spec fn routed(self, frame: FrameView) -> DemuxModel {
        match parse_cob(frame.id) {
            ParsedCobId::SdoResponse(_) => DemuxModel {
                sdo: self.sdo.push(frame),
                ..self
            },
            ParsedCobId::Heartbeat(_) => DemuxModel {
                heartbeat: self.heartbeat.push(frame),
                ..self
            },
            ParsedCobId::Tpdo { .. } | ParsedCobId::Rpdo { .. } => DemuxModel {
                pdo: self.pdo.push(frame),
                ..self
            },
            _ => DemuxModel { other: self.other.push(frame), ..self },
        }
    }

    /// Several frames are routed, one after another.
    pub open spec fn all_routed(self, frames: Seq<FrameView>) -> DemuxModel
        decreases frames.len(),
    {
        if frames.len() == 0 {
            self
        } else {
            self.all_routed(frames.drop_last()).routed(frames.last())
        }
    }
}

/// The first frame from `from` on that satisfies a predicate.
pub open spec fn first_match(
    frames: Seq<FrameView>,
    wanted: spec_fn(FrameView) -> bool,
    from: int,
) -> Option<int>
    decreases frames.len() - from,
{
    if from < 0 || from >= frames.len() {
        None
    } else if wanted(frames[from]) {
        Some(from)
    } else {
        first_match(frames, wanted, from + 1)
    }
}

/// CAN frame demultiplexer: routes frames to per-protocol buffers.
///
/// Offer each received frame to the consumer that waits (`offer_sdo`,
/// `offer_heartbeat`, `offer_pdo`). Frames that it does not take are buffered
/// and accessible via `try_recv_heartbeat()`, `try_recv_pdo()`, etc. later.
pub struct CanDemux {
    sdo_buf: VecDeque<CanFrame>,
    pdo_buf: VecDeque<CanFrame>,
    heartbeat_buf: VecDeque<CanFrame>,
    other_buf: VecDeque<CanFrame>,
}

impl View for CanDemux {
    type V = DemuxModel;

    closed spec fn view(&self) -> DemuxModel {
        DemuxModel {
            sdo: frame_views(self.sdo_buf@),
            pdo: frame_views(self.pdo_buf@),
            heartbeat: frame_views(self.heartbeat_buf@),
            other: frame_views(self.other_buf@),
        }
    }
}

impl CanDemux {
    pub fn new() -> (r: Self)
        ensures
            r@ == (DemuxModel {
                sdo: Seq::empty(),
                pdo: Seq::empty(),
                heartbeat: Seq::empty(),
                other: Seq::empty(),
            }),
    {
        let r = CanDemux {
            sdo_buf: VecDeque::new(),
            pdo_buf: VecDeque::new(),
            heartbeat_buf: VecDeque::new(),
            other_buf: VecDeque::new(),
        };
        assert(r@ =~= DemuxModel {
            sdo: Seq::empty(),
            pdo: Seq::empty(),
            heartbeat: Seq::empty(),
            other: Seq::empty(),
        });
        r
    }

    /// Offer a received frame to a consumer that waits for the SDO responses of
    /// a node. Returns whether it takes the frame.
    pub fn offer_sdo(&mut self, frame: &CanFrame, target: NodeId) -> (taken: bool)
        ensures
            taken == is_response(target, frame@),
            final(self)@ == (if taken {
                old(self)@
            } else {
                old(self)@.routed(frame@)
            }),
    {
        if sdo_response_matches(frame, target) {
            return true;
        }
        self.route_frame(frame);
        false
    }

    /// Offer a received frame to a consumer that waits for heartbeats.
    pub fn offer_heartbeat(&mut self, frame: &CanFrame, node: Option<NodeId>) -> (taken: bool)
        ensures
            taken == is_heartbeat(frame@, node),
            final(self)@ == (if taken {
                old(self)@
            } else {
                old(self)@.routed(frame@)
            }),
    {
        if heartbeat_matches(frame, node) {
            return true;
        }
        self.route_frame(frame);
        false
    }

    /// Offer a received frame to a consumer that waits for process data.
    pub fn offer_pdo(&mut self, frame: &CanFrame) -> (taken: bool)
        ensures
            taken == is_pdo(frame@),
            final(self)@ == (if taken {
                old(self)@
            } else {
                old(self)@.routed(frame@)
            }),
    {
        if pdo_matches(frame) {
            return true;
        }
        self.route_frame(frame);
        false
    }

    /// Take the first buffered SDO response of a node. If there is none, the
    /// buffer stays as it is; else the frames after it come before those
    /// before it.
    pub fn take_buffered_sdo(&mut self, target: NodeId) -> (r: Option<CanFrame>)
        ensures
            ({
                let all = old(self)@.sdo;
                let wanted = |f: FrameView| is_response(target, f);
                match first_match(all, wanted, 0) {
                    Some(i) => {
                        &&& r matches Some(f) && f@ == all[i]
                        &&& final(self)@ == (DemuxModel {
                            sdo: all.skip(i + 1) + all.take(i),
                            ..old(self)@
                        })
                    },
                    None => r is None && final(self)@ == old(self)@,
                }
            }),
    {
        let ghost all = self@.sdo;
        let ghost wanted = |f: FrameView| is_response(target, f);
        let n: usize = self.sdo_buf.len();
        let mut i: usize = 0;
        assert(all.skip(0) + all.take(0) =~= all);
        while i < n
            invariant
                i <= n,
                n == all.len(),
                all == old(self)@.sdo,
                wanted == (|f: FrameView| is_response(target, f)),
                self@ == (DemuxModel {
                    sdo: all.skip(i as int) + all.take(i as int),
                    ..old(self)@
                }),
                first_match(all, wanted, 0) == first_match(all, wanted, i as int),
            decreases n - i,
        {
            let ghost here = self@.sdo;
            if let Some(f) = take_first(&mut self.sdo_buf) {
                assert(f@ == all[i as int]);
                assert(here.drop_first() =~= all.skip(i + 1) + all.take(i as int));
                if sdo_response_matches(&f, target) {
                    return Some(f);
                }
                store(&mut self.sdo_buf, f);
                assert(here.drop_first().push(f@) =~= all.skip(i + 1) + all.take(i + 1));
            }
            i += 1;
        }
        assert(all.skip(n as int) + all.take(n as int) =~= all);
        None
    }

    /// Take the first buffered heartbeat, of the given node if one is given.
    /// The others stay in order.
    pub fn take_buffered_heartbeat(&mut self, node: Option<NodeId>) -> (r: Option<CanFrame>)
        ensures
            ({
                let all = old(self)@.heartbeat;
                let wanted = |f: FrameView| is_heartbeat(f, node);
                match first_match(all, wanted, 0) {
                    Some(i) => {
                        &&& r matches Some(f) && f@ == all[i]
                        &&& final(self)@ == (DemuxModel {
                            heartbeat: all.remove(i),
                            ..old(self)@
                        })
                    },
                    None => r is None && final(self)@ == old(self)@,
                }
            }),
    {
        let ghost all = self@.heartbeat;
        let ghost wanted = |f: FrameView| is_heartbeat(f, node);
        let n: usize = self.heartbeat_buf.len();
        let mut found: Option<CanFrame> = None;
        let mut i: usize = 0;
        let ghost mut kept: Seq<FrameView> = Seq::empty();
        assert(all.skip(0) + kept =~= all);
        assert(all.take(0) =~= kept);
        while i < n
            invariant
                i <= n,
                n == all.len(),
                all == old(self)@.heartbeat,
                wanted == (|f: FrameView| is_heartbeat(f, node)),
                self@ == (DemuxModel { heartbeat: all.skip(i as int) + kept, ..old(self)@ }),
                kept.len() <= i,
                match found {
                    Some(f) => {
                        &&& first_match(all, wanted, 0) matches Some(k)
                        &&& 0 <= k < i
                        &&& f@ == all[k]
                        &&& kept == all.take(i as int).remove(k)
                    },
                    None => {
                        &&& first_match(all, wanted, 0) == first_match(all, wanted, i as int)
                        &&& kept == all.take(i as int)
                    },
                },
            decreases n - i,
        {
            let ghost here = self@.heartbeat;
            if let Some(f) = take_first(&mut self.heartbeat_buf) {
                assert(f@ == all[i as int]);
                assert(here.drop_first() =~= all.skip(i + 1) + kept);
                if found.is_none() && heartbeat_matches(&f, node) {
                    found = Some(f);
                    assert(all.take(i + 1).remove(i as int) =~= all.take(i as int));
                } else {
                    store(&mut self.heartbeat_buf, f);
                    proof {
                        assert(here.drop_first().push(f@) =~= all.skip(i + 1) + kept.push(f@));
                        kept = kept.push(f@);
                        if found is None {
                            assert(kept =~= all.take(i + 1));
                        } else {
                            let k = first_match(all, wanted, 0)->0;
                            assert(kept =~= all.take(i + 1).remove(k));
                        }
                    }
                }
            }
            i += 1;
        }
        assert(all.skip(n as int) + kept =~= kept);
        assert(all.take(n as int) =~= all);
        found
    }

    /// Take a buffered heartbeat frame.
    pub fn try_recv_heartbeat(&mut self) -> (r: Option<CanFrame>)
        ensures
            r is Some <==> old(self)@.heartbeat.len() > 0,
            r matches Some(f) ==> f@ == old(self)@.heartbeat[0] && final(self)@ == (DemuxModel {
                heartbeat: old(self)@.heartbeat.drop_first(),
                ..old(self)@
            }),
            r is None ==> final(self)@ == old(self)@,
    {
        take_first(&mut self.heartbeat_buf)
    }

    /// Take a buffered PDO frame.
    pub fn try_recv_pdo(&mut self) -> (r: Option<CanFrame>)
        ensures
            r is Some <==> old(self)@.pdo.len() > 0,
            r matches Some(f) ==> f@ == old(self)@.pdo[0] && final(self)@ == (DemuxModel {
                pdo: old(self)@.pdo.drop_first(),
                ..old(self)@
            }),
            r is None ==> final(self)@ == old(self)@,
    {
        take_first(&mut self.pdo_buf)
    }

    /// Take a buffered unclassified frame.
    pub fn try_recv_other(&mut self) -> (r: Option<CanFrame>)
        ensures
            r is Some <==> old(self)@.other.len() > 0,
            r matches Some(f) ==> f@ == old(self)@.other[0] && final(self)@ == (DemuxModel {
                other: old(self)@.other.drop_first(),
                ..old(self)@
            }),
            r is None ==> final(self)@ == old(self)@,
    {
        take_first(&mut self.other_buf)
    }

    /// Route a frame to the appropriate buffer based on COB-ID.
    pub fn route_frame(&mut self, frame: &CanFrame)
        ensures
            final(self)@ == old(self)@.routed(frame@),
    {
        let parsed = match CobId::new(frame.raw_id()) {
            Some(cob) => cob.parse(),
            None => ParsedCobId::Unknown(frame.raw_id()),
        };
        match parsed {
            ParsedCobId::SdoResponse(_) => store(&mut self.sdo_buf, *frame),
            ParsedCobId::Heartbeat(_) => store(&mut self.heartbeat_buf, *frame),
            ParsedCobId::Tpdo { .. } | ParsedCobId::Rpdo { .. } => store(&mut self.pdo_buf, *frame),
            _ => store(&mut self.other_buf, *frame),
        }
    }
}

/// The consumers do not disturb each other, and no frame is lost: a frame is
/// appended to exactly one buffer, chosen by its COB-ID, in whatever state the
/// buffers are.
pub proof fn lemma_routing_keeps_frames(m: DemuxModel, frame: FrameView)
    ensures
        m.routed(frame).sdo == (if is_sdo_response(frame) {
            m.sdo.push(frame)
        } else {
            m.sdo
        }),
        m.routed(frame).pdo == (if is_pdo(frame) {
            m.pdo.push(frame)
        } else {
            m.pdo
        }),
        m.routed(frame).heartbeat == (if is_heartbeat(frame, None) {
            m.heartbeat.push(frame)
        } else {
            m.heartbeat
        }),
        m.routed(frame).other == (if !is_sdo_response(frame) && !is_pdo(frame) && !is_heartbeat(
            frame,
            None,
        ) {
            m.other.push(frame)
        } else {
            m.other
        }),
{
}

/// Every routed heartbeat, PDO and other frame is handed out once, in the order
/// of reception: the buffers hold them all after what they held before.
pub proof fn lemma_routed_frames_come_in_order(m: DemuxModel, frames: Seq<FrameView>)
    ensures
        m.all_routed(frames).sdo == m.sdo + frames.filter(|f: FrameView| is_sdo_response(f)),
        m.all_routed(frames).pdo == m.pdo + frames.filter(|f: FrameView| is_pdo(f)),
        m.all_routed(frames).heartbeat == m.heartbeat + frames.filter(
            |f: FrameView| is_heartbeat(f, None),
        ),
        m.all_routed(frames).other == m.other + frames.filter(
            |f: FrameView| !is_sdo_response(f) && !is_pdo(f) && !is_heartbeat(f, None),
        ),
    decreases frames.len(),
{
    reveal(Seq::filter);
    if frames.len() > 0 {
        lemma_routed_frames_come_in_order(m, frames.drop_last());
        lemma_routing_keeps_frames(m.all_routed(frames.drop_last()), frames.last());
    }
}

} // verus!
