//! Per-sender jitter buffer.
//!
//! Packets are sent every 20 ms but do not arrive that way: the network
//! reorders them, bunches them up, and loses some. Playback must consume exactly
//! one frame every 20 ms all the same. The buffer absorbs the mismatch by
//! holding a small backlog before it starts to play.
//!
//! When a frame never shows up, the buffer reports [`JitterOutput::Lost`] rather
//! than stalling, and the decoder conceals the hole.

use bytes::Bytes;
use std::collections::BTreeMap;
use vstd::prelude::*;

verus! {

/// Frames held before playback starts: 60 ms of slack.
pub const DEFAULT_TARGET_FRAMES: usize = 3;

/// Hard cap on the backlog. Beyond it the sender runs ahead of us, and holding
/// more would only add latency, so the oldest frame is discarded.
pub const DEFAULT_MAX_FRAMES: usize = 16;

/// What one playback slot gets.
#[derive(Debug, Clone, PartialEq, Eq)]
pub enum JitterOutput {
    /// A frame ready to decode.
    Frame(Bytes),
    /// The frame of this slot never arrived; conceal it.
    Lost,
}

#[derive(Debug, Clone, Copy, PartialEq, Eq, Structural)]
pub struct JitterStats {
    pub received: u64,
    /// Arrived after their slot had played.
    pub late: u64,
    pub lost: u64,
    /// Times playback ran dry and had to buffer again.
    pub underruns: u64,
    /// Dropped because the backlog hit its cap.
    pub overflows: u64,
}

impl Default for JitterStats {
    fn default() -> (s: Self)
        ensures
            s == no_stats(),
    {
        JitterStats { received: 0, late: 0, lost: 0, underruns: 0, overflows: 0 }
    }
}

/// Nothing has happened yet.
pub open spec fn no_stats() -> JitterStats {
    JitterStats { received: 0, late: 0, lost: 0, underruns: 0, overflows: 0 }
}

/// What a buffer holds.
///
/// Frames are keyed by an extended sequence number, which does not wrap: raw
/// numbers do not order correctly across their rollover.
#[verifier::ext_equal]
pub struct JitterView {
    pub target: nat,
    pub max: nat,
    pub frames: Map<i64, Bytes>,
    /// The last packet's number on the wire, and extended.
    pub anchor: Option<(u32, i64)>,
    /// The slot that plays next.
    pub next: Option<i64>,
    pub playing: bool,
    pub stats: JitterStats,
}

/// How far `to` lies ahead of `from`, negative behind it: the representative of
/// the difference modulo 2^32 that is nearest to zero.
pub open spec fn signed_distance(from: u32, to: u32) -> int {
    let ahead = (to - from) % 0x1_0000_0000;
    if ahead < 0x8000_0000 {
        ahead
    } else {
        ahead - 0x1_0000_0000
    }
}

/// The extended number of a packet: the first is 0, each other is counted from
/// the packet before it.
pub open spec fn extended(v: JitterView, seq: u32) -> int {
    match v.anchor {
        None => 0,
        Some((wire, number)) => number + signed_distance(wire, seq),
    }
}

/// Whether this packet can still be counted and numbered in 64 bits.
pub open spec fn takes(v: JitterView, seq: u32) -> bool {
    &&& v.stats.received < u64::MAX
    &&& i64::MIN <= extended(v, seq) < i64::MAX
}

/// `k` is the lowest number held.
pub open spec fn is_oldest(frames: Map<i64, Bytes>, k: i64) -> bool {
    &&& frames.contains_key(k)
    &&& forall|j: i64| frames.contains_key(j) ==> k <= j
}

/// The lowest number held.
pub open spec fn oldest_of(frames: Map<i64, Bytes>) -> i64 {
    choose|k: i64| is_oldest(frames, k)
}

/// What every buffer keeps.
pub open spec fn valid(v: JitterView) -> bool {
    &&& 1 <= v.target <= v.max
    &&& v.frames.dom().finite()
    &&& v.frames.len() <= v.max
    &&& v.playing == v.next is Some
    &&& forall|k: i64|
        #![trigger v.frames.contains_key(k)]
        v.frames.contains_key(k) ==> k < i64::MAX && (v.next is Some ==> v.next->0 <= k)
    // No more is accounted for than was received, so no counter outruns it.
    &&& v.stats.late + v.stats.overflows + v.stats.underruns + v.frames.len() + (if v.playing {
        1int
    } else {
        0int
    }) <= v.stats.received
}

/// The buffer after one arrival.
pub open spec fn pushed(v: JitterView, seq: u32, payload: Bytes) -> JitterView {
    let number = extended(v, seq) as i64;
    let counted = JitterStats { received: (v.stats.received + 1) as u64, ..v.stats };
    let seen = JitterView { anchor: Some((seq, number)), stats: counted, ..v };
    let frames = v.frames.insert(number, payload);
    if v.next is Some && number < v.next->0 {
        // Its moment has passed.
        JitterView { stats: JitterStats { late: (v.stats.late + 1) as u64, ..counted }, ..seen }
    } else if frames.len() <= v.max {
        JitterView { frames, ..seen }
    } else {
        // The oldest frame is the one closest to being too late. The playback
        // position follows, or the frame thrown away would read as lost.
        let oldest = oldest_of(frames);
        JitterView {
            frames: frames.remove(oldest),
            next: if v.next is Some && v.next->0 <= oldest {
                Some((oldest + 1) as i64)
            } else {
                v.next
            },
            stats: JitterStats { overflows: (v.stats.overflows + 1) as u64, ..counted },
            ..seen
        }
    }
}

/// The slot that a `pop` is about: playback starts at the oldest frame.
pub open spec fn slot(v: JitterView) -> i64 {
    if v.playing {
        v.next->0
    } else {
        oldest_of(v.frames)
    }
}

/// Whether a `pop` stays silent because the backlog is still filling.
pub open spec fn filling(v: JitterView) -> bool {
    !v.playing && v.frames.len() < v.target
}

/// What one `pop` hands out.
pub open spec fn output(v: JitterView) -> Option<JitterOutput> {
    if filling(v) {
        None
    } else if v.frames.contains_key(slot(v)) {
        Some(JitterOutput::Frame(v.frames[slot(v)]))
    } else if v.frames.len() == 0 {
        None
    } else {
        Some(JitterOutput::Lost)
    }
}

/// The buffer after one `pop`.
pub open spec fn popped(v: JitterView) -> JitterView {
    if filling(v) {
        v
    } else if v.frames.contains_key(slot(v)) {
        JitterView {
            frames: v.frames.remove(slot(v)),
            playing: true,
            next: Some((slot(v) + 1) as i64),
            ..v
        }
    } else if v.frames.len() == 0 {
        // Ran dry: fill again rather than conceal without end.
        JitterView {
            playing: false,
            next: None,
            stats: JitterStats { underruns: (v.stats.underruns + 1) as u64, ..v.stats },
            ..v
        }
    } else {
        // All held frames are newer, so this slot is genuinely missing.
        JitterView {
            playing: true,
            next: Some((slot(v) + 1) as i64),
            stats: JitterStats { lost: (v.stats.lost + 1) as u64, ..v.stats },
            ..v
        }
    }
}

/// The buffer emptied for a new talk burst; what was counted stays counted.
pub open spec fn restarted(v: JitterView) -> JitterView {
    JitterView { frames: Map::empty(), anchor: None, next: None, playing: false, ..v }
}

/// The oldest number in a map of frames.
fn oldest(packets: &BTreeMap<i64, Bytes>) -> (r: Option<i64>)
    ensures
        r is None <==> packets@.len() == 0,
        r matches Some(k) ==> is_oldest(packets@, k) && oldest_of(packets@) == k,
{
    broadcast use vstd::std_specs::btree::group_btree_axioms;

    let mut found: Option<i64> = None;
    for k in it: packets.keys()
        invariant
            it.seq().unref().to_set() == packets@.dom(),
            found is None <==> it.index() == 0,
            found matches Some(m) ==> packets@.contains_key(m) && forall|i: int|
                0 <= i < it.index() ==> m <= *it.seq()[i],
    {
        proof {
            let keys = it.seq().unref();
            assert(keys[it.index() as int] == *k);
            assert(keys.to_set().contains(*k));
        }
        found = match found {
            Some(m) if m <= *k => Some(m),
            _ => Some(*k),
        };
    }
    found
}

pub struct JitterBuffer {
    target_frames: usize,
    max_frames: usize,
    packets: BTreeMap<i64, Bytes>,
    anchor: Option<(u32, i64)>,
    next_extended: Option<i64>,
    playing: bool,
    stats: JitterStats,
}

impl View for JitterBuffer {
    type V = JitterView;

    closed spec fn view(&self) -> JitterView {
        JitterView {
            target: self.target_frames as nat,
            max: self.max_frames as nat,
            frames: self.packets@,
            anchor: self.anchor,
            next: self.next_extended,
            playing: self.playing,
            stats: self.stats,
        }
    }
}

impl Default for JitterBuffer {
    fn default() -> (b: Self)
        ensures
            b.wf(),
            b@ == fresh(DEFAULT_TARGET_FRAMES as nat, DEFAULT_MAX_FRAMES as nat),
    {
        Self::new(DEFAULT_TARGET_FRAMES, DEFAULT_MAX_FRAMES)
    }
}

/// An empty buffer. At least one frame is awaited, and the cap is never below
/// what is awaited.
pub open spec fn fresh(target: nat, max: nat) -> JitterView {
    let awaited = if target >= 1 { target } else { 1 };
    JitterView {
        target: awaited,
        max: if max >= awaited { max } else { awaited },
        frames: Map::empty(),
        anchor: None,
        next: None,
        playing: false,
        stats: no_stats(),
    }
}

/// The wrapping difference read as a signed number.
fn offset(from: u32, to: u32) -> (d: i64)
    ensures
        d == signed_distance(from, to),
{
    let ahead: u32 = to.wrapping_sub(from);
    if ahead < 0x8000_0000 {
        ahead as i64
    } else {
        ahead as i64 - 0x1_0000_0000
    }
}

impl JitterBuffer {
    pub open spec fn wf(&self) -> bool {
        valid(self@)
    }

    pub fn new(target_frames: usize, max_frames: usize) -> (b: Self)
        ensures
            b.wf(),
            b@ == fresh(target_frames as nat, max_frames as nat),
    {
        let awaited: usize = if target_frames >= 1 { target_frames } else { 1 };
        let b = JitterBuffer {
            target_frames: awaited,
            max_frames: if max_frames >= awaited { max_frames } else { awaited },
            packets: BTreeMap::new(),
            anchor: None,
            next_extended: None,
            playing: false,
            stats: JitterStats::default(),
        };
        b
    }

    /// Whether a packet can still be counted and numbered.
    pub fn has_room(&self, seq: u32) -> (r: bool)
        ensures
            r == takes(self@, seq),
    {
        if self.stats.received == u64::MAX {
            return false;
        }
        match self.anchor {
            None => true,
            Some((wire, number)) => {
                let d: i64 = offset(wire, seq);
                if d >= 0 {
                    number < i64::MAX - d
                } else {
                    number >= i64::MIN - d
                }
            },
        }
    }

    /// Map a wire number onto the extended ones, and count on from it.
    ///
    /// Consecutive numbers differ by little, so the wrapping difference read as
    /// a signed number is the true offset, even across the rollover.
    fn extend(&mut self, seq: u32) -> (number: i64)
        requires
            takes(old(self)@, seq),
        ensures
            number == extended(old(self)@, seq),
            final(self)@ == (JitterView { anchor: Some((seq, number)), ..old(self)@ }),
    {
        let number: i64 = match self.anchor {
            None => 0,
            Some((wire, number)) => number + offset(wire, seq),
        };
        self.anchor = Some((seq, number));
        number
    }

    pub fn stats(&self) -> (s: JitterStats)
        ensures
            s == self@.stats,
    {
        self.stats
    }

    pub fn buffered(&self) -> (n: usize)
        ensures
            n == self@.frames.len(),
    {
        broadcast use vstd::std_specs::btree::group_btree_axioms;

        self.packets.len()
    }

    pub fn is_playing(&self) -> (r: bool)
        ensures
            r == self@.playing,
    {
        self.playing
    }

    /// Discard everything and fill again.
    ///
    /// Called at the start of a talk burst: the silence before it is not packet
    /// loss.
    pub fn reset(&mut self)
        requires
            old(self).wf(),
        ensures
            final(self).wf(),
            final(self)@ == restarted(old(self)@),
    {
        self.packets.clear();
        self.anchor = None;
        self.next_extended = None;
        self.playing = false;
    }

    /// Take in one packet.
    pub fn push(&mut self, seq: u32, payload: Bytes)
        requires
            old(self).wf(),
            takes(old(self)@, seq),
        ensures
            final(self).wf(),
            final(self)@ == pushed(old(self)@, seq, payload),
    {
        broadcast use vstd::std_specs::btree::group_btree_axioms;

        let ghost before = self@;
        let number: i64 = self.extend(seq);
        self.stats.received = self.stats.received + 1;
        if let Some(next) = self.next_extended {
            if number < next {
                self.stats.late = self.stats.late + 1;
                assert(self@ =~= pushed(before, seq, payload));
                return;
            }
        }
        let _ = self.packets.insert(number, payload);
        if self.packets.len() > self.max_frames {
            if let Some(first) = oldest(&self.packets) {
                let _ = self.packets.remove(&first);
                self.stats.overflows = self.stats.overflows + 1;
                if let Some(next) = self.next_extended {
                    if next <= first {
                        self.next_extended = Some(first + 1);
                    }
                }
            }
        }
        assert(self@ =~= pushed(before, seq, payload));
    }

    /// Take the next frame, or `None` if playback should stay silent: the
    /// backlog is still filling, or nothing is left to play.
    pub fn pop(&mut self) -> (out: Option<JitterOutput>)
        requires
            old(self).wf(),
            old(self)@.stats.lost < u64::MAX,
        ensures
            final(self).wf(),
            final(self)@ == popped(old(self)@),
            out == output(old(self)@),
    {
        broadcast use vstd::std_specs::btree::group_btree_axioms;

        let ghost before = self@;
        if !self.playing {
            if self.packets.len() < self.target_frames {
                return None;
            }
            self.playing = true;
            self.next_extended = oldest(&self.packets);
        }
        let next: i64 = match self.next_extended {
            Some(next) => next,
            None => {
                return None;
            },
        };
        if let Some(payload) = self.packets.remove(&next) {
            self.next_extended = Some(next + 1);
            assert(self@ =~= popped(before));
            return Some(JitterOutput::Frame(payload));
        }
        assert(self.packets@ =~= before.frames);
        if self.packets.is_empty() {
            self.stats.underruns = self.stats.underruns + 1;
            self.playing = false;
            self.next_extended = None;
            assert(self@ =~= popped(before));
            return None;
        }
        self.stats.lost = self.stats.lost + 1;
        self.next_extended = Some(next + 1);
        assert(self@ =~= popped(before));
        Some(JitterOutput::Lost)
    }
}

/// Consecutive packets get consecutive numbers, across the rollover too.
pub proof fn law_numbering_survives_the_rollover(v: JitterView, wire: u32, number: i64)
    requires
        v.anchor == Some((wire, number)),
    ensures
        extended(v, (if wire == u32::MAX { 0 } else { wire + 1 }) as u32) == number + 1,
        extended(v, wire) == number,
        extended(v, (if wire == 0 { u32::MAX as int } else { wire - 1 }) as u32) == number - 1,
{
}

/// A packet's number depends on where the burst began, not on the path: two
/// packets are as far apart as their wire numbers, whatever came between, while
/// no step is longer than half the number space.
pub proof fn law_numbers_are_as_far_apart_as_on_the_wire(v: JitterView, a: u32, b: u32)
    requires
        v.anchor is Some,
        -0x8000_0000 <= signed_distance((v.anchor->0).0, a) + signed_distance(a, b) < 0x8000_0000,
    ensures
        extended(v, b) == extended(v, a) + signed_distance(a, b),
{
}

/// Each slot that plays, frame or lost, is one past the slot before: frames
/// leave in order, none twice, and a hole costs one slot and no more.
pub proof fn law_playback_advances_one_slot_at_a_time(v: JitterView)
    requires
        valid(v),
        output(v) is Some,
    ensures
        popped(v).next == Some((slot(v) + 1) as i64),
        popped(v).playing,
        slot(popped(v)) == slot(v) + 1,
        !popped(v).frames.contains_key(slot(v)),
        v.playing ==> v.next == Some(slot(v)),
        forall|k: i64|
            v.frames.contains_key(k) && k != slot(v) ==> popped(v).frames.contains_key(k)
                && popped(v).frames[k] == v.frames[k],
{
    lemma_slot_is_at_most_every_frame(v);
}

proof fn lemma_some_frame_is_oldest(frames: Map<i64, Bytes>)
    requires
        frames.dom().finite(),
        frames.len() > 0,
    ensures
        is_oldest(frames, oldest_of(frames)),
    decreases frames.len(),
{
    let k = frames.dom().choose();
    assert(frames.dom().contains(k));
    let rest = frames.remove(k);
    if rest.len() == 0 {
        assert forall|j: i64| frames.contains_key(j) implies k <= j by {
            if j != k {
                assert(rest.dom().contains(j));
            }
        }
        assert(is_oldest(frames, k));
    } else {
        lemma_some_frame_is_oldest(rest);
        let m = oldest_of(rest);
        let low = if k <= m { k } else { m };
        assert forall|j: i64| frames.contains_key(j) implies low <= j by {
            if j != k {
                assert(rest.contains_key(j));
            }
        }
        assert(is_oldest(frames, low));
    }
}

proof fn lemma_slot_is_at_most_every_frame(v: JitterView)
    requires
        valid(v),
        output(v) is Some,
    ensures
        i64::MIN <= slot(v) < i64::MAX,
        forall|k: i64| v.frames.contains_key(k) ==> slot(v) <= k,
{
    assert(v.frames.len() > 0) by {
        if v.frames.contains_key(slot(v)) && v.frames.len() == 0 {
            assert(v.frames.dom() =~= Set::empty());
        }
    }
    lemma_some_frame_is_oldest(v.frames);
    let k = oldest_of(v.frames);
    assert(v.frames.contains_key(k));
}

/// The buffer after `n` pops.
pub open spec fn after(v: JitterView, n: nat) -> JitterView
    decreases n,
{
    if n == 0 {
        v
    } else {
        popped(after(v, (n - 1) as nat))
    }
}

/// Whatever order packets arrived in, a run of frames without a hole plays in
/// the order of its numbers.
pub proof fn law_a_run_plays_in_order(v: JitterView, n: nat, i: nat)
    requires
        valid(v),
        v.playing,
        i < n,
        forall|k: i64|
            v.next->0 <= k < v.next->0 + n ==> #[trigger] v.frames.contains_key(k),
    ensures
        v.frames.contains_key((v.next->0 + i) as i64),
        output(after(v, i)) == Some(JitterOutput::Frame(v.frames[(v.next->0 + i) as i64])),
{
    lemma_run(v, n, i);
}

proof fn lemma_run(v: JitterView, n: nat, i: nat)
    requires
        valid(v),
        v.playing,
        i < n,
        forall|k: i64|
            v.next->0 <= k < v.next->0 + n ==> #[trigger] v.frames.contains_key(k),
    ensures
        v.next->0 + i < i64::MAX,
        v.frames.contains_key((v.next->0 + i) as i64),
        after(v, i).playing,
        after(v, i).next == Some((v.next->0 + i) as i64),
        forall|k: i64|
            k >= v.next->0 + i && v.frames.contains_key(k) ==> (#[trigger] after(
                v,
                i,
            ).frames.contains_key(k)) && after(v, i).frames[k] == v.frames[k],
    decreases i,
{
    if i > 0 {
        let h = (i - 1) as nat;
        lemma_run(v, n, h);
        let k = (v.next->0 + h) as i64;
        assert(after(v, h).frames.contains_key(k));
        assert(v.frames.contains_key((k + 1) as i64));
    } else {
        assert(v.frames.contains_key(v.next->0));
    }
}

/// A packet whose slot has played is counted as late and changes nothing that
/// is still to play.
pub proof fn law_a_late_packet_is_not_played(v: JitterView, seq: u32, payload: Bytes)
    requires
        valid(v),
        takes(v, seq),
        v.playing,
        extended(v, seq) < v.next->0,
    ensures
        pushed(v, seq, payload).frames == v.frames,
        pushed(v, seq, payload).next == v.next,
        pushed(v, seq, payload).stats.late == v.stats.late + 1,
{
}

/// A frame discarded for want of room is passed over, not reported as lost: the
/// slot that plays next lies beyond it.
pub proof fn law_a_discarded_frame_is_not_a_loss(v: JitterView, seq: u32, payload: Bytes)
    requires
        valid(v),
        takes(v, seq),
        v.playing,
        extended(v, seq) >= v.next->0,
        v.frames.insert(extended(v, seq) as i64, payload).len() > v.max,
    ensures
        ({
            let w = pushed(v, seq, payload);
            &&& w.frames.len() == v.max
            &&& w.stats.overflows == v.stats.overflows + 1
            &&& w.next->0 == oldest_of(v.frames.insert(extended(v, seq) as i64, payload)) + 1
            &&& w.next->0 > v.next->0
            &&& !w.frames.contains_key((w.next->0 - 1) as i64)
        }),
{
    let frames = v.frames.insert(extended(v, seq) as i64, payload);
    lemma_some_frame_is_oldest(frames);
    assert(frames.contains_key(oldest_of(frames)));
}

/// After a reset nothing plays until the backlog has filled again, and any
/// number may open the new burst.
pub proof fn law_a_reset_opens_a_new_burst(v: JitterView, seq: u32)
    requires
        valid(v),
    ensures
        valid(restarted(v)),
        output(restarted(v)) is None,
        popped(restarted(v)) == restarted(v),
        extended(restarted(v), seq) == 0,
        restarted(v).stats == v.stats,
{
}

/// Playback does not start, nor start again after running dry, before the
/// backlog has filled.
pub proof fn law_playback_waits_for_the_backlog(v: JitterView)
    requires
        valid(v),
    ensures
        !v.playing && v.frames.len() < v.target ==> output(v) is None && popped(v) == v,
        v.playing && v.frames.len() == 0 ==> !popped(v).playing && output(v) is None
            && output(popped(v)) is None,
{
    if v.frames.len() == 0 {
        assert(v.frames.dom() =~= Set::empty());
    }
}

/// One call on a buffer.
pub enum Step {
    Push(u32, Bytes),
    Pop,
}

/// The buffer after these calls, in order.
pub open spec fn ran(v: JitterView, steps: Seq<Step>) -> JitterView
    decreases steps.len(),
{
    if steps.len() == 0 {
        v
    } else {
        let before = ran(v, steps.drop_last());
        match steps.last() {
            Step::Push(seq, payload) => pushed(before, seq, payload),
            Step::Pop => popped(before),
        }
    }
}

/// Whether each of these calls can still be counted and numbered.
pub open spec fn admits(v: JitterView, steps: Seq<Step>) -> bool
    decreases steps.len(),
{
    if steps.len() == 0 {
        true
    } else {
        let before = ran(v, steps.drop_last());
        admits(v, steps.drop_last()) && match steps.last() {
            Step::Push(seq, _) => takes(before, seq),
            Step::Pop => before.stats.lost < u64::MAX,
        }
    }
}

/// Whether no `pop` among these calls stays silent.
pub open spec fn sounds(v: JitterView, steps: Seq<Step>) -> bool
    decreases steps.len(),
{
    if steps.len() == 0 {
        true
    } else {
        sounds(v, steps.drop_last()) && (steps.last() is Pop ==> output(
            ran(v, steps.drop_last()),
        ) is Some)
    }
}

/// How many of these calls are pops.
pub open spec fn pops(steps: Seq<Step>) -> nat
    decreases steps.len(),
{
    if steps.len() == 0 {
        0
    } else {
        pops(steps.drop_last()) + if steps.last() is Pop {
            1nat
        } else {
            0nat
        }
    }
}

/// How many of these calls hand out a frame.
pub open spec fn played(v: JitterView, steps: Seq<Step>) -> nat
    decreases steps.len(),
{
    if steps.len() == 0 {
        0
    } else {
        let out = output(ran(v, steps.drop_last()));
        played(v, steps.drop_last()) + if steps.last() is Pop && (out matches Some(
            JitterOutput::Frame(_),
        )) {
            1nat
        } else {
            0nat
        }
    }
}

/// The payload last pushed for a slot, if any was.
pub open spec fn last_pushed(v: JitterView, steps: Seq<Step>, number: i64) -> Option<Bytes>
    decreases steps.len(),
{
    if steps.len() == 0 {
        None
    } else {
        let before = steps.drop_last();
        match steps.last() {
            Step::Push(seq, payload) if extended(ran(v, before), seq) == number => Some(payload),
            _ => last_pushed(v, before, number),
        }
    }
}

proof fn lemma_step_keeps_valid(v: JitterView, step: Step)
    requires
        valid(v),
        step matches Step::Push(seq, _) ==> takes(v, seq),
        step is Pop ==> v.stats.lost < u64::MAX,
    ensures
        valid(ran(v, seq![step])),
{
    reveal_with_fuel(ran, 2);
    assert(seq![step].drop_last() =~= Seq::empty());
    match step {
        Step::Push(seq, payload) => {
            let frames = v.frames.insert(extended(v, seq) as i64, payload);
            lemma_some_frame_is_oldest(frames);
            assert(frames.contains_key(oldest_of(frames)));
        },
        Step::Pop => {
            if v.frames.len() == 0 {
                assert(v.frames.dom() =~= Set::empty());
            } else {
                lemma_some_frame_is_oldest(v.frames);
                assert(v.frames.contains_key(oldest_of(v.frames)));
            }
        },
    }
}

proof fn lemma_ran_is_valid(v: JitterView, steps: Seq<Step>)
    requires
        valid(v),
        admits(v, steps),
    ensures
        valid(ran(v, steps)),
        ran(v, steps).max == v.max,
    decreases steps.len(),
{
    if steps.len() > 0 {
        lemma_ran_is_valid(v, steps.drop_last());
        let before = ran(v, steps.drop_last());
        lemma_step_keeps_valid(before, steps.last());
        reveal_with_fuel(ran, 2);
        assert(seq![steps.last()].drop_last() =~= Seq::empty());
        assert(ran(before, seq![steps.last()]) == ran(v, steps));
    }
}

proof fn lemma_playback_moves_on(v: JitterView, steps: Seq<Step>)
    requires
        valid(v),
        v.playing,
        admits(v, steps),
        sounds(v, steps),
    ensures
        valid(ran(v, steps)),
        ran(v, steps).playing,
        ran(v, steps).next->0 >= v.next->0 + pops(steps),
        ran(v, steps).stats.overflows >= v.stats.overflows,
        ran(v, steps).stats.overflows == v.stats.overflows ==> ran(v, steps).next->0
            == v.next->0 + pops(steps),
    decreases steps.len(),
{
    lemma_ran_is_valid(v, steps);
    if steps.len() > 0 {
        let front = steps.drop_last();
        lemma_playback_moves_on(v, front);
        let before = ran(v, front);
        match steps.last() {
            Step::Push(seq, payload) => {
                let frames = before.frames.insert(extended(before, seq) as i64, payload);
                lemma_some_frame_is_oldest(frames);
                assert(frames.contains_key(oldest_of(frames)));
            },
            Step::Pop => {
                law_playback_advances_one_slot_at_a_time(before);
            },
        }
    }
}

/// In a run of pops that are not silent, whatever arrives in between, the slots
/// strictly increase: by one with each pop, unless frames were dropped for want
/// of room. A frame handed out is the one held for its slot; a loss means that
/// the slot is not held while a later one is.
pub proof fn law_slots_increase(v: JitterView, between: Seq<Step>)
    requires
        valid(v),
        output(v) is Some,
        v.stats.lost < u64::MAX,
        admits(popped(v), between),
        sounds(popped(v), between),
        output(ran(popped(v), between)) is Some,
    ensures
        ({
            let w = ran(popped(v), between);
            &&& slot(w) >= slot(v) + 1 + pops(between)
            &&& w.stats.overflows == v.stats.overflows ==> slot(w) == slot(v) + 1 + pops(between)
            &&& output(w) matches Some(JitterOutput::Frame(p)) ==> w.frames.contains_key(slot(w))
                && w.frames[slot(w)] == p
            &&& output(w) == Some(JitterOutput::Lost) ==> !w.frames.contains_key(slot(w))
                && exists|k: i64| k > slot(w) && #[trigger] w.frames.contains_key(k)
        }),
{
    law_playback_advances_one_slot_at_a_time(v);
    lemma_slot_is_at_most_every_frame(v);
    lemma_step_keeps_valid(v, Step::Pop);
    reveal_with_fuel(ran, 2);
    assert(seq![Step::Pop].drop_last() =~= Seq::empty());
    assert(ran(v, seq![Step::Pop]) == popped(v));
    lemma_playback_moves_on(popped(v), between);
    let w = ran(popped(v), between);
    if output(w) == Some(JitterOutput::Lost) {
        lemma_some_frame_is_oldest(w.frames);
        let k = oldest_of(w.frames);
        assert(w.frames.contains_key(k));
        assert(k > slot(w));
    }
}

/// Every frame held, and so every frame that plays, is the payload last pushed
/// for its slot.
pub proof fn law_a_frame_is_the_payload_last_pushed(v: JitterView, steps: Seq<Step>, k: i64)
    requires
        valid(v),
        v.frames == Map::<i64, Bytes>::empty(),
        admits(v, steps),
        ran(v, steps).frames.contains_key(k),
    ensures
        last_pushed(v, steps, k) == Some(ran(v, steps).frames[k]),
    decreases steps.len(),
{
    if steps.len() > 0 {
        let front = steps.drop_last();
        let before = ran(v, front);
        lemma_ran_is_valid(v, front);
        match steps.last() {
            Step::Push(seq, payload) => {
                if extended(before, seq) != k {
                    assert(before.frames.contains_key(k));
                    law_a_frame_is_the_payload_last_pushed(v, front, k);
                }
            },
            Step::Pop => {
                assert(before.frames.contains_key(k));
                law_a_frame_is_the_payload_last_pushed(v, front, k);
            },
        }
    }
}

/// The place of a wire number in a window that starts at `base`.
pub open spec fn place(base: u32, seq: u32) -> int {
    (seq - base) % 0x1_0000_0000
}

/// Whether the packets pushed are pairwise distinct and lie within half the
/// number space from `base` on.
pub open spec fn distinct_within(base: u32, steps: Seq<Step>) -> bool {
    &&& forall|i: int|
        #![trigger steps[i]]
        0 <= i < steps.len() ==> (steps[i] matches Step::Push(seq, _) ==> place(base, seq)
            < 0x8000_0000)
    &&& forall|i: int, j: int|
        #![trigger steps[i], steps[j]]
        0 <= i < j < steps.len() && steps[i] is Push && steps[j] is Push ==> steps[i]->Push_0
            != steps[j]->Push_0
}

/// Where the numbers of a history are counted from: `base` has this one.
pub open spec fn counted_from(v: JitterView, base: u32, zero: int) -> bool {
    v.anchor matches Some((wire, number)) ==> place(base, wire) < 0x8000_0000 && number == zero
        + place(base, wire)
}

proof fn lemma_numbers_are_places(v: JitterView, base: u32, zero: int, seq: u32)
    requires
        v.anchor is Some,
        counted_from(v, base, zero),
        place(base, seq) < 0x8000_0000,
    ensures
        extended(v, seq) == zero + place(base, seq),
{
}

proof fn lemma_places_are_distinct(base: u32, a: u32, b: u32)
    requires
        a != b,
    ensures
        place(base, a) != place(base, b),
{
}

/// The number that `base` would have, given the first packet pushed.
pub open spec fn zero_of(base: u32, steps: Seq<Step>) -> int
    decreases steps.len(),
{
    if steps.len() == 0 {
        0
    } else {
        match steps[0] {
            Step::Push(seq, _) => -place(base, seq),
            Step::Pop => zero_of(base, steps.skip(1)),
        }
    }
}

proof fn lemma_zero_of_prefix(base: u32, steps: Seq<Step>, n: int)
    requires
        0 <= n <= steps.len(),
    ensures
        forall|i: int| #![trigger steps[i]] 0 <= i < n ==> !(steps[i] is Push) || zero_of(
            base,
            steps.take(n),
        ) == zero_of(base, steps),
        (forall|i: int| #![trigger steps[i]] 0 <= i < n ==> !(steps[i] is Push)) && n
            < steps.len() && steps[n] is Push ==> zero_of(base, steps) == -place(
            base,
            steps[n]->Push_0,
        ),
    decreases n,
{
    if n > 0 {
        let rest = steps.skip(1);
        assert(steps.take(n).skip(1) =~= rest.take(n - 1));
        assert(steps.take(n)[0] == steps[0]);
        lemma_zero_of_prefix(base, rest, n - 1);
        if steps[0] is Pop {
            assert forall|i: int| #![trigger steps[i]] 0 <= i < n implies !(steps[i] is Push)
                || zero_of(base, steps.take(n)) == zero_of(base, steps) by {
                if i > 0 {
                    assert(rest[i - 1] == steps[i]);
                }
            }
            if (forall|i: int| #![trigger steps[i]] 0 <= i < n ==> !(steps[i] is Push)) && n
                < steps.len() && steps[n] is Push {
                assert(rest[n - 1] == steps[n]);
                assert forall|i: int| #![trigger rest[i]] 0 <= i < n - 1 implies !(rest[i]
                    is Push) by {
                    assert(rest[i] == steps[i + 1]);
                }
            }
        }
    }
}

/// Each number held belongs to a packet pushed before.
pub open spec fn held_were_pushed(
    v: JitterView,
    base: u32,
    zero: int,
    steps: Seq<Step>,
) -> bool {
    forall|k: i64|
        #![trigger v.frames.contains_key(k)]
        v.frames.contains_key(k) ==> exists|i: int|
            #![trigger steps[i]]
            0 <= i < steps.len() && steps[i] is Push && k == zero + place(
                base,
                steps[i]->Push_0,
            )
}

proof fn lemma_accounts(v: JitterView, base: u32, zero: int, steps: Seq<Step>)
    requires
        valid(v),
        v.frames == Map::<i64, Bytes>::empty(),
        v.anchor is None,
        v.stats == no_stats(),
        admits(v, steps),
        distinct_within(base, steps),
        zero_of(base, steps) == zero,
    ensures
        ({
            let w = ran(v, steps);
            &&& counted_from(w, base, zero)
            &&& w.anchor is None <==> forall|i: int|
                #![trigger steps[i]]
                0 <= i < steps.len() ==> !(steps[i] is Push)
            &&& held_were_pushed(w, base, zero, steps)
            &&& w.stats.received == w.stats.late + w.stats.overflows + w.frames.len() + played(
                v,
                steps,
            )
        }),
    decreases steps.len(),
{
    if steps.len() > 0 {
        let n = steps.len() - 1;
        let front = steps.drop_last();
        assert(front =~= steps.take(n));
        assert forall|i: int| #![trigger front[i]] 0 <= i < front.len() implies front[i]
            == steps[i] by {}
        lemma_zero_of_prefix(base, steps, n);
        let first = zero_of(base, front);
        lemma_accounts(v, base, first, front);
        lemma_ran_is_valid(v, front);
        lemma_ran_is_valid(v, steps);
        let before = ran(v, front);
        let w = ran(v, steps);
        assert(steps.last() == steps[n]);
        match steps.last() {
            Step::Push(seq, payload) => {
                let number = extended(before, seq) as i64;
                if before.anchor is None {
                    assert forall|i: int| #![trigger steps[i]] 0 <= i < n implies !(steps[i]
                        is Push) by {
                        assert(front[i] == steps[i]);
                    }
                    assert(zero == -place(base, seq));
                    assert(number == zero + place(base, seq));
                    assert(before.frames =~= Map::empty()) by {
                        assert forall|k: i64| !before.frames.contains_key(k) by {}
                    }
                } else {
                    let i = choose|i: int|
                        #![trigger front[i]]
                        0 <= i < front.len() && front[i] is Push;
                    assert(steps[i] is Push);
                    assert(first == zero);
                    lemma_numbers_are_places(before, base, zero, seq);
                    assert forall|k: i64| before.frames.contains_key(k) implies k != number by {
                        let j = choose|j: int|
                            #![trigger front[j]]
                            0 <= j < front.len() && front[j] is Push && k == zero + place(
                                base,
                                front[j]->Push_0,
                            );
                        assert(steps[j]->Push_0 != steps[n]->Push_0);
                        lemma_places_are_distinct(base, steps[j]->Push_0, seq);
                    }
                }
                assert(!before.frames.contains_key(number));
                assert forall|k: i64|
                    #![trigger w.frames.contains_key(k)]
                    w.frames.contains_key(k) implies exists|i: int|
                    #![trigger steps[i]]
                    0 <= i < steps.len() && steps[i] is Push && k == zero + place(
                        base,
                        steps[i]->Push_0,
                    ) by {
                    if k == number {
                        assert(steps[n] is Push);
                    } else {
                        assert(before.frames.contains_key(k));
                        let j = choose|j: int|
                            #![trigger front[j]]
                            0 <= j < front.len() && front[j] is Push && k == first + place(
                                base,
                                front[j]->Push_0,
                            );
                        assert(steps[j] is Push);
                    }
                }
                let frames = before.frames.insert(number, payload);
                lemma_some_frame_is_oldest(frames);
                assert(frames.contains_key(oldest_of(frames)));
                assert(!(steps[n] is Pop));
            },
            Step::Pop => {
                assert forall|k: i64|
                    #![trigger w.frames.contains_key(k)]
                    w.frames.contains_key(k) implies exists|i: int|
                    #![trigger steps[i]]
                    0 <= i < steps.len() && steps[i] is Push && k == zero + place(
                        base,
                        steps[i]->Push_0,
                    ) by {
                    assert(before.frames.contains_key(k));
                    let j = choose|j: int|
                        #![trigger front[j]]
                        0 <= j < front.len() && front[j] is Push && k == first + place(
                            base,
                            front[j]->Push_0,
                        );
                    assert(steps[j] is Push);
                }
                if before.anchor is Some {
                    let i = choose|i: int|
                        #![trigger front[i]]
                        0 <= i < front.len() && front[i] is Push;
                    assert(steps[i] is Push);
                    assert(first == zero);
                } else {
                    assert forall|i: int| #![trigger steps[i]] 0 <= i < steps.len() implies !(
                    steps[i] is Push) by {
                        if i < n {
                            assert(front[i] == steps[i]);
                        }
                    }
                }
            },
        }
    }
}

/// Of distinct packets within half the number space, pushed and popped in any
/// order without a reset, each is late, dropped for want of room, held or
/// played, and only one of these; and the backlog never exceeds its cap.
pub proof fn law_every_packet_is_accounted_for(
    target: nat,
    max: nat,
    base: u32,
    steps: Seq<Step>,
)
    requires
        admits(fresh(target, max), steps),
        distinct_within(base, steps),
    ensures
        ({
            let w = ran(fresh(target, max), steps);
            &&& w.frames.len() <= fresh(target, max).max
            &&& w.stats.received == w.stats.late + w.stats.overflows + w.frames.len() + played(
                fresh(target, max),
                steps,
            )
        }),
{
    let v = fresh(target, max);
    lemma_accounts(v, base, zero_of(base, steps), steps);
    lemma_ran_is_valid(v, steps);
}

/// A packet's number differs from that of the packet before by as much as their
/// wire numbers do, modulo 2^32, and by the least such amount; the first packet
/// of a burst is number 0.
pub proof fn law_numbers_follow_the_wire(v: JitterView, seq: u32)
    ensures
        v.anchor is None ==> extended(v, seq) == 0,
        v.anchor matches Some((wire, number)) ==> {
            let step = extended(v, seq) - number;
            &&& (step - (seq - wire)) % 0x1_0000_0000 == 0
            &&& -0x8000_0000 <= step < 0x8000_0000
        },
{
}

/// An empty buffer waits for at least one frame and holds at least as many as it
/// waits for; otherwise it is as it was asked to be.
pub proof fn law_a_new_buffer_is_empty(target: nat, max: nat)
    ensures
        ({
            let v = fresh(target, max);
            &&& v.frames.dom() == Set::<i64>::empty()
            &&& v.anchor is None && v.next is None && !v.playing
            &&& v.stats.received == 0 && v.stats.late == 0 && v.stats.lost == 0
                && v.stats.underruns == 0 && v.stats.overflows == 0
            &&& v.target >= 1 && v.max >= v.target
            &&& target >= 1 ==> v.target == target
            &&& target == 0 ==> v.target == 1
            &&& max >= v.target ==> v.max == max
            &&& max < v.target ==> v.max == v.target
        }),
{
    assert(fresh(target, max).frames.dom() =~= Set::empty());
}

/// A reset forgets the burst and keeps everything else: how the buffer is set,
/// and what it has counted.
pub proof fn law_a_reset_keeps_the_counts(v: JitterView)
    ensures
        restarted(v).frames.dom() == Set::<i64>::empty(),
        restarted(v).anchor is None,
        restarted(v).next is None,
        !restarted(v).playing,
        restarted(v).target == v.target,
        restarted(v).max == v.max,
        restarted(v).stats == v.stats,
{
    assert(restarted(v).frames.dom() =~= Set::empty());
}

/// Every packet is counted and is what the next is numbered from; taking it in
/// neither starts nor stops playback, nor tells of a loss.
pub proof fn law_every_packet_is_counted(v: JitterView, seq: u32, payload: Bytes)
    requires
        valid(v),
        takes(v, seq),
    ensures
        ({
            let w = pushed(v, seq, payload);
            &&& w.stats.received == v.stats.received + 1
            &&& w.stats.lost == v.stats.lost
            &&& w.stats.underruns == v.stats.underruns
            &&& w.anchor == Some((seq, extended(v, seq) as i64))
            &&& w.playing == v.playing
            &&& w.target == v.target
            &&& w.max == v.max
        }),
{
}

/// A packet that is not late, and for which there is room, is held under its
/// number, in place of one that was held there; every other frame stays, and
/// nothing is counted as late or dropped.
pub proof fn law_a_packet_in_time_is_held(v: JitterView, seq: u32, payload: Bytes, k: i64)
    requires
        valid(v),
        takes(v, seq),
        v.playing ==> extended(v, seq) >= v.next->0,
        v.frames.len() < v.max || v.frames.contains_key(extended(v, seq) as i64),
    ensures
        ({
            let w = pushed(v, seq, payload);
            &&& w.frames.contains_key(k) <==> v.frames.contains_key(k) || k == extended(v, seq)
            &&& k == extended(v, seq) ==> w.frames[k] == payload
            &&& k != extended(v, seq) && v.frames.contains_key(k) ==> w.frames[k] == v.frames[k]
            &&& w.next == v.next
            &&& w.stats.late == v.stats.late
            &&& w.stats.overflows == v.stats.overflows
        }),
{
    let number = extended(v, seq) as i64;
    if v.frames.contains_key(number) {
        assert(v.frames.insert(number, payload).dom() =~= v.frames.dom());
    }
}

/// Where there is no room, exactly the oldest frame gives way, the new one
/// among them; it counts as dropped and as nothing else, and playback, where it
/// has begun, goes on behind it.
pub proof fn law_the_oldest_frame_gives_way(
    v: JitterView,
    seq: u32,
    payload: Bytes,
    oldest: i64,
    k: i64,
)
    requires
        valid(v),
        takes(v, seq),
        v.playing ==> extended(v, seq) >= v.next->0,
        v.frames.len() >= v.max,
        !v.frames.contains_key(extended(v, seq) as i64),
        v.frames.contains_key(oldest) || oldest == extended(v, seq),
        oldest <= extended(v, seq),
        forall|j: i64| #[trigger] v.frames.contains_key(j) ==> oldest <= j,
    ensures
        ({
            let w = pushed(v, seq, payload);
            &&& w.frames.contains_key(k) <==> k != oldest && (v.frames.contains_key(k) || k
                == extended(v, seq))
            &&& k != oldest && k == extended(v, seq) ==> w.frames[k] == payload
            &&& k != oldest && v.frames.contains_key(k) ==> w.frames[k] == v.frames[k]
            &&& w.stats.overflows == v.stats.overflows + 1
            &&& w.stats.late == v.stats.late
            &&& w.next == if v.playing {
                Some((oldest + 1) as i64)
            } else {
                None
            }
        }),
{
    let frames = v.frames.insert(extended(v, seq) as i64, payload);
    lemma_some_frame_is_oldest(frames);
    assert(frames.contains_key(oldest));
    assert(frames.contains_key(oldest_of(frames)));
    assert(oldest_of(frames) <= oldest);
    assert(oldest <= oldest_of(frames));
}

/// A late packet leaves everything that is held, and the place of playback, as
/// it was, and is counted as late alone.
pub proof fn law_a_late_packet_is_only_counted(v: JitterView, seq: u32, payload: Bytes)
    requires
        valid(v),
        takes(v, seq),
        v.playing,
        extended(v, seq) < v.next->0,
    ensures
        ({
            let w = pushed(v, seq, payload);
            &&& w.frames == v.frames
            &&& w.next == v.next
            &&& w.stats.late == v.stats.late + 1
            &&& w.stats.overflows == v.stats.overflows
        }),
{
}

/// The wait ends exactly when the backlog reaches its target, whatever has been
/// counted: the frame with the lowest number plays, and playback goes on behind
/// it.
pub proof fn law_a_filled_backlog_plays(v: JitterView, k: i64)
    requires
        valid(v),
        !v.playing,
        v.frames.len() >= v.target,
        v.frames.contains_key(k),
        forall|j: i64| #[trigger] v.frames.contains_key(j) ==> k <= j,
    ensures
        output(v) == Some(JitterOutput::Frame(v.frames[k])),
        popped(v).playing,
        popped(v).next == Some((k + 1) as i64),
        popped(v).frames == v.frames.remove(k),
        popped(v).stats == v.stats,
{
    lemma_some_frame_is_oldest(v.frames);
    assert(v.frames.contains_key(oldest_of(v.frames)));
    assert(oldest_of(v.frames) == k);
}

/// Until then nothing plays and nothing changes.
pub proof fn law_a_filling_backlog_is_silent(v: JitterView)
    requires
        valid(v),
        !v.playing,
        v.frames.len() < v.target,
    ensures
        output(v) is None,
        popped(v) == v,
{
}

/// While it plays, the frame held for the slot that is due plays and leaves; no
/// other frame is touched, and nothing is counted.
pub proof fn law_the_frame_that_is_due_plays(v: JitterView)
    requires
        valid(v),
        v.playing,
        v.frames.contains_key(v.next->0),
    ensures
        output(v) == Some(JitterOutput::Frame(v.frames[v.next->0])),
        popped(v).frames == v.frames.remove(v.next->0),
        popped(v).next == Some((v.next->0 + 1) as i64),
        popped(v).playing,
        popped(v).stats == v.stats,
{
}

/// A slot whose frame is missing while later ones wait is lost: it is counted
/// once, costs its slot, and keeps what waits.
pub proof fn law_a_missing_frame_is_lost(v: JitterView, k: i64)
    requires
        valid(v),
        v.playing,
        v.stats.lost < u64::MAX,
        !v.frames.contains_key(v.next->0),
        v.frames.contains_key(k),
    ensures
        output(v) == Some(JitterOutput::Lost),
        popped(v).frames == v.frames,
        popped(v).next == Some((v.next->0 + 1) as i64),
        popped(v).playing,
        popped(v).stats.lost == v.stats.lost + 1,
        popped(v).stats.underruns == v.stats.underruns,
{
    assert(v.frames.len() > 0) by {
        if v.frames.len() == 0 {
            assert(v.frames.dom() =~= Set::empty());
        }
    }
}

/// With nothing left, playback stops and waits for a backlog again; that counts
/// as running dry and as no loss.
pub proof fn law_running_dry_stops_playback(v: JitterView)
    requires
        valid(v),
        v.playing,
        v.frames.len() == 0,
    ensures
        output(v) is None,
        !popped(v).playing,
        popped(v).next is None,
        popped(v).frames == v.frames,
        popped(v).stats.underruns == v.stats.underruns + 1,
        popped(v).stats.lost == v.stats.lost,
{
    assert(v.frames.dom() =~= Set::empty());
}

/// Playing changes neither how the buffer is set nor what has been counted of
/// arrivals, nor where the next packet is numbered from.
pub proof fn law_playing_leaves_arrivals_alone(v: JitterView)
    requires
        valid(v),
    ensures
        popped(v).target == v.target,
        popped(v).max == v.max,
        popped(v).anchor == v.anchor,
        popped(v).stats.received == v.stats.received,
        popped(v).stats.late == v.stats.late,
        popped(v).stats.overflows == v.stats.overflows,
{
}


/// A packet can be taken as long as it can be counted and the number after its
/// own still has room.
pub proof fn law_when_a_packet_can_be_taken(v: JitterView, seq: u32)
    ensures
        takes(v, seq) <==> v.stats.received + 1 <= u64::MAX && i64::MIN <= extended(v, seq)
            && extended(v, seq) + 1 <= i64::MAX,
{
}
} // verus!
