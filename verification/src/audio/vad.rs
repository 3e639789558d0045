//! Voice activity detection.
//!
//! A level gate with hysteresis: it opens above one threshold, closes below a
//! lower one, and then holds open for a *hangover*. Without hysteresis the voice gate
//! chatters at the threshold; without hangover it clips the quiet consonants at
//! the ends of words.
//!
//! Levels are measured as floating point decibels by the caller, and come here
//! as ranks: whole numbers that order exactly as the levels do.

use crate::proto::voice::{FLAG_BURST_END, FLAG_BURST_START, FRAME_MS};
use vstd::prelude::*;

verus! {

/// Where the voice gate opens: the rank of -40 dBFS. Well above room tone, below
/// speech.
pub const DEFAULT_OPEN_DBFS: i32 = -0x4220_0000;

/// Where it closes: the rank of -50 dBFS. The gap is the hysteresis.
pub const DEFAULT_CLOSE_DBFS: i32 = -0x4248_0000;

/// How long the voice gate stays open after the level drops, in milliseconds.
pub const DEFAULT_HANGOVER_MS: u32 = 300;

/// What an IEEE 754 single with these bits stands for, as far as order goes:
/// its magnitude with its sign. Both zeros are 0.
pub open spec fn signed_magnitude(bits: u32) -> int {
    if bits < 0x8000_0000 {
        bits as int
    } else {
        0x8000_0000 - bits
    }
}

/// Whether these are the bits of a number rather than of a NaN.
pub open spec fn is_number(bits: u32) -> bool {
    -0x7f80_0000 <= signed_magnitude(bits) <= 0x7f80_0000
}

fn magnitude(bits: u32) -> (m: i32)
    ensures
        m == signed_magnitude(bits),
{
    if bits < 0x8000_0000 {
        bits as i32
    } else {
        -((bits - 0x8000_0000) as i32)
    }
}

/// The rank of a measured level. What is not a number reaches no threshold.
pub fn level_rank(bits: u32) -> (r: i32)
    ensures
        r == if is_number(bits) { signed_magnitude(bits) } else { i32::MIN as int },
{
    let m: i32 = magnitude(bits);
    if -0x7f80_0000 <= m && m <= 0x7f80_0000 {
        m
    } else {
        i32::MIN
    }
}

/// The rank of a threshold. What is not a number is reached by no level.
pub fn threshold_rank(bits: u32) -> (r: i32)
    ensures
        r == if is_number(bits) { signed_magnitude(bits) } else { i32::MAX as int },
{
    let m: i32 = magnitude(bits);
    if -0x7f80_0000 <= m && m <= 0x7f80_0000 {
        m
    } else {
        i32::MAX
    }
}

/// What to do with a frame.
#[derive(Debug, Clone, Copy, PartialEq, Eq, Structural)]
pub enum Activity {
    /// Below the voice gate. Send nothing.
    Silent,
    /// First frame of a burst.
    BurstStart,
    /// Continuing.
    Speaking,
    /// Last frame. Marked, so that receivers can release their jitter buffer
    /// at once instead of waiting for a timeout.
    BurstEnd,
}

impl Activity {
    pub fn should_transmit(self) -> (r: bool)
        ensures
            r == (self != Activity::Silent),
    {
        match self {
            Activity::Silent => false,
            _ => true,
        }
    }

    /// Voice datagram flags for this frame.
    pub fn flags(self) -> (f: u8)
        ensures
            f == flags_of(self),
    {
        match self {
            Activity::BurstStart => FLAG_BURST_START,
            Activity::BurstEnd => FLAG_BURST_END,
            _ => 0,
        }
    }
}

/// The datagram flags of an activity.
pub open spec fn flags_of(a: Activity) -> u8 {
    match a {
        Activity::BurstStart => FLAG_BURST_START,
        Activity::BurstEnd => FLAG_BURST_END,
        Activity::Silent => 0,
        Activity::Speaking => 0,
    }
}

/// How the microphone is gated.
#[derive(Debug, Clone, Copy, PartialEq, Eq, Structural)]
pub enum GateMode {
    /// Gate on measured level.
    VoiceActivity,
    /// Transmit only while a key is held.
    PushToTalk,
    /// Always transmit, for testing and for users with a gate of their own.
    Continuous,
}

pub struct VoiceGate {
    pub mode: GateMode,
    pub open_threshold: i32,
    pub close_threshold: i32,
    pub hangover_frames: u32,
    pub hangover_remaining: u32,
    pub open: bool,
    /// Last measured level, for a meter.
    pub last_level: i32,
}

/// Whole frames that cover this many milliseconds.
pub open spec fn frames_covering(ms: u32) -> u32 {
    ((ms + FRAME_MS - 1) / FRAME_MS as int) as u32
}

fn frames_for(ms: u32) -> (n: u32)
    ensures
        n == frames_covering(ms),
{
    if ms % FRAME_MS == 0 {
        ms / FRAME_MS
    } else {
        ms / FRAME_MS + 1
    }
}

/// Closing above opening would make the voice gate oscillate every frame.
pub open spec fn not_above(close: i32, open: i32) -> i32 {
    if close <= open {
        close
    } else {
        open
    }
}

/// Whether the voice gate should be open for a frame of this level.
pub open spec fn wants_open(g: VoiceGate, level: i32, key_held: bool) -> bool {
    match g.mode {
        GateMode::Continuous => true,
        GateMode::PushToTalk => key_held,
        GateMode::VoiceActivity => level >= if g.open { g.close_threshold } else { g.open_threshold },
    }
}

/// The voice gate after one frame.
pub open spec fn updated(g: VoiceGate, level: i32, key_held: bool) -> VoiceGate {
    if wants_open(g, level, key_held) {
        VoiceGate { last_level: level, open: true, hangover_remaining: g.hangover_frames, ..g }
    } else if g.open && g.hangover_remaining > 1 {
        VoiceGate {
            last_level: level,
            hangover_remaining: (g.hangover_remaining - 1) as u32,
            ..g
        }
    } else if g.open {
        VoiceGate { last_level: level, open: false, hangover_remaining: 0, ..g }
    } else {
        VoiceGate { last_level: level, ..g }
    }
}

/// What the voice gate makes of a frame: whether it was open before, and is after.
pub open spec fn activity(was_open: bool, is_open: bool) -> Activity {
    if was_open && is_open {
        Activity::Speaking
    } else if was_open {
        Activity::BurstEnd
    } else if is_open {
        Activity::BurstStart
    } else {
        Activity::Silent
    }
}

impl Default for VoiceGate {
    fn default() -> (g: Self)
        ensures
            g.wf(),
            g.mode == GateMode::VoiceActivity,
            g.open_threshold == DEFAULT_OPEN_DBFS,
            g.close_threshold == DEFAULT_CLOSE_DBFS,
            g.hangover_frames == 15,
            g.hangover_remaining == 0,
            !g.open,
            g.last_level == silence(),
    {
        Self::new(
            GateMode::VoiceActivity,
            DEFAULT_OPEN_DBFS,
            DEFAULT_CLOSE_DBFS,
            DEFAULT_HANGOVER_MS,
        )
    }
}

/// The rank of digital silence: negative infinity decibels.
pub open spec fn silence() -> i32 {
    (-0x7f80_0000) as i32
}

impl VoiceGate {
    /// The hysteresis never turns into an oscillator.
    pub open spec fn wf(&self) -> bool {
        self.close_threshold <= self.open_threshold
    }

    pub fn new(mode: GateMode, open_dbfs: i32, close_dbfs: i32, hangover_ms: u32) -> (g: Self)
        ensures
            g.wf(),
            g == (VoiceGate {
                mode,
                open_threshold: open_dbfs,
                close_threshold: not_above(close_dbfs, open_dbfs),
                hangover_frames: frames_covering(hangover_ms),
                hangover_remaining: 0,
                open: false,
                last_level: silence(),
            }),
    {
        VoiceGate {
            mode,
            open_threshold: open_dbfs,
            close_threshold: if close_dbfs <= open_dbfs { close_dbfs } else { open_dbfs },
            hangover_frames: frames_for(hangover_ms),
            hangover_remaining: 0,
            open: false,
            last_level: -0x7f80_0000,
        }
    }

    pub fn set_thresholds(&mut self, open_dbfs: i32, close_dbfs: i32)
        ensures
            final(self).wf(),
            *final(self) == (VoiceGate {
                open_threshold: open_dbfs,
                close_threshold: not_above(close_dbfs, open_dbfs),
                ..*old(self)
            }),
    {
        self.open_threshold = open_dbfs;
        self.close_threshold = if close_dbfs <= open_dbfs { close_dbfs } else { open_dbfs };
    }

    pub fn set_hangover_ms(&mut self, hangover_ms: u32)
        ensures
            *final(self) == (VoiceGate {
                hangover_frames: frames_covering(hangover_ms),
                ..*old(self)
            }),
    {
        self.hangover_frames = frames_for(hangover_ms);
    }

    /// Most recent input level, for a meter.
    pub fn level_dbfs(&self) -> (l: i32)
        ensures
            l == self.last_level,
    {
        self.last_level
    }

    pub fn is_open(&self) -> (r: bool)
        ensures
            r == self.open,
    {
        self.open
    }

    /// Classify one frame by its level. `key_held` counts only in push-to-talk.
    pub fn update(&mut self, level: i32, key_held: bool) -> (a: Activity)
        ensures
            *final(self) == updated(*old(self), level, key_held),
            a == activity(old(self).open, updated(*old(self), level, key_held).open),
    {
        self.last_level = level;
        let want_open = match self.mode {
            GateMode::Continuous => true,
            GateMode::PushToTalk => key_held,
            GateMode::VoiceActivity => if self.open {
                // Stay open until it drops below the lower threshold.
                level >= self.close_threshold
            } else {
                level >= self.open_threshold
            },
        };
        if want_open {
            self.hangover_remaining = self.hangover_frames;
            if self.open {
                Activity::Speaking
            } else {
                self.open = true;
                Activity::BurstStart
            }
        } else if self.open {
            // Below the voice gate but in hangover: keep sending, so that word
            // endings are not clipped.
            if self.hangover_remaining > 0 {
                self.hangover_remaining = self.hangover_remaining - 1;
                if self.hangover_remaining == 0 {
                    self.open = false;
                    Activity::BurstEnd
                } else {
                    Activity::Speaking
                }
            } else {
                self.open = false;
                Activity::BurstEnd
            }
        } else {
            Activity::Silent
        }
    }

    /// Force the voice gate shut, as when the user mutes in mid-sentence.
    pub fn close(&mut self) -> (a: Activity)
        ensures
            *final(self) == closed_gate(*old(self)),
            a == activity(old(self).open, false),
    {
        if self.open {
            self.open = false;
            self.hangover_remaining = 0;
            Activity::BurstEnd
        } else {
            Activity::Silent
        }
    }
}

/// The voice gate forced shut.
pub open spec fn closed_gate(g: VoiceGate) -> VoiceGate {
    if g.open {
        VoiceGate { open: false, hangover_remaining: 0, ..g }
    } else {
        g
    }
}

/// The voice gate after `n` frames that do not ask for it to be open.
pub open spec fn after_quiet(g: VoiceGate, levels: Seq<i32>) -> VoiceGate
    decreases levels.len(),
{
    if levels.len() == 0 {
        g
    } else {
        updated(after_quiet(g, levels.drop_last()), levels.last(), false)
    }
}

/// A burst opens with its start, goes on, and closes with its end: a frame that
/// is sent lies between the two, and no frame outside is sent.
pub proof fn law_bursts_are_bracketed(g: VoiceGate, level: i32, key_held: bool)
    ensures
        ({
            let h = updated(g, level, key_held);
            let a = activity(g.open, h.open);
            &&& a == Activity::BurstStart <==> !g.open && h.open
            &&& a == Activity::BurstEnd <==> g.open && !h.open
            &&& a == Activity::Silent ==> !g.open && !h.open
            &&& flags_of(a) == FLAG_BURST_START <==> a == Activity::BurstStart
            &&& flags_of(a) == FLAG_BURST_END <==> a == Activity::BurstEnd
        }),
{
}

/// A level between the thresholds does not open a closed gate, and keeps an
/// open one open.
pub proof fn law_hysteresis(g: VoiceGate, level: i32, key_held: bool)
    requires
        g.mode == GateMode::VoiceActivity,
        g.close_threshold <= level < g.open_threshold,
    ensures
        updated(g, level, key_held).open == g.open,
{
}

/// Below the lower threshold an open gate goes on sending for the frames of its
/// hangover, and the burst ends with the last of them, or with the first where
/// there is no hangover.
pub proof fn law_hangover_lasts_its_frames(g: VoiceGate, levels: Seq<i32>)
    requires
        g.open,
        g.mode == GateMode::VoiceActivity || g.mode == GateMode::PushToTalk,
        g.wf(),
        g.mode == GateMode::VoiceActivity ==> forall|i: int|
            0 <= i < levels.len() ==> levels[i] < g.close_threshold,
    ensures
        ({
            let span = if g.hangover_remaining == 0 { 1 } else { g.hangover_remaining as int };
            after_quiet(g, levels).open <==> levels.len() < span
        }),
{
    lemma_quiet(g, levels);
}

proof fn lemma_quiet(g: VoiceGate, levels: Seq<i32>)
    requires
        g.open,
        g.mode == GateMode::VoiceActivity || g.mode == GateMode::PushToTalk,
        g.wf(),
        g.mode == GateMode::VoiceActivity ==> forall|i: int|
            0 <= i < levels.len() ==> levels[i] < g.close_threshold,
    ensures
        ({
            let h = after_quiet(g, levels);
            let span = if g.hangover_remaining == 0 { 1 } else { g.hangover_remaining as int };
            &&& h.mode == g.mode
            &&& h.open_threshold == g.open_threshold
            &&& h.close_threshold == g.close_threshold
            &&& h.open <==> levels.len() < span
            &&& h.open ==> h.hangover_remaining == g.hangover_remaining - levels.len()
        }),
    decreases levels.len(),
{
    if levels.len() > 0 {
        lemma_quiet(g, levels.drop_last());
    }
}

/// With a key to hold, only the key counts; without a gate, every frame is
/// sent.
pub proof fn law_the_level_counts_only_in_voice_activity(
    g: VoiceGate,
    one: i32,
    other: i32,
    key_held: bool,
)
    ensures
        g.mode == GateMode::PushToTalk ==> updated(g, one, key_held).open == updated(
            g,
            other,
            key_held,
        ).open,
        g.mode == GateMode::Continuous ==> updated(g, one, key_held).open,
        g.mode != GateMode::PushToTalk ==> updated(g, one, true) == updated(g, one, false),
{
}

/// Closing ends a burst once.
pub proof fn law_closing_twice_is_closing_once(g: VoiceGate)
    ensures
        closed_gate(closed_gate(g)) == closed_gate(g),
        activity(closed_gate(g).open, closed_gate(closed_gate(g)).open) == Activity::Silent,
{
}

/// A level that is not a number reaches no threshold, and a threshold that is
/// not a number is reached by no level.
pub proof fn law_a_nan_opens_nothing(level: u32, threshold: u32)
    ensures
        !is_number(level) && is_number(threshold) ==> i32::MIN < signed_magnitude(threshold),
        !is_number(threshold) && is_number(level) ==> signed_magnitude(level) < i32::MAX,
{
}

/// Whether a frame asks for the voice gate to be open: always without a gate,
/// by the key in push-to-talk, and by the level otherwise, which has to reach
/// the upper threshold to open it and the lower one to keep it open.
pub open spec fn asks(g: VoiceGate, level: i32, key_held: bool) -> bool {
    ||| g.mode == GateMode::Continuous
    ||| g.mode == GateMode::PushToTalk && key_held
    ||| g.mode == GateMode::VoiceActivity && !g.open && level >= g.open_threshold
    ||| g.mode == GateMode::VoiceActivity && g.open && level >= g.close_threshold
}

/// A frame that asks opens the voice gate, or keeps it open, and the whole
/// hangover is before it again, whatever was left of it.
pub proof fn law_an_asking_frame_refills_the_hangover(g: VoiceGate, level: i32, key_held: bool)
    requires
        asks(g, level, key_held),
    ensures
        updated(g, level, key_held).open,
        updated(g, level, key_held).hangover_remaining == g.hangover_frames,
{
}

/// A frame that does not ask never opens a closed gate; an open one has a frame
/// less of its hangover, and closes when none is left.
pub proof fn law_a_quiet_frame_uses_the_hangover_up(g: VoiceGate, level: i32, key_held: bool)
    requires
        !asks(g, level, key_held),
    ensures
        !g.open ==> !updated(g, level, key_held).open && updated(g, level, key_held).hangover_remaining
            == g.hangover_remaining,
        g.open && g.hangover_remaining > 0 ==> updated(g, level, key_held).hangover_remaining
            == g.hangover_remaining - 1,
        g.open && g.hangover_remaining == 0 ==> updated(g, level, key_held).hangover_remaining == 0,
        g.open ==> (updated(g, level, key_held).open <==> updated(
            g,
            level,
            key_held,
        ).hangover_remaining > 0),
{
}

/// A frame is measured, and changes nothing of how the voice gate is set.
pub proof fn law_a_frame_leaves_the_settings(g: VoiceGate, level: i32, key_held: bool)
    ensures
        updated(g, level, key_held).last_level == level,
        updated(g, level, key_held).mode == g.mode,
        updated(g, level, key_held).open_threshold == g.open_threshold,
        updated(g, level, key_held).close_threshold == g.close_threshold,
        updated(g, level, key_held).hangover_frames == g.hangover_frames,
        closed_gate(g).mode == g.mode,
        closed_gate(g).open_threshold == g.open_threshold,
        closed_gate(g).close_threshold == g.close_threshold,
        closed_gate(g).hangover_frames == g.hangover_frames,
        closed_gate(g).last_level == g.last_level,
        !closed_gate(g).open,
        closed_gate(g).hangover_remaining == if g.open {
            0
        } else {
            g.hangover_remaining
        },
{
}

/// The burst ends a whole hangover after the last frame that asked for it, or
/// with the first quiet frame where there is no hangover, however much had been
/// used up before.
pub proof fn law_a_burst_outlasts_its_last_asking_frame(
    g: VoiceGate,
    level: i32,
    key_held: bool,
    quiet: Seq<i32>,
)
    requires
        asks(g, level, key_held),
        g.mode != GateMode::Continuous,
        g.wf(),
        g.mode == GateMode::VoiceActivity ==> forall|i: int|
            0 <= i < quiet.len() ==> quiet[i] < g.close_threshold,
    ensures
        after_quiet(updated(g, level, key_held), quiet).open <==> quiet.len() < (
        if g.hangover_frames == 0 {
            1
        } else {
            g.hangover_frames as int
        }),
{
    law_hangover_lasts_its_frames(updated(g, level, key_held), quiet);
}

/// A frame is sent while the voice gate is open, before or after it: the first
/// of a burst is marked as its start, the last as its end, and no other is
/// marked.
pub proof fn law_what_is_sent_and_how_it_is_marked(was_open: bool, is_open: bool)
    ensures
        activity(was_open, is_open) == Activity::Silent <==> !was_open && !is_open,
        activity(was_open, is_open) == Activity::Speaking <==> was_open && is_open,
        activity(was_open, is_open) == Activity::BurstStart <==> !was_open && is_open,
        activity(was_open, is_open) == Activity::BurstEnd <==> was_open && !is_open,
        flags_of(activity(was_open, is_open)) == if was_open == is_open {
            0u8
        } else if is_open {
            1u8
        } else {
            2u8
        },
{
}

/// The hangover covers its milliseconds in whole frames of 20 ms, and with none
/// to spare.
pub proof fn law_the_hangover_covers_its_milliseconds(ms: u32)
    ensures
        20 * frames_covering(ms) >= ms,
        20 * frames_covering(ms) < ms + 20,
{
}

/// The lower threshold is never above the upper one, and is the one asked for
/// wherever that is possible.
pub proof fn law_the_lower_threshold_stays_below(close: i32, open: i32)
    ensures
        not_above(close, open) <= open,
        not_above(close, open) <= close,
        not_above(close, open) == close || not_above(close, open) == open,
{
}

/// Levels rank as the numbers that their bits stand for: sign first, then by
/// magnitude, which grows with the bits and turns round below zero; both zeros
/// rank alike.
pub proof fn law_levels_rank_as_numbers(a: u32, b: u32)
    ensures
        a < 0x8000_0000 && b < 0x8000_0000 ==> (signed_magnitude(a) < signed_magnitude(b) <==> a
            < b),
        a >= 0x8000_0000 && b >= 0x8000_0000 ==> (signed_magnitude(a) < signed_magnitude(b) <==> a
            > b),
        a >= 0x8000_0000 && b < 0x8000_0000 ==> signed_magnitude(a) <= signed_magnitude(b),
        signed_magnitude(0) == 0 && signed_magnitude(0x8000_0000) == 0,
        a % 0x8000_0000 > 0x7f80_0000 <==> !is_number(a),
{
}

} // verus!
