//! The capture side of the engine: cutting a stream of samples into frames, and
//! deciding for each frame whether and how it is sent.
//!
//! The sound card, the codec and the conversion of rates stay with the caller,
//! which hands over samples and measured levels.

use crate::audio::codec;
use crate::audio::codec::{CodecError, VoiceEncoder, DEFAULT_BITRATE};
use crate::audio::devices;
use crate::audio::devices::DeviceError;
use crate::audio::vad;
use crate::audio::vad::{Activity, GateMode, VoiceGate};
use crate::proto::voice::SAMPLES_PER_FRAME;
use crate::text;
use bytes::Bytes;
use vstd::prelude::*;

verus! {

#[derive(Debug)]
pub enum AudioError {
    Device(DeviceError),
    Codec(CodecError),
    BuildStream(String),
    PlayStream(String),
    ThreadLost,
}

/// The sentence of an audio error.
pub open spec fn audio_sentence(e: AudioError) -> Seq<char> {
    match e {
        AudioError::Device(inner) => devices::device_sentence(inner),
        AudioError::Codec(inner) => codec::codec_sentence(inner),
        AudioError::BuildStream(why) => "could not open the audio stream: "@ + why@,
        AudioError::PlayStream(why) => "could not start the audio stream: "@ + why@,
        AudioError::ThreadLost => "the audio thread stopped unexpectedly"@,
    }
}

impl AudioError {
    pub fn message(&self) -> (s: String)
        ensures
            s@ == audio_sentence(*self),
    {
        match self {
            AudioError::Device(inner) => inner.message(),
            AudioError::Codec(inner) => inner.message(),
            AudioError::BuildStream(why) => text::join(
                "could not open the audio stream: ",
                why.as_str(),
            ),
            AudioError::PlayStream(why) => text::join(
                "could not start the audio stream: ",
                why.as_str(),
            ),
            AudioError::ThreadLost => String::from_str("the audio thread stopped unexpectedly"),
        }
    }
}

#[derive(Debug, Clone)]
pub struct EngineConfig {
    /// Device name, or `None` for the system default.
    pub input_device: Option<String>,
    pub output_device: Option<String>,
    pub bitrate: u32,
    pub gate_mode: GateMode,
}

impl Default for EngineConfig {
    fn default() -> (c: Self)
        ensures
            c.input_device is None,
            c.output_device is None,
            c.bitrate == DEFAULT_BITRATE,
            c.gate_mode == GateMode::VoiceActivity,
    {
        EngineConfig {
            input_device: None,
            output_device: None,
            bitrate: DEFAULT_BITRATE,
            gate_mode: GateMode::VoiceActivity,
        }
    }
}

/// One encoded frame ready to put on the wire.
#[derive(Debug, Clone)]
pub struct CapturedFrame {
    pub seq: u32,
    pub flags: u8,
    pub payload: Bytes,
}

/// A gate mode as one octet, for a place that holds no more.
pub open spec fn mode_code(mode: GateMode) -> u8 {
    match mode {
        GateMode::VoiceActivity => 0,
        GateMode::PushToTalk => 1,
        GateMode::Continuous => 2,
    }
}

/// The voice gate mode that an octet stands for.
pub open spec fn mode_of(code: u8) -> GateMode {
    if code == 1 {
        GateMode::PushToTalk
    } else if code == 2 {
        GateMode::Continuous
    } else {
        GateMode::VoiceActivity
    }
}

pub fn encode_gate_mode(mode: GateMode) -> (code: u8)
    ensures
        code == mode_code(mode),
{
    match mode {
        GateMode::VoiceActivity => 0,
        GateMode::PushToTalk => 1,
        GateMode::Continuous => 2,
    }
}

pub fn decode_gate_mode(code: u8) -> (mode: GateMode)
    ensures
        mode == mode_of(code),
{
    match code {
        1 => GateMode::PushToTalk,
        2 => GateMode::Continuous,
        _ => GateMode::VoiceActivity,
    }
}

/// A mode survives being held as an octet.
pub proof fn law_gate_mode_round_trip(mode: GateMode)
    ensures
        mode_of(mode_code(mode)) == mode,
{
}

/// Cuts a stream of samples into frames.
///
/// Device buffer sizes rarely line up with the frame size, so a partial frame
/// is the normal case. Room for one frame is all it ever takes, so that feeding
/// it from an audio callback never reaches for the allocator.
pub struct Framer<T> {
    pending: Vec<T>,
}

impl<T> View for Framer<T> {
    type V = Seq<T>;

    closed spec fn view(&self) -> Seq<T> {
        self.pending@
    }
}

impl<T: Copy> Framer<T> {
    pub fn new() -> (f: Self)
        ensures
            f@ == Seq::<T>::empty(),
    {
        Framer { pending: Vec::with_capacity(SAMPLES_PER_FRAME) }
    }

    /// Take samples from the place `from` on until the frame is complete or
    /// there are no more; says where it stopped.
    pub fn feed(&mut self, samples: &[T], from: usize) -> (to: usize)
        requires
            from <= samples@.len(),
            old(self)@.len() <= SAMPLES_PER_FRAME,
        ensures
            from <= to <= samples@.len(),
            final(self)@ == old(self)@ + samples@.subrange(from as int, to as int),
            final(self)@.len() <= SAMPLES_PER_FRAME,
            to == samples@.len() || final(self)@.len() == SAMPLES_PER_FRAME,
    {
        let mut to: usize = from;
        while to < samples.len() && self.pending.len() < SAMPLES_PER_FRAME
            invariant
                from <= to <= samples@.len(),
                self.pending@ == old(self)@ + samples@.subrange(from as int, to as int),
                self.pending@.len() <= SAMPLES_PER_FRAME,
            decreases samples.len() - to,
        {
            self.pending.push(samples[to]);
            proof {
                assert(samples@.subrange(from as int, to + 1) =~= samples@.subrange(
                    from as int,
                    to as int,
                ).push(samples@[to as int]));
            }
            to = to + 1;
        }
        to
    }

    /// The frame, once it is complete.
    pub fn frame(&self) -> (r: Option<&[T]>)
        ensures
            r is Some <==> self@.len() == SAMPLES_PER_FRAME,
            r matches Some(f) ==> f@ == self@,
    {
        if self.pending.len() == SAMPLES_PER_FRAME {
            Some(self.pending.as_slice())
        } else {
            None
        }
    }

    /// Start on the next frame.
    pub fn clear(&mut self)
        ensures
            final(self)@ == Seq::<T>::empty(),
    {
        self.pending.clear();
    }
}

/// The whole frames of a stream, and what is left over.
pub open spec fn cut<T>(stream: Seq<T>) -> (Seq<Seq<T>>, Seq<T>)
    decreases stream.len(),
{
    if stream.len() < SAMPLES_PER_FRAME {
        (Seq::empty(), stream)
    } else {
        let (frames, rest) = cut(stream.skip(SAMPLES_PER_FRAME as int));
        (seq![stream.take(SAMPLES_PER_FRAME as int)] + frames, rest)
    }
}

/// Completing a partial frame yields the first frame of the stream, and the
/// rest is cut as before.
pub proof fn law_feeding_completes_the_first_frame<T>(pending: Seq<T>, samples: Seq<T>, to: int)
    requires
        0 <= to <= samples.len(),
        pending.len() + to == SAMPLES_PER_FRAME,
    ensures
        cut(pending + samples).0 == seq![pending + samples.take(to)] + cut(samples.skip(to)).0,
        cut(pending + samples).1 == cut(samples.skip(to)).1,
{
    let stream = pending + samples;
    assert(stream.take(SAMPLES_PER_FRAME as int) =~= pending + samples.take(to));
    assert(stream.skip(SAMPLES_PER_FRAME as int) =~= samples.skip(to));
}

/// However a stream is handed over, in one go or piecemeal, the same frames come
/// out.
pub proof fn law_frames_do_not_depend_on_the_pieces<T>(a: Seq<T>, b: Seq<T>)
    ensures
        cut(a + b).0 == cut(a).0 + cut(cut(a).1 + b).0,
        cut(a + b).1 == cut(cut(a).1 + b).1,
    decreases a.len(),
{
    if a.len() < SAMPLES_PER_FRAME {
        assert(cut(a).0 + cut(a + b).0 =~= cut(a + b).0);
    } else {
        let n = SAMPLES_PER_FRAME as int;
        law_frames_do_not_depend_on_the_pieces(a.skip(n), b);
        assert((a + b).skip(n) =~= a.skip(n) + b);
        assert((a + b).take(n) =~= a.take(n));
        let head = seq![a.take(n)];
        let tail = cut(cut(a).1 + b).0;
        assert((head + cut(a.skip(n)).0) + tail =~= head + (cut(a.skip(n)).0 + tail));
    }
}

/// One frame comes out for each 20 ms of samples, and every sample is in one of
/// them or left over.
pub proof fn law_a_frame_per_twenty_milliseconds<T>(stream: Seq<T>)
    ensures
        cut(stream).0.len() == stream.len() / SAMPLES_PER_FRAME as nat,
        cut(stream).1.len() == stream.len() % SAMPLES_PER_FRAME as nat,
        forall|i: int|
            0 <= i < cut(stream).0.len() ==> (#[trigger] cut(stream).0[i]) == stream.subrange(
                i * SAMPLES_PER_FRAME,
                (i + 1) * SAMPLES_PER_FRAME,
            ),
    decreases stream.len(),
{
    let n = SAMPLES_PER_FRAME as int;
    if stream.len() >= n {
        let rest = stream.skip(n);
        law_a_frame_per_twenty_milliseconds(rest);
        assert forall|i: int| 0 <= i < cut(stream).0.len() implies (#[trigger] cut(stream).0[i])
            == stream.subrange(i * n, (i + 1) * n) by {
            if i > 0 {
                assert(cut(stream).0[i] == cut(rest).0[i - 1]);
                assert(i <= cut(rest).0.len());
                assert(rest.subrange((i - 1) * n, i * n) =~= stream.subrange(i * n, (i + 1) * n));
            } else {
                assert(stream.take(n) =~= stream.subrange(0, n));
            }
        }
    }
}

/// Decides, frame by frame, what is sent.
pub struct Capture {
    pub gate: VoiceGate,
    pub encoder: VoiceEncoder,
    /// True while a burst is in progress, so that muting can close it cleanly.
    pub transmitting: bool,
}

/// The voice gate and the verdict for one frame. The level is noted in any case,
/// so that a muted microphone still moves the meter.
pub open spec fn gated(
    c: Capture,
    level: i32,
    muted: bool,
    key_held: bool,
    mode: GateMode,
) -> (VoiceGate, Activity) {
    let gate = VoiceGate { mode, last_level: level, ..c.gate };
    if !muted {
        let next = vad::updated(gate, level, key_held);
        (next, vad::activity(gate.open, next.open))
    } else if c.transmitting {
        (vad::closed_gate(gate), vad::activity(gate.open, false))
    } else {
        (gate, Activity::Silent)
    }
}

/// The capture state after one frame.
pub open spec fn processed(
    c: Capture,
    level: i32,
    muted: bool,
    key_held: bool,
    mode: GateMode,
) -> Capture {
    let (gate, activity) = gated(c, level, muted, key_held, mode);
    Capture {
        gate,
        encoder: if activity == Activity::BurstStart {
            VoiceEncoder { seq: 0, ..c.encoder }
        } else {
            c.encoder
        },
        transmitting: activity == Activity::BurstStart || activity == Activity::Speaking,
    }
}

impl Capture {
    /// A burst is in progress exactly while the voice gate is open.
    pub open spec fn wf(&self) -> bool {
        self.transmitting == self.gate.open && self.gate.wf()
    }

    pub fn new(bitrate: u32) -> (c: Self)
        ensures
            c.wf(),
            !c.transmitting,
            c.gate.open_threshold == vad::DEFAULT_OPEN_DBFS,
            c.gate.close_threshold == vad::DEFAULT_CLOSE_DBFS,
            c.gate.hangover_frames == 15,
            c.encoder.bitrate_bps == codec::signed_rate(bitrate),
            c.encoder.seq == 0,
    {
        Capture {
            gate: VoiceGate::default(),
            encoder: VoiceEncoder::new(bitrate),
            transmitting: false,
        }
    }

    /// Decide on one frame of this level. The frame is sent, with the flags of
    /// the verdict, unless the verdict is silence.
    pub fn process(&mut self, level: i32, muted: bool, key_held: bool, mode: GateMode) -> (a:
        Activity)
        requires
            old(self).wf(),
        ensures
            final(self).wf(),
            *final(self) == processed(*old(self), level, muted, key_held, mode),
            a == gated(*old(self), level, muted, key_held, mode).1,
    {
        self.gate.mode = mode;
        self.gate.last_level = level;
        let activity = if muted {
            // Close the burst rather than cut it off, so that listeners release
            // their jitter buffers at once.
            if self.transmitting {
                self.gate.close()
            } else {
                Activity::Silent
            }
        } else {
            self.gate.update(level, key_held)
        };
        match activity {
            Activity::Silent => {
                self.transmitting = false;
            },
            Activity::BurstStart => {
                // Restart numbering, so that a receiver's buffer reset lines up.
                self.encoder.reset_seq();
                self.transmitting = true;
            },
            Activity::Speaking => {
                self.transmitting = true;
            },
            Activity::BurstEnd => {
                self.transmitting = false;
            },
        }
        activity
    }

    /// Number a frame that the codec has encoded. A frame that it could not
    /// encode takes no number.
    pub fn encoded(&mut self, activity: Activity, payload: Bytes) -> (f: CapturedFrame)
        ensures
            f.seq == old(self).encoder.seq,
            f.flags == vad::flags_of(activity),
            f.payload == payload,
            *final(self) == (Capture {
                encoder: VoiceEncoder {
                    seq: codec::seq_after(old(self).encoder.seq as nat + 1),
                    ..old(self).encoder
                },
                ..*old(self)
            }),
    {
        CapturedFrame { seq: self.encoder.next_seq(), flags: activity.flags(), payload }
    }
}

/// Muting sends at most one more frame, which closes the burst; from then on
/// nothing is sent while the microphone is muted.
pub proof fn law_muting_closes_the_burst_and_then_is_silent(
    c: Capture,
    first: i32,
    second: i32,
    held: bool,
    mode: GateMode,
)
    requires
        c.wf(),
    ensures
        gated(c, first, true, held, mode).1 == if c.transmitting {
            Activity::BurstEnd
        } else {
            Activity::Silent
        },
        !processed(c, first, true, held, mode).transmitting,
        gated(processed(c, first, true, held, mode), second, true, held, mode).1
            == Activity::Silent,
{
}

/// Each burst starts at number zero, and only a burst's start touches the
/// numbering.
pub proof fn law_each_burst_starts_at_zero(
    c: Capture,
    level: i32,
    muted: bool,
    held: bool,
    mode: GateMode,
)
    requires
        c.wf(),
    ensures
        ({
            let after = processed(c, level, muted, held, mode);
            let activity = gated(c, level, muted, held, mode).1;
            &&& activity == Activity::BurstStart ==> after.encoder.seq == 0
            &&& activity != Activity::BurstStart ==> after.encoder == c.encoder
            &&& activity == Activity::BurstStart <==> !c.transmitting && after.transmitting
        }),
{
}

/// The meter moves with every frame, sent or not, muted or not.
pub proof fn law_the_meter_follows_every_frame(
    c: Capture,
    level: i32,
    muted: bool,
    held: bool,
    mode: GateMode,
)
    ensures
        processed(c, level, muted, held, mode).gate.last_level == level,
{
}

/// An unmuted frame goes through the voice gate in the mode that is set; the
/// numbering is restarted with a burst and otherwise left, and how the encoder
/// is set never changes.
pub proof fn law_an_unmuted_frame_goes_through_the_gate(
    c: Capture,
    level: i32,
    held: bool,
    mode: GateMode,
)
    ensures
        ({
            let gate = VoiceGate { mode, ..c.gate };
            let after = processed(c, level, false, held, mode);
            let verdict = gated(c, level, false, held, mode).1;
            let asked = vad::asks(gate, level, held);
            &&& after.gate.mode == mode
            &&& after.gate.open_threshold == c.gate.open_threshold
            &&& after.gate.close_threshold == c.gate.close_threshold
            &&& after.gate.hangover_frames == c.gate.hangover_frames
            &&& asked ==> after.gate.open && after.gate.hangover_remaining
                == c.gate.hangover_frames
            &&& !asked ==> (after.gate.open <==> c.gate.open && c.gate.hangover_remaining > 1)
            &&& !asked && c.gate.open && c.gate.hangover_remaining > 0
                ==> after.gate.hangover_remaining == c.gate.hangover_remaining - 1
            &&& !asked && (!c.gate.open || c.gate.hangover_remaining == 0)
                ==> after.gate.hangover_remaining == c.gate.hangover_remaining
            &&& verdict == Activity::Silent <==> !c.gate.open && !after.gate.open
            &&& verdict == Activity::Speaking <==> c.gate.open && after.gate.open
            &&& verdict == Activity::BurstStart <==> !c.gate.open && after.gate.open
            &&& verdict == Activity::BurstEnd <==> c.gate.open && !after.gate.open
            &&& after.transmitting == after.gate.open
            &&& after.encoder == VoiceEncoder {
                seq: if after.gate.open && !c.gate.open {
                    0
                } else {
                    c.encoder.seq
                },
                ..c.encoder
            }
        }),
{
}

/// A muted frame leaves the voice gate shut and everything that is set as it
/// was; the burst that it cuts short ends with it, and its numbering is kept.
pub proof fn law_a_muted_frame_shuts_the_gate(
    c: Capture,
    level: i32,
    held: bool,
    mode: GateMode,
)
    requires
        c.wf(),
    ensures
        ({
            let after = processed(c, level, true, held, mode);
            &&& !after.gate.open && !after.transmitting
            &&& after.gate.mode == mode
            &&& after.gate.open_threshold == c.gate.open_threshold
            &&& after.gate.close_threshold == c.gate.close_threshold
            &&& after.gate.hangover_frames == c.gate.hangover_frames
            &&& after.gate.hangover_remaining == if c.gate.open {
                0
            } else {
                c.gate.hangover_remaining
            }
            &&& after.gate.last_level == level
            &&& after.encoder == c.encoder
            &&& gated(c, level, true, held, mode).1 == if c.gate.open {
                Activity::BurstEnd
            } else {
                Activity::Silent
            }
        }),
{
}

/// What is left over is the end of the stream.
pub proof fn law_the_rest_is_the_end_of_the_stream<T>(stream: Seq<T>)
    ensures
        cut(stream).1.len() < 960,
        cut(stream).1 == stream.skip(stream.len() - cut(stream).1.len()),
    decreases stream.len(),
{
    let n = SAMPLES_PER_FRAME as int;
    if stream.len() >= n {
        let rest = stream.skip(n);
        law_the_rest_is_the_end_of_the_stream(rest);
        assert(rest.skip(rest.len() - cut(rest).1.len()) =~= stream.skip(
            stream.len() - cut(rest).1.len(),
        ));
    } else {
        assert(stream.skip(0) =~= stream);
    }
}


/// What goes wrong with audio is put in the words of what went wrong.
pub proof fn law_an_audio_failure_is_put_in_words(e: AudioError)
    ensures
        match e {
            AudioError::Device(inner) => audio_sentence(e) == devices::device_sentence(inner),
            AudioError::Codec(inner) => audio_sentence(e) == codec::codec_sentence(inner),
            AudioError::BuildStream(why) => audio_sentence(e)
                == "could not open the audio stream: "@ + why@,
            AudioError::PlayStream(why) => audio_sentence(e)
                == "could not start the audio stream: "@ + why@,
            AudioError::ThreadLost => audio_sentence(e)
                == "the audio thread stopped unexpectedly"@,
        },
{
}
} // verus!
