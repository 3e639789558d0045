use bytes::Bytes;
use pickle::audio::codec::DEFAULT_BITRATE;
use pickle::audio::engine::{
    decode_gate_mode, encode_gate_mode, AudioError, Capture, CapturedFrame, EngineConfig, Framer,
};
use pickle::audio::vad::{level_rank, GateMode, DEFAULT_HANGOVER_MS};
use pickle::proto::voice::{FLAG_BURST_END, FLAG_BURST_START, FRAME_MS, SAMPLES_PER_FRAME};

/// A microphone without a sound card.
struct Microphone {
    framer: Framer<f32>,
    capture: Capture,
    mode: GateMode,
    muted: bool,
    held: bool,
    sent: Vec<CapturedFrame>,
}

impl Microphone {
    fn new(mode: GateMode) -> Self {
        Microphone {
            framer: Framer::new(),
            capture: Capture::new(DEFAULT_BITRATE),
            mode,
            muted: false,
            held: false,
            sent: Vec::new(),
        }
    }

    fn push(&mut self, samples: &[f32]) {
        let mut from = 0;
        while from < samples.len() {
            from = self.framer.feed(samples, from);
            let level = match self.framer.frame() {
                None => continue,
                Some(frame) => {
                    let sum: f32 = frame.iter().map(|s| s * s).sum();
                    let rms = (sum / frame.len() as f32).sqrt();
                    level_rank((20.0 * rms.log10()).to_bits())
                }
            };
            self.framer.clear();
            let activity = self
                .capture
                .process(level, self.muted, self.held, self.mode);
            if activity.should_transmit() {
                let payload = Bytes::from_static(b"opus");
                self.sent.push(self.capture.encoded(activity, payload));
            }
        }
    }

    fn taken(&mut self) -> Vec<CapturedFrame> {
        std::mem::take(&mut self.sent)
    }
}

fn loud(samples: usize) -> Vec<f32> {
    (0..samples)
        .map(|i| if i % 2 == 0 { 0.25 } else { -0.25 })
        .collect()
}

#[test]
fn capture_emits_one_frame_per_twenty_milliseconds_of_audio() {
    let mut capture = Microphone::new(GateMode::Continuous);
    capture.push(&loud(SAMPLES_PER_FRAME * 3));
    assert_eq!(capture.taken().len(), 3);
}

#[test]
fn capture_buffers_a_partial_frame_until_it_is_complete() {
    // Device buffer sizes rarely line up with 960 samples, so this is the
    // normal case rather than an edge case.
    let mut capture = Microphone::new(GateMode::Continuous);

    capture.push(&loud(SAMPLES_PER_FRAME - 1));
    assert_eq!(capture.taken().len(), 0);

    capture.push(&loud(1));
    assert_eq!(capture.taken().len(), 1);
}

#[test]
fn odd_sized_pushes_still_produce_whole_frames() {
    let mut capture = Microphone::new(GateMode::Continuous);
    for _ in 0..10 {
        capture.push(&loud(333));
    }
    // 3330 samples is three whole frames plus a remainder.
    assert_eq!(capture.taken().len(), 3);
}

#[test]
fn the_first_transmitted_frame_is_marked_as_a_burst_start() {
    let mut capture = Microphone::new(GateMode::VoiceActivity);
    capture.push(&loud(SAMPLES_PER_FRAME * 2));

    let collected: Vec<_> = capture.taken();
    assert!(collected[0].flags & FLAG_BURST_START != 0);
    assert_eq!(collected[1].flags, 0);
}

#[test]
fn silence_is_not_transmitted() {
    // The point of the voice gate: an idle microphone costs no bandwidth.
    let mut capture = Microphone::new(GateMode::VoiceActivity);
    capture.push(&vec![0.0f32; SAMPLES_PER_FRAME * 5]);
    assert_eq!(capture.taken().len(), 0);
}

#[test]
fn muting_stops_transmission() {
    let mut capture = Microphone::new(GateMode::Continuous);
    capture.push(&loud(SAMPLES_PER_FRAME));
    assert_eq!(capture.taken().len(), 1);

    capture.muted = true;
    capture.push(&loud(SAMPLES_PER_FRAME * 5));

    let after_mute: Vec<_> = capture.taken();
    // At most one frame, closing the burst; never continued audio.
    assert!(
        after_mute.len() <= 1,
        "got {} frames while muted",
        after_mute.len()
    );
    if let Some(frame) = after_mute.first() {
        assert!(frame.flags & FLAG_BURST_END != 0);
    }
}

#[test]
fn push_to_talk_gates_on_the_key_not_the_level() {
    let mut capture = Microphone::new(GateMode::PushToTalk);

    capture.push(&loud(SAMPLES_PER_FRAME * 2));
    assert_eq!(
        capture.taken().len(),
        0,
        "loud audio without the key held"
    );

    capture.held = true;
    capture.push(&loud(SAMPLES_PER_FRAME * 2));
    assert_eq!(capture.taken().len(), 2);
}

#[test]
fn the_level_meter_is_updated_even_while_silent() {
    // The meter has to move while the voice gate is shut, or a user cannot tell
    // whether their microphone works.
    let mut capture = Microphone::new(GateMode::VoiceActivity);
    capture.push(&loud(SAMPLES_PER_FRAME));

    let level = capture.capture.gate.level_dbfs();
    let dbfs = |v: f32| level_rank(v.to_bits());
    assert!(level > dbfs(-20.0) && level < dbfs(0.0), "got {level}");
}

#[test]
fn a_muted_microphone_still_moves_the_meter() {
    let mut capture = Microphone::new(GateMode::VoiceActivity);
    capture.muted = true;
    capture.push(&loud(SAMPLES_PER_FRAME));
    assert!(capture.taken().is_empty());

    let level = capture.capture.gate.level_dbfs();
    let dbfs = |v: f32| level_rank(v.to_bits());
    assert!(level > dbfs(-20.0) && level < dbfs(0.0), "got {level}");
}

#[test]
fn the_transmit_flag_follows_the_gate_not_the_level() {
    // The distinction the indicator exists to draw: a loud room with the
    // gate shut is not the same as being heard.
    let mut capture = Microphone::new(GateMode::PushToTalk);

    capture.push(&loud(SAMPLES_PER_FRAME));
    assert!(
        !capture.capture.transmitting,
        "loud but not keyed",
    );

    capture.held = true;
    capture.push(&loud(SAMPLES_PER_FRAME));
    assert!(capture.capture.transmitting, "keyed");

    // Releasing does not stop transmission immediately: the voice gate holds open
    // through its hangover so word endings are not clipped, and the
    // indicator should stay lit for exactly as long as audio is still going
    // out. So this pushes past the hangover before expecting it to drop.
    capture.held = false;
    let hangover_frames = DEFAULT_HANGOVER_MS.div_ceil(FRAME_MS) as usize;
    capture.push(&loud(SAMPLES_PER_FRAME * (hangover_frames + 2)));
    assert!(
        !capture.capture.transmitting,
        "once the hangover expires it must drop rather than latch on",
    );
}

#[test]
fn muting_clears_the_transmit_flag() {
    let mut capture = Microphone::new(GateMode::Continuous);
    capture.push(&loud(SAMPLES_PER_FRAME));
    assert!(capture.capture.transmitting);

    capture.muted = true;
    // Two frames: the first closes the burst and still goes out, the second
    // is silent. The indicator must be off by the end.
    capture.push(&loud(SAMPLES_PER_FRAME * 2));
    assert!(
        !capture.capture.transmitting,
        "a muted microphone must never read as transmitting",
    );
}

#[test]
fn sequence_numbers_restart_on_each_burst() {
    let mut capture = Microphone::new(GateMode::VoiceActivity);

    capture.push(&loud(SAMPLES_PER_FRAME * 2));
    // Long enough silence to close the voice gate through its hangover.
    capture.push(&vec![0.0f32; SAMPLES_PER_FRAME * 30]);
    capture.push(&loud(SAMPLES_PER_FRAME * 2));

    let collected: Vec<_> = capture.taken();
    let starts: Vec<_> = collected
        .iter()
        .filter(|f| f.flags & FLAG_BURST_START != 0)
        .collect();
    assert_eq!(starts.len(), 2, "two separate bursts expected");
    assert!(
        starts.iter().all(|f| f.seq == 0),
        "each burst starts at zero"
    );
}


#[test]
fn a_mode_comes_back_from_its_octet() {
    for mode in [
        GateMode::VoiceActivity,
        GateMode::PushToTalk,
        GateMode::Continuous,
    ] {
        assert_eq!(decode_gate_mode(encode_gate_mode(mode)), mode);
    }
    assert_eq!(decode_gate_mode(200), GateMode::VoiceActivity);
}

#[test]
fn the_default_engine_listens_on_the_default_devices() {
    let config = EngineConfig::default();
    assert_eq!(config.input_device, None);
    assert_eq!(config.output_device, None);
    assert_eq!(config.bitrate, DEFAULT_BITRATE);
    assert_eq!(config.gate_mode, GateMode::VoiceActivity);
}

#[test]
fn audio_errors_have_words() {
    assert!(AudioError::BuildStream("busy".into()).message().contains("busy"));
    assert!(AudioError::PlayStream("busy".into()).message().contains("busy"));
    assert!(!AudioError::ThreadLost.message().is_empty());
}
