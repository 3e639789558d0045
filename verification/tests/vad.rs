use pickle::audio::vad::{
    level_rank, threshold_rank, Activity, GateMode, VoiceGate, DEFAULT_CLOSE_DBFS,
    DEFAULT_OPEN_DBFS,
};
use pickle::proto::voice::{FLAG_BURST_END, FLAG_BURST_START, SAMPLES_PER_FRAME};

/// The level of a frame, in dBFS.
fn rms_dbfs(frame: &[f32]) -> f32 {
    let sum: f32 = frame.iter().map(|s| s * s).sum();
    let rms = (sum / frame.len() as f32).sqrt();
    if rms <= 0.0 {
        return f32::NEG_INFINITY;
    }
    20.0 * rms.log10()
}

fn dbfs(value: f32) -> i32 {
    threshold_rank(value.to_bits())
}

fn level(frame: &[f32]) -> i32 {
    level_rank(rms_dbfs(frame).to_bits())
}


fn frame_at(amplitude: f32) -> Vec<f32> {
    // Alternating so RMS equals the amplitude, keeping the level exact.
    (0..SAMPLES_PER_FRAME)
        .map(|i| if i % 2 == 0 { amplitude } else { -amplitude })
        .collect()
}

fn loud() -> Vec<f32> {
    frame_at(0.25) // about -12 dBFS
}

fn quiet() -> Vec<f32> {
    frame_at(0.0006) // about -64 dBFS
}

#[test]
fn the_gate_opens_on_speech_and_marks_the_burst_start() {
    let mut gate = VoiceGate::default();
    assert_eq!(gate.update(level(&quiet()), false), Activity::Silent);
    assert_eq!(gate.update(level(&loud()), false), Activity::BurstStart);
    assert_eq!(gate.update(level(&loud()), false), Activity::Speaking);
}

#[test]
fn the_burst_start_flag_is_set_only_on_the_first_frame() {
    assert_eq!(Activity::BurstStart.flags(), FLAG_BURST_START);
    assert_eq!(Activity::Speaking.flags(), 0);
    assert_eq!(Activity::BurstEnd.flags(), FLAG_BURST_END);
}

#[test]
fn the_gate_holds_open_through_the_hangover() {
    // Without this, quiet word endings get chopped off.
    let mut gate = VoiceGate::new(GateMode::VoiceActivity, dbfs(-40.0), dbfs(-50.0), 100);
    gate.update(level(&loud()), false);

    // 100 ms of hangover is 5 frames at 20 ms.
    for frame in 0..4 {
        assert_eq!(
            gate.update(level(&quiet()), false),
            Activity::Speaking,
            "frame {frame} should still be transmitting"
        );
    }
    assert_eq!(gate.update(level(&quiet()), false), Activity::BurstEnd);
    assert_eq!(gate.update(level(&quiet()), false), Activity::Silent);
}

#[test]
fn hysteresis_stops_the_gate_chattering_at_the_threshold() {
    // A level between the two thresholds must not reopen the voice gate, but
    // must keep it open once it is.
    let mut gate = VoiceGate::new(GateMode::VoiceActivity, dbfs(-40.0), dbfs(-50.0), 0);
    let between = frame_at(0.0045); // roughly -47 dBFS

    assert_eq!(gate.update(level(&between), false), Activity::Silent);

    gate.update(level(&loud()), false);
    assert_eq!(gate.update(level(&between), false), Activity::Speaking);
}

#[test]
fn thresholds_cannot_be_inverted_into_an_oscillator() {
    let gate = VoiceGate::new(GateMode::VoiceActivity, dbfs(-50.0), dbfs(-40.0), 0);
    assert!(gate.close_threshold <= gate.open_threshold);
}

#[test]
fn push_to_talk_ignores_the_level() {
    let mut gate = VoiceGate::new(GateMode::PushToTalk, dbfs(-40.0), dbfs(-50.0), 0);
    assert_eq!(gate.update(level(&loud()), false), Activity::Silent);
    assert_eq!(gate.update(level(&quiet()), true), Activity::BurstStart);
    assert_eq!(gate.update(level(&quiet()), true), Activity::Speaking);
    assert_eq!(gate.update(level(&quiet()), false), Activity::BurstEnd);
}

#[test]
fn continuous_mode_always_transmits() {
    let mut gate = VoiceGate::new(GateMode::Continuous, dbfs(-40.0), dbfs(-50.0), 0);
    assert_eq!(
        gate.update(level(&vec![0.0f32; SAMPLES_PER_FRAME]), false),
        Activity::BurstStart
    );
    assert_eq!(
        gate.update(level(&vec![0.0f32; SAMPLES_PER_FRAME]), false),
        Activity::Speaking
    );
}

#[test]
fn closing_mid_burst_ends_it_cleanly() {
    // Muting mid-sentence must still tell receivers the burst is over.
    let mut gate = VoiceGate::default();
    gate.update(level(&loud()), false);
    assert_eq!(gate.close(), Activity::BurstEnd);
    assert_eq!(gate.close(), Activity::Silent);
}

#[test]
fn the_level_meter_tracks_the_last_frame() {
    let mut gate = VoiceGate::default();
    gate.update(level(&loud()), false);
    let level = gate.level_dbfs();
    assert!((dbfs(-13.0)..dbfs(-11.0)).contains(&level), "got {level}");
}

#[test]
fn only_silence_skips_transmission() {
    assert!(!Activity::Silent.should_transmit());
    assert!(Activity::BurstStart.should_transmit());
    assert!(Activity::Speaking.should_transmit());
    assert!(Activity::BurstEnd.should_transmit());
}

#[test]
fn ranks_are_ordered_as_the_levels_are() {
    let levels = [
        f32::NEG_INFINITY,
        -120.5,
        -50.0,
        -40.0,
        -1.0e-30,
        0.0,
        1.0e-30,
        6.0,
        f32::INFINITY,
    ];
    for a in levels {
        for b in levels {
            let (x, y) = (level_rank(a.to_bits()), level_rank(b.to_bits()));
            assert_eq!(a < b, x < y, "{a} and {b}");
            assert_eq!(a == b, x == y, "{a} and {b}");
        }
    }
    assert_eq!(level_rank((-0.0f32).to_bits()), level_rank(0.0f32.to_bits()));
    assert_eq!(dbfs(-40.0), DEFAULT_OPEN_DBFS);
    assert_eq!(dbfs(-50.0), DEFAULT_CLOSE_DBFS);
}

#[test]
fn a_level_that_is_no_number_opens_nothing() {
    let mut gate = VoiceGate::default();
    let nan = level_rank(f32::NAN.to_bits());
    assert_eq!(gate.update(nan, false), Activity::Silent);
    let mut deaf = VoiceGate::new(GateMode::VoiceActivity, dbfs(f32::NAN), dbfs(-50.0), 0);
    assert_eq!(deaf.update(level(&loud()), false), Activity::Silent);
}

#[test]
fn the_hangover_is_counted_in_whole_frames() {
    let mut gate = VoiceGate::default();
    assert_eq!(gate.hangover_frames, 15);
    gate.set_hangover_ms(1);
    assert_eq!(gate.hangover_frames, 1);
    gate.set_hangover_ms(0);
    assert_eq!(gate.hangover_frames, 0);
    gate.set_thresholds(dbfs(-30.0), dbfs(-20.0));
    assert_eq!(gate.close_threshold, gate.open_threshold);
    assert!(!gate.is_open());
}
