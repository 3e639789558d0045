use rusty_opus::{Application, OpusDecoder, OpusEncoder, SignalType};
use pickle::audio::codec::{CodecError, VoiceEncoder, DEFAULT_BITRATE};
use pickle::proto::voice::{MAX_OPUS_PACKET, SAMPLES_PER_FRAME, SAMPLE_RATE};

#[test]
fn a_wrong_sized_frame_is_refused() {
    let encoder = VoiceEncoder::new(DEFAULT_BITRATE);
    assert!(matches!(
        encoder.check_frame(100),
        Err(CodecError::WrongFrameSize(100))
    ));
    assert!(encoder.check_frame(SAMPLES_PER_FRAME).is_ok());
}

#[test]
fn sequence_numbers_advance_and_wrap() {
    let mut encoder = VoiceEncoder::new(DEFAULT_BITRATE);
    assert_eq!(encoder.next_seq(), 0);
    assert_eq!(encoder.next_seq(), 1);

    encoder.seq = u32::MAX;
    assert_eq!(encoder.next_seq(), u32::MAX);
    assert_eq!(encoder.next_seq(), 0, "must wrap rather than overflow");
}

#[test]
fn a_burst_is_numbered_from_zero() {
    let mut encoder = VoiceEncoder::new(DEFAULT_BITRATE);
    encoder.next_seq();
    encoder.reset_seq();
    assert_eq!(encoder.next_seq(), 0);
}

#[test]
fn a_bitrate_past_the_signed_range_wraps_as_the_codec_takes_it() {
    let mut encoder = VoiceEncoder::new(DEFAULT_BITRATE);
    assert_eq!(encoder.bitrate_bps, 32_000);
    encoder.set_bitrate(u32::MAX);
    assert_eq!(encoder.bitrate_bps, -1);
}

#[test]
fn the_settings_make_a_codec_that_carries_a_tone() {
    // Opus is lossy, so this looks at energy rather than at exact samples.
    let settings = VoiceEncoder::new(DEFAULT_BITRATE);
    let mut encoder =
        OpusEncoder::new(settings.sample_rate, settings.channels, Application::Voip).unwrap();
    encoder.bitrate_bps = settings.bitrate_bps;
    encoder.signal_type = Some(SignalType::Voice);
    encoder.use_inband_fec = settings.use_inband_fec;
    encoder.packet_loss_perc = settings.packet_loss_perc;
    let mut decoder = OpusDecoder::new(settings.sample_rate, settings.channels).unwrap();

    let input: Vec<f32> = (0..SAMPLES_PER_FRAME)
        .map(|i| (i as f32 / SAMPLE_RATE as f32 * 440.0 * std::f32::consts::TAU).sin() * 0.25)
        .collect();
    let rms = |s: &[f32]| (s.iter().map(|x| x * x).sum::<f32>() / s.len() as f32).sqrt();
    let mut scratch = vec![0u8; MAX_OPUS_PACKET];
    let mut decoded = vec![0.0f32; SAMPLES_PER_FRAME];
    for _ in 0..10 {
        let written = encoder
            .encode(&input, SAMPLES_PER_FRAME, &mut scratch)
            .unwrap();
        assert!(written < SAMPLES_PER_FRAME / 2, "it compresses");
        let made = decoder
            .decode(&scratch[..written], SAMPLES_PER_FRAME, &mut decoded)
            .unwrap();
        assert_eq!(made, SAMPLES_PER_FRAME);
    }
    let ratio = rms(&decoded) / rms(&input);
    assert!((0.5..2.0).contains(&ratio), "ratio was {ratio}");
}

#[test]
fn codec_errors_have_words() {
    assert_eq!(CodecError::Opus("bad packet".into()).message(), "opus: bad packet");
    assert_eq!(
        CodecError::WrongFrameSize(100).message(),
        "expected a 960 sample frame, got 100"
    );
}
