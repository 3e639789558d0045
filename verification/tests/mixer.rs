use bytes::Bytes;
use rusty_opus::{Application, OpusDecoder, OpusEncoder, SignalType};
use pickle::audio::codec::{VoiceEncoder, DEFAULT_BITRATE};
use pickle::audio::jitter::JitterOutput;
use pickle::audio::mixer::{VoiceMixer, IDLE_FRAMES_BEFORE_RELEASE};
use pickle::proto::voice::{
    VoiceDownstream, CHANNELS, FLAG_BURST_START, MAX_OPUS_PACKET, SAMPLES_PER_FRAME, SAMPLE_RATE,
};
use pickle::proto::ClientId;
use std::collections::HashMap;

/// A mixer with a decoder for each speaker.
struct Speakers {
    mixer: VoiceMixer,
    decoders: HashMap<ClientId, OpusDecoder>,
}

impl Speakers {
    fn new() -> Self {
        Speakers {
            mixer: VoiceMixer::new(),
            decoders: HashMap::new(),
        }
    }

    /// Renders one frame and says how many speakers are in it.
    fn render(&mut self, out: &mut [f32]) -> usize {
        out.fill(0.0);
        let out_len = out.len();
        let decoders = &mut self.decoders;
        let mut decode = |client: ClientId, muted: bool, output: JitterOutput| {
            let decoder = decoders
                .entry(client)
                .or_insert_with(|| OpusDecoder::new(SAMPLE_RATE as i32, CHANNELS).unwrap());
            let mut pcm = vec![0.0f32; SAMPLES_PER_FRAME];
            let octets: &[u8] = match &output {
                JitterOutput::Frame(payload) => payload,
                JitterOutput::Lost => &[],
            };
            match decoder.decode(octets, SAMPLES_PER_FRAME, &mut pcm) {
                Ok(_) => {
                    if !muted {
                        for (slot, sample) in out.iter_mut().zip(&pcm) {
                            *slot += sample;
                        }
                    }
                    true
                }
                Err(_) => false,
            }
        };
        self.mixer.render(out_len, &mut decode).contributors
    }
}

fn tone(samples: usize) -> Vec<f32> {
    (0..samples)
        .map(|i| {
            let t = i as f32 / SAMPLE_RATE as f32;
            (t * 440.0 * std::f32::consts::TAU).sin() * 0.35
        })
        .collect()
}

/// Encode a run of real frames for one speaker.
fn frames(count: u32) -> Vec<Bytes> {
    let settings = VoiceEncoder::new(DEFAULT_BITRATE);
    let mut encoder =
        OpusEncoder::new(settings.sample_rate, settings.channels, Application::Voip).unwrap();
    encoder.bitrate_bps = settings.bitrate_bps;
    encoder.signal_type = Some(SignalType::Voice);
    encoder.use_inband_fec = settings.use_inband_fec;
    encoder.packet_loss_perc = settings.packet_loss_perc;
    let mut scratch = vec![0u8; MAX_OPUS_PACKET];
    (0..count)
        .map(|_| {
            let written = encoder
                .encode(&tone(SAMPLES_PER_FRAME), SAMPLES_PER_FRAME, &mut scratch)
                .unwrap();
            Bytes::copy_from_slice(&scratch[..written])
        })
        .collect()
}

fn packet(sender: ClientId, seq: u32, payload: Bytes, flags: u8) -> VoiceDownstream {
    VoiceDownstream {
        sender,
        seq,
        flags,
        payload,
    }
}

/// Feed enough frames to get past the jitter buffer's initial fill.
fn prime(mixer: &mut Speakers, sender: ClientId) {
    for (seq, payload) in frames(6).into_iter().enumerate() {
        let flags = if seq == 0 { FLAG_BURST_START } else { 0 };
        mixer.mixer.accept(packet(sender, seq as u32, payload, flags));
    }
}

fn energy(buffer: &[f32]) -> f32 {
    buffer.iter().map(|s| s.abs()).sum::<f32>() / buffer.len() as f32
}

#[test]
fn a_single_speaker_is_rendered() {
    let mut mixer = Speakers::new();
    prime(&mut mixer, 1);

    let mut out = vec![0.0f32; SAMPLES_PER_FRAME];
    assert_eq!(mixer.render(&mut out), 1);
    assert!(energy(&out) > 0.0, "audio should have been produced");
}

#[test]
fn an_empty_mixer_renders_silence() {
    let mut mixer = Speakers::new();
    let mut out = vec![0.5f32; SAMPLES_PER_FRAME];
    assert_eq!(mixer.render(&mut out), 0);
    assert!(
        out.iter().all(|&s| s == 0.0),
        "the buffer must be cleared, not left holding stale samples"
    );
}

#[test]
fn two_speakers_both_contribute() {
    let mut mixer = Speakers::new();
    prime(&mut mixer, 1);
    prime(&mut mixer, 2);

    let mut out = vec![0.0f32; SAMPLES_PER_FRAME];
    assert_eq!(mixer.render(&mut out), 2);
    assert_eq!(mixer.mixer.active_streams(), 2);
}

#[test]
fn each_speaker_gets_an_independent_decoder() {
    // Sharing one decoder across senders would corrupt both streams, since
    // Opus decoders carry per-stream state.
    let mut mixer = Speakers::new();
    prime(&mut mixer, 1);
    prime(&mut mixer, 2);

    let mut both = vec![0.0f32; SAMPLES_PER_FRAME];
    mixer.render(&mut both);

    let mut solo_mixer = Speakers::new();
    prime(&mut solo_mixer, 1);
    let mut solo = vec![0.0f32; SAMPLES_PER_FRAME];
    solo_mixer.render(&mut solo);

    assert!(
        energy(&both) > energy(&solo) * 1.2,
        "two speakers should be louder than one"
    );
}

#[test]
fn muting_a_speaker_silences_only_them() {
    let mut mixer = Speakers::new();
    prime(&mut mixer, 1);
    prime(&mut mixer, 2);
    mixer.mixer.set_muted(1, true);

    let mut out = vec![0.0f32; SAMPLES_PER_FRAME];
    assert_eq!(mixer.render(&mut out), 1, "only the unmuted speaker counts");
    assert!(energy(&out) > 0.0);
}

#[test]
fn deafening_renders_silence_without_dropping_streams() {
    let mut mixer = Speakers::new();
    prime(&mut mixer, 1);
    mixer.mixer.set_deafened(true);

    let mut out = vec![0.0f32; SAMPLES_PER_FRAME];
    assert_eq!(mixer.render(&mut out), 0);
    assert!(out.iter().all(|&s| s == 0.0));
    assert_eq!(
        mixer.mixer.active_streams(),
        1,
        "the stream should survive so undeafening resumes instantly"
    );
}

#[test]
fn a_wrongly_sized_output_buffer_is_refused() {
    let mut mixer = Speakers::new();
    prime(&mut mixer, 1);
    let mut out = vec![0.0f32; SAMPLES_PER_FRAME / 2];
    assert_eq!(mixer.render(&mut out), 0);
}

#[test]
fn speaking_reports_who_made_sound() {
    let mut mixer = Speakers::new();
    prime(&mut mixer, 7);

    let mut out = vec![0.0f32; SAMPLES_PER_FRAME];
    mixer.render(&mut out);
    assert_eq!(mixer.mixer.speaking(), vec![7]);
}

#[test]
fn a_silent_stream_is_eventually_released() {
    let mut mixer = Speakers::new();
    prime(&mut mixer, 1);

    let mut out = vec![0.0f32; SAMPLES_PER_FRAME];
    // Drain everything, then keep rendering into silence.
    for _ in 0..(IDLE_FRAMES_BEFORE_RELEASE + 20) {
        mixer.render(&mut out);
    }
    assert_eq!(
        mixer.mixer.active_streams(),
        0,
        "idle streams should be reclaimed"
    );
}

#[test]
fn removing_a_speaker_drops_their_stream() {
    let mut mixer = Speakers::new();
    prime(&mut mixer, 1);
    mixer.mixer.remove(1);
    assert_eq!(mixer.mixer.active_streams(), 0);

    let mut out = vec![0.0f32; SAMPLES_PER_FRAME];
    assert_eq!(mixer.render(&mut out), 0);
}

#[test]
fn a_burst_start_resets_the_jitter_buffer() {
    // Otherwise the sequence jump between bursts reads as massive loss.
    let mut mixer = Speakers::new();
    prime(&mut mixer, 1);
    let mut out = vec![0.0f32; SAMPLES_PER_FRAME];
    mixer.render(&mut out);

    for (offset, payload) in frames(4).into_iter().enumerate() {
        let flags = if offset == 0 { FLAG_BURST_START } else { 0 };
        mixer.mixer.accept(packet(1, 9000 + offset as u32, payload, flags));
    }

    let stats = mixer.mixer.stats(1).unwrap();
    assert_eq!(stats.lost, 0, "a new burst is not packet loss");
}

#[test]
fn a_frame_that_does_not_decode_is_not_heard() {
    let mut mixer = VoiceMixer::new();
    for seq in 0..6 {
        let packet = packet(1, seq, Bytes::from_static(b"?"), 0);
        assert!(mixer.has_room(&packet));
        mixer.accept(packet);
    }
    assert!(mixer.has_stream(1));
    let rendered = mixer.render(
        SAMPLES_PER_FRAME,
        &mut |_: ClientId, _: bool, _: JitterOutput| false,
    );
    assert_eq!(rendered.contributors, 0);
    assert_eq!(rendered.turns.len(), 1);
    assert!(!rendered.turns[0].heard);
    assert!(mixer.speaking().is_empty());
}

#[test]
fn clearing_drops_everyone_and_keeps_the_ears_shut() {
    let mut speakers = Speakers::new();
    prime(&mut speakers, 1);
    prime(&mut speakers, 2);
    speakers.mixer.set_deafened(true);
    speakers.mixer.clear();
    assert_eq!(speakers.mixer.active_streams(), 0);
    assert!(speakers.mixer.is_deafened());
    assert!(speakers.mixer.stats(1).is_none());
}

#[test]
fn a_muted_speaker_does_not_count_as_speaking() {
    let mut speakers = Speakers::new();
    prime(&mut speakers, 1);
    prime(&mut speakers, 2);
    speakers.mixer.set_muted(1, true);

    let mut out = vec![0.0f32; SAMPLES_PER_FRAME];
    assert_eq!(speakers.render(&mut out), 1);
    assert_eq!(speakers.mixer.speaking(), vec![2]);
}

#[test]
fn nobody_is_speaking_after_a_deafened_frame() {
    let mut speakers = Speakers::new();
    prime(&mut speakers, 7);
    let mut out = vec![0.0f32; SAMPLES_PER_FRAME];
    assert_eq!(speakers.render(&mut out), 1);
    assert_eq!(speakers.mixer.speaking(), vec![7]);

    speakers.mixer.set_deafened(true);
    assert_eq!(speakers.render(&mut out), 0);
    assert!(speakers.mixer.speaking().is_empty());
    speakers.mixer.set_deafened(false);
    assert_eq!(speakers.render(&mut out), 1);
    assert_eq!(speakers.mixer.speaking(), vec![7]);
}

#[test]
fn each_due_frame_is_handed_to_the_decoder() {
    let mut mixer = VoiceMixer::new();
    for seq in 0..3 {
        mixer.accept(packet(4, seq, Bytes::from(vec![seq as u8; 2]), 0));
    }
    let mut asked = Vec::new();
    let rendered = mixer.render(
        SAMPLES_PER_FRAME,
        &mut |client: ClientId, muted: bool, due: JitterOutput| {
            asked.push((client, muted, due));
            true
        },
    );
    assert_eq!(rendered.contributors, 1);
    let first = JitterOutput::Frame(Bytes::from_static(&[0, 0]));
    assert_eq!(asked, vec![(4, false, first)]);
}
