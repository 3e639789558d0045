use bytes::Bytes;
use pickle::audio::jitter::{JitterBuffer, JitterOutput};

fn payload(byte: u8) -> Bytes {
    Bytes::from(vec![byte; 4])
}

fn buffer() -> JitterBuffer {
    JitterBuffer::new(3, 16)
}

#[test]
fn playback_waits_for_the_target_backlog() {
    let mut jb = buffer();
    jb.push(0, payload(0));
    jb.push(1, payload(1));
    assert_eq!(jb.pop(), None, "must not start before the buffer fills");

    jb.push(2, payload(2));
    assert_eq!(jb.pop(), Some(JitterOutput::Frame(payload(0))));
}

#[test]
fn frames_come_out_in_order() {
    let mut jb = buffer();
    for seq in 0..3 {
        jb.push(seq, payload(seq as u8));
    }
    for seq in 0..3 {
        assert_eq!(jb.pop(), Some(JitterOutput::Frame(payload(seq as u8))));
    }
}

#[test]
fn reordered_arrivals_are_played_in_sequence() {
    // The single most common network behaviour the buffer exists for.
    let mut jb = buffer();
    jb.push(2, payload(2));
    jb.push(0, payload(0));
    jb.push(1, payload(1));

    assert_eq!(jb.pop(), Some(JitterOutput::Frame(payload(0))));
    assert_eq!(jb.pop(), Some(JitterOutput::Frame(payload(1))));
    assert_eq!(jb.pop(), Some(JitterOutput::Frame(payload(2))));
}

#[test]
fn a_missing_frame_is_reported_as_lost_not_skipped() {
    // Skipping would shorten the stream and drift the timing; concealment
    // keeps playback aligned.
    let mut jb = buffer();
    jb.push(0, payload(0));
    jb.push(2, payload(2));
    jb.push(3, payload(3));

    assert_eq!(jb.pop(), Some(JitterOutput::Frame(payload(0))));
    assert_eq!(jb.pop(), Some(JitterOutput::Lost));
    assert_eq!(jb.pop(), Some(JitterOutput::Frame(payload(2))));
    assert_eq!(jb.stats().lost, 1);
}

#[test]
fn a_late_frame_is_discarded_rather_than_played_out_of_order() {
    let mut jb = buffer();
    for seq in 0..3 {
        jb.push(seq, payload(seq as u8));
    }
    jb.pop();
    jb.pop();

    // Sequence 0 turning up now is far too late.
    jb.push(0, payload(0));
    assert_eq!(jb.stats().late, 1);
    assert_eq!(jb.pop(), Some(JitterOutput::Frame(payload(2))));
}

#[test]
fn an_underrun_pauses_and_rebuffers() {
    let mut jb = buffer();
    for seq in 0..3 {
        jb.push(seq, payload(seq as u8));
    }
    for _ in 0..3 {
        jb.pop();
    }

    assert_eq!(jb.pop(), None, "nothing left to play");
    assert_eq!(jb.stats().underruns, 1);
    assert!(!jb.is_playing());

    // A single new frame must not restart playback on its own; the buffer
    // has to refill or it will underrun immediately again.
    jb.push(3, payload(3));
    assert_eq!(jb.pop(), None);
    jb.push(4, payload(4));
    jb.push(5, payload(5));
    assert_eq!(jb.pop(), Some(JitterOutput::Frame(payload(3))));
}

#[test]
fn the_backlog_is_capped() {
    let mut jb = JitterBuffer::new(2, 4);
    for seq in 0..10 {
        jb.push(seq, payload(seq as u8));
    }
    assert_eq!(jb.buffered(), 4);
    assert!(jb.stats().overflows > 0);
}

#[test]
fn overflow_does_not_produce_a_run_of_phantom_losses() {
    // Discarded frames were thrown away on purpose; reporting them as loss
    // would make the decoder conceal audio that was never coming.
    let mut jb = JitterBuffer::new(2, 4);
    for seq in 0..4 {
        jb.push(seq, payload(seq as u8));
    }
    jb.pop();
    for seq in 4..12 {
        jb.push(seq, payload(seq as u8));
    }

    let mut losses = 0;
    for _ in 0..4 {
        if jb.pop() == Some(JitterOutput::Lost) {
            losses += 1;
        }
    }
    assert_eq!(losses, 0, "trimming the backlog should not look like loss");
}

#[test]
fn reset_clears_the_buffer_for_a_new_talk_burst() {
    let mut jb = buffer();
    for seq in 0..3 {
        jb.push(seq, payload(seq as u8));
    }
    jb.pop();

    jb.reset();
    assert_eq!(jb.buffered(), 0);
    assert!(!jb.is_playing());

    // A burst starting at an unrelated sequence number is fine.
    for seq in 500..503 {
        jb.push(seq, payload(0));
    }
    assert_eq!(jb.pop(), Some(JitterOutput::Frame(payload(0))));
}

#[test]
fn playback_survives_sequence_wraparound() {
    let mut jb = buffer();
    let start = u32::MAX - 1;
    for offset in 0..3u32 {
        let seq = start.wrapping_add(offset);
        jb.push(seq, payload(offset as u8));
    }

    assert_eq!(jb.pop(), Some(JitterOutput::Frame(payload(0))));
    assert_eq!(jb.pop(), Some(JitterOutput::Frame(payload(1))));
    assert_eq!(jb.pop(), Some(JitterOutput::Frame(payload(2))));
    assert_eq!(jb.stats().lost, 0, "wraparound must not read as loss");
}

#[test]
fn statistics_track_what_happened() {
    let mut jb = buffer();
    jb.push(0, payload(0));
    jb.push(2, payload(2));
    jb.push(3, payload(3));
    jb.pop();
    jb.pop();

    let stats = jb.stats();
    assert_eq!(stats.received, 3);
    assert_eq!(stats.lost, 1);
}

#[test]
fn an_ordinary_backlog_has_room() {
    let mut jb = buffer();
    for seq in [5, 3, u32::MAX] {
        assert!(jb.has_room(seq));
        jb.push(seq, payload(0));
    }
    assert_eq!(jb.buffered(), 3);
}

#[test]
fn a_duplicate_is_buffered_once() {
    let mut jb = buffer();
    jb.push(1, payload(1));
    jb.push(1, payload(1));
    assert_eq!(jb.buffered(), 1);
    assert_eq!(jb.stats().received, 2);
}

#[test]
fn every_packet_is_late_dropped_held_or_played() {
    let mut jb = JitterBuffer::new(2, 4);
    let mut played = 0;
    for seq in [5u32, 3, 9, 4, 12, 10, 1, 11, 14, 13, 2] {
        jb.push(seq, payload(seq as u8));
        if seq % 2 == 0 {
            if let Some(JitterOutput::Frame(_)) = jb.pop() {
                played += 1;
            }
        }
    }
    let stats = jb.stats();
    assert_eq!(stats.received, 11);
    assert!(stats.late > 0 && stats.overflows > 0 && played > 0);
    assert_eq!(
        stats.received,
        stats.late + stats.overflows + jb.buffered() as u64 + played
    );
}
