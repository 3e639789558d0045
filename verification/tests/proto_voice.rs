use bytes::Bytes;
use pickle::proto::voice::{
    seq_newer_than, VoiceDecodeError, VoiceDownstream, VoiceUpstream, FLAG_BURST_END,
    FLAG_BURST_START, MAX_DATAGRAM_LEN, MAX_OPUS_PACKET, SAMPLES_PER_FRAME, TAG_DOWNSTREAM,
    TAG_UPSTREAM, UPSTREAM_HEADER_LEN,
};

#[test]
fn frame_geometry_matches_opus_expectations() {
    assert_eq!(SAMPLES_PER_FRAME, 960);
}

#[test]
fn upstream_roundtrips() {
    let packet = VoiceUpstream {
        seq: 1234,
        flags: FLAG_BURST_START,
        payload: Bytes::from_static(&[1, 2, 3, 4, 5]),
    };
    assert_eq!(VoiceUpstream::decode(packet.encode()).unwrap(), packet);
}

#[test]
fn downstream_roundtrips() {
    let packet = VoiceDownstream {
        sender: 42,
        seq: u32::MAX,
        flags: FLAG_BURST_END,
        payload: Bytes::from_static(&[9; 60]),
    };
    let back = VoiceDownstream::decode(packet.encode()).unwrap();
    assert_eq!(back, packet);
    assert!(back.ends_burst() && !back.starts_burst());
}

#[test]
fn relaying_preserves_sequence_and_flags() {
    let up = VoiceUpstream {
        seq: 77,
        flags: FLAG_BURST_START,
        payload: Bytes::from_static(&[7; 20]),
    };
    let down = up.clone().into_downstream(5);
    assert_eq!(down.sender, 5);
    assert_eq!(down.seq, up.seq);
    assert_eq!(down.flags, up.flags);
    assert_eq!(down.payload, up.payload);
}

#[test]
fn an_empty_payload_is_valid() {
    // Opus emits tiny packets for silence; a zero-length one must not be
    // mistaken for a truncated header.
    let packet = VoiceUpstream {
        seq: 1,
        flags: 0,
        payload: Bytes::new(),
    };
    let encoded = packet.encode();
    assert_eq!(encoded.len(), UPSTREAM_HEADER_LEN);
    assert_eq!(VoiceUpstream::decode(encoded).unwrap(), packet);
}

#[test]
fn a_truncated_datagram_is_rejected() {
    for len in 0..UPSTREAM_HEADER_LEN {
        let short = Bytes::from(vec![TAG_UPSTREAM; len]);
        assert!(matches!(
            VoiceUpstream::decode(short),
            Err(VoiceDecodeError::TooShort(_))
        ));
    }
}

#[test]
fn the_two_directions_do_not_decode_as_each_other() {
    // A client must not be able to pass off a downstream packet as its own
    // upstream, or it could forge the sender field.
    let down = VoiceDownstream {
        sender: 1,
        seq: 2,
        flags: 0,
        payload: Bytes::from_static(&[0; 10]),
    }
    .encode();
    assert!(matches!(
        VoiceUpstream::decode(down),
        Err(VoiceDecodeError::UnknownTag(TAG_DOWNSTREAM))
    ));
}

#[test]
fn an_oversized_payload_is_rejected() {
    let packet = VoiceUpstream {
        seq: 0,
        flags: 0,
        payload: Bytes::from(vec![0u8; MAX_OPUS_PACKET + 1]),
    };
    assert!(matches!(
        VoiceUpstream::decode(packet.encode()),
        Err(VoiceDecodeError::PayloadTooLarge(_))
    ));
}

#[test]
fn sequence_comparison_handles_wraparound() {
    assert!(seq_newer_than(5, 4));
    assert!(!seq_newer_than(4, 5));
    assert!(!seq_newer_than(5, 5));
    // Straddling the rollover.
    assert!(seq_newer_than(1, u32::MAX));
    assert!(!seq_newer_than(u32::MAX, 1));
}

#[test]
fn anything_less_than_half_the_circle_ahead_is_newer() {
    assert!(seq_newer_than(0x7fff_ffff, 0));
    assert!(!seq_newer_than(0, 0x7fff_ffff));
    assert!(!seq_newer_than(0x8000_0000, 0));
}

#[test]
fn max_datagram_len_covers_the_largest_encodable_packet() {
    let packet = VoiceDownstream {
        sender: u32::MAX,
        seq: u32::MAX,
        flags: 0xff,
        payload: Bytes::from(vec![0u8; MAX_OPUS_PACKET]),
    };
    assert_eq!(packet.encode().len(), MAX_DATAGRAM_LEN);
}

#[test]
fn each_decode_error_has_its_sentence() {
    assert_eq!(
        VoiceDecodeError::TooShort(3).message(),
        "voice datagram of 3 bytes is too short for its header"
    );
    assert_eq!(
        VoiceDecodeError::UnknownTag(9).message(),
        "unknown voice datagram tag 9"
    );
    assert_eq!(
        VoiceDecodeError::PayloadTooLarge(2000).message(),
        "voice payload of 2000 bytes exceeds the maximum Opus packet size"
    );
}
