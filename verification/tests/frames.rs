use pickle::proto::codec::{
    frame, payload_len, take_frame, CodecError, PrefixRead, LEN_PREFIX_LEN, MAX_FRAME_LEN,
};

#[test]
fn frames_roundtrip_in_order() {
    let payloads: [&[u8]; 3] = [&[10, 1], &[2], &[10, 2]];
    let mut buf: Vec<u8> = Vec::new();
    for payload in payloads {
        buf.extend_from_slice(&frame(payload).unwrap());
    }

    let (a, after_a) = take_frame(&buf, 0).unwrap();
    let (b, after_b) = take_frame(&buf, after_a).unwrap();
    let (c, after_c) = take_frame(&buf, after_b).unwrap();

    assert_eq!(a, payloads[0]);
    assert_eq!(b, payloads[1]);
    assert_eq!(c, payloads[2]);
    assert_eq!(after_c, buf.len());
}

#[test]
fn a_clean_close_at_a_frame_boundary_is_distinguishable() {
    let result = take_frame(&[], 0);
    assert!(matches!(result, Err(CodecError::Closed)));
    assert!(result.unwrap_err().is_clean_close());
}

#[test]
fn a_truncated_frame_is_an_io_error_not_a_clean_close() {
    let mut buf = frame(&[10, 7]).unwrap();
    buf.truncate(buf.len() - 1);

    let result = take_frame(&buf, 0);
    assert!(matches!(result, Err(CodecError::Io(_))));
    assert!(!result.unwrap_err().is_clean_close());
}

#[test]
fn a_stream_cut_inside_the_length_is_an_io_error() {
    for kept in 1..LEN_PREFIX_LEN {
        let result = take_frame(&[5u8, 0, 0, 0][..kept], 0);
        assert!(matches!(result, Err(CodecError::Io(e)) if e == "early eof"));
    }
}

#[test]
fn an_oversized_length_prefix_is_refused_before_allocating() {
    // The defence against a peer claiming a 4 GiB frame.
    let mut buf = (MAX_FRAME_LEN + 1).to_le_bytes().to_vec();
    buf.extend_from_slice(&[0u8; 8]);

    let result = take_frame(&buf, 0);
    assert!(matches!(result, Err(CodecError::FrameTooLarge { .. })));
}

#[test]
fn a_frame_is_its_length_and_then_its_payload() {
    assert_eq!(frame(&[7, 8, 9]).unwrap(), vec![3, 0, 0, 0, 7, 8, 9]);
    assert_eq!(frame(&[]).unwrap(), vec![0; LEN_PREFIX_LEN]);
    let long = frame(&vec![1; 0x1_0203]).unwrap();
    assert_eq!(long[..4], [3, 2, 1, 0]);
    assert_eq!(long.len(), 4 + 0x1_0203);
}

#[test]
fn the_longest_frame_is_accepted_and_one_more_octet_is_not() {
    let limit = MAX_FRAME_LEN as usize;
    let longest = frame(&vec![5; limit]).unwrap();
    assert_eq!(take_frame(&longest, 0).unwrap().0.len(), limit);
    assert!(matches!(
        frame(&vec![5; limit + 1]),
        Err(CodecError::FrameTooLarge { len, max }) if len == MAX_FRAME_LEN + 1 && max == MAX_FRAME_LEN
    ));
}

#[test]
fn a_length_says_how_much_to_read_next() {
    assert_eq!(payload_len(PrefixRead::Full([4, 1, 0, 0])).unwrap(), 260);
    assert_eq!(
        payload_len(PrefixRead::Full(MAX_FRAME_LEN.to_le_bytes())).unwrap(),
        MAX_FRAME_LEN
    );
    assert!(matches!(
        payload_len(PrefixRead::Full([0xff; 4])),
        Err(CodecError::FrameTooLarge { len: u32::MAX, max: MAX_FRAME_LEN })
    ));
    assert!(matches!(
        payload_len(PrefixRead::Ended { got: 0 }),
        Err(CodecError::Closed)
    ));
    assert!(matches!(
        payload_len(PrefixRead::Ended { got: 2 }),
        Err(CodecError::Io(_))
    ));
    assert!(matches!(
        payload_len(PrefixRead::Failed("reset".into())),
        Err(CodecError::Io(e)) if e == "reset"
    ));
}

#[test]
fn framing_errors_have_words() {
    let words = |e: CodecError| e.message();
    assert_eq!(words(CodecError::Io("reset".into())), "control stream i/o: reset");
    assert_eq!(
        words(CodecError::Encode("no".into())),
        "could not encode control frame: no"
    );
    assert_eq!(
        words(CodecError::Decode("no".into())),
        "could not decode control frame: no"
    );
    assert_eq!(
        words(CodecError::FrameTooLarge { len: 2_000_000, max: MAX_FRAME_LEN }),
        "control frame of 2000000 bytes exceeds the 1048576 byte limit"
    );
    assert_eq!(words(CodecError::Closed), "peer closed the control stream");
}
