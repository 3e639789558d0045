//! Length-prefixed framing for the control stream.
//!
//! The stream carries octets, not messages, so each frame carries its own
//! length: a little-endian `u32`, then that many octets. The length is checked
//! against [`MAX_FRAME_LEN`] before anything is allocated, so a peer cannot
//! make us reserve gigabytes by lying about it.

use crate::octets;
use crate::text;
use vstd::prelude::*;

verus! {

/// Upper bound on a single control frame: generous for text and channel
/// lists, too small to exhaust memory.
pub const MAX_FRAME_LEN: u32 = 1048576;

/// Octets before a frame's payload.
pub const LEN_PREFIX_LEN: usize = 4;

/// What can go wrong on the control stream.
#[derive(Debug, Clone)]
pub enum CodecError {
    /// The stream failed, or ended inside a frame.
    Io(String),
    /// The message could not be turned into octets.
    Encode(String),
    /// The octets are no message.
    Decode(String),
    /// A frame longer than the limit.
    FrameTooLarge { len: u32, max: u32 },
    /// The peer shut the stream down between frames.
    Closed,
}

impl CodecError {
    /// Whether the peer hung up cleanly, which is normal at shutdown.
    pub fn is_clean_close(&self) -> (r: bool)
        ensures
            r == (self is Closed),
    {
        match self {
            CodecError::Closed => true,
            _ => false,
        }
    }

    /// The sentence for this error.
    pub open spec fn sentence(&self) -> Seq<char> {
        match self {
            CodecError::Io(e) => "control stream i/o: "@ + e@,
            CodecError::Encode(e) => "could not encode control frame: "@ + e@,
            CodecError::Decode(e) => "could not decode control frame: "@ + e@,
            CodecError::FrameTooLarge { len, max } => "control frame of "@ + text::digits(*len as nat)
                + " bytes exceeds the "@ + text::digits(*max as nat) + " byte limit"@,
            CodecError::Closed => "peer closed the control stream"@,
        }
    }

    /// The error as a sentence.
    pub fn message(&self) -> (s: String)
        ensures
            s@ == self.sentence(),
    {
        match self {
            CodecError::Io(e) => text::join("control stream i/o: ", e.as_str()),
            CodecError::Encode(e) => text::join("could not encode control frame: ", e.as_str()),
            CodecError::Decode(e) => text::join("could not decode control frame: ", e.as_str()),
            CodecError::FrameTooLarge { len, max } => {
                let mut s: String = text::join(
                    "control frame of ",
                    text::decimal(*len as u64).as_str(),
                );
                s.append(" bytes exceeds the ");
                s.append(text::decimal(*max as u64).as_str());
                s.append(" byte limit");
                s
            },
            CodecError::Closed => String::from_str("peer closed the control stream"),
        }
    }
}

/// The octets of a frame: length, then payload.
pub open spec fn framed(payload: Seq<u8>) -> Seq<u8> {
    octets::le_bytes(payload.len(), 4) + payload
}

/// Puts the length before a payload, or refuses one that is too long. The
/// whole frame goes out in one write.
pub fn frame(payload: &[u8]) -> (r: Result<Vec<u8>, CodecError>)
    ensures
        payload@.len() <= MAX_FRAME_LEN ==> r is Ok && r->Ok_0@ == framed(payload@),
        payload@.len() > MAX_FRAME_LEN ==> r == Err::<Vec<u8>, CodecError>(
            CodecError::FrameTooLarge {
                len: (payload@.len() % 0x1_0000_0000) as u32,
                max: MAX_FRAME_LEN,
            },
        ),
{
    let len: u64 = payload.len() as u64;
    if len > MAX_FRAME_LEN as u64 {
        return Err(
            CodecError::FrameTooLarge { len: (len % 0x1_0000_0000) as u32, max: MAX_FRAME_LEN },
        );
    }
    let prefix: [u8; 4] = octets::u32_to_le(len as u32);
    let mut out: Vec<u8> = Vec::new();
    octets::append(&mut out, &prefix);
    octets::append(&mut out, payload);
    Ok(out)
}

/// What came of waiting for a frame's length.
#[derive(Debug, Clone)]
pub enum PrefixRead {
    /// All four octets.
    Full([u8; 4]),
    /// The stream ended, after this many of the four octets: none of them is a
    /// close between frames, some of them a cut inside one.
    Ended { got: usize },
    /// The stream failed; carries the failure.
    Failed(String),
}

/// Decides, before anything is allocated, how many octets to read next.
pub fn payload_len(read: PrefixRead) -> (r: Result<u32, CodecError>)
    ensures
        match read {
            PrefixRead::Full(prefix) => {
                let len = octets::le_value(prefix@);
                r == if len <= MAX_FRAME_LEN {
                    Ok::<u32, CodecError>(len as u32)
                } else {
                    Err::<u32, CodecError>(
                        CodecError::FrameTooLarge { len: len as u32, max: MAX_FRAME_LEN },
                    )
                }
            },
            PrefixRead::Ended { got } => if got == 0 {
                r == Err::<u32, CodecError>(CodecError::Closed)
            } else {
                r matches Err(CodecError::Io(e)) && e@ == "early eof"@
            },
            PrefixRead::Failed(e) => r == Err::<u32, CodecError>(CodecError::Io(e)),
        },
{
    match read {
        PrefixRead::Full(prefix) => {
            let len: u32 = octets::u32_from_le(prefix);
            if len > MAX_FRAME_LEN {
                Err(CodecError::FrameTooLarge { len, max: MAX_FRAME_LEN })
            } else {
                Ok(len)
            }
        },
        PrefixRead::Ended { got } => if got == 0 {
            Err(CodecError::Closed)
        } else {
            Err(CodecError::Io(String::from_str("early eof")))
        },
        PrefixRead::Failed(e) => Err(CodecError::Io(e)),
    }
}

/// What reading a frame at `at` of a stream that has ended comes to.
pub enum Unframed {
    /// Nothing is left: the stream ended between frames.
    Closed,
    /// The length exceeds the limit.
    TooLarge(nat),
    /// The stream ended inside the length or the payload.
    Truncated,
    /// A payload, and where the next frame starts.
    Payload(Seq<u8>, int),
}

/// Reads one frame of a stream that has ended.
pub open spec fn unframed(stream: Seq<u8>, at: int) -> Unframed {
    if at == stream.len() {
        Unframed::Closed
    } else if stream.len() - at < LEN_PREFIX_LEN {
        Unframed::Truncated
    } else {
        let len = octets::le_value(stream.subrange(at, at + 4));
        if len > MAX_FRAME_LEN {
            Unframed::TooLarge(len)
        } else if stream.len() - at - 4 < len {
            Unframed::Truncated
        } else {
            Unframed::Payload(stream.subrange(at + 4, at + 4 + len as int), at + 4 + len as int)
        }
    }
}

/// Takes one frame out of octets already received, from `at` on. A stream that
/// ends inside a frame is an error, unlike one that ends between frames.
pub fn take_frame(stream: &[u8], at: usize) -> (r: Result<(Vec<u8>, usize), CodecError>)
    requires
        at <= stream@.len(),
    ensures
        match unframed(stream@, at as int) {
            Unframed::Closed => r == Err::<(Vec<u8>, usize), CodecError>(CodecError::Closed),
            Unframed::TooLarge(len) => r == Err::<(Vec<u8>, usize), CodecError>(
                CodecError::FrameTooLarge { len: len as u32, max: MAX_FRAME_LEN },
            ),
            Unframed::Truncated => r matches Err(CodecError::Io(e)) && e@ == "early eof"@,
            Unframed::Payload(payload, next) => r is Ok && r->Ok_0.0@ == payload && r->Ok_0.1
                == next,
        },
{
    if at == stream.len() {
        return Err(CodecError::Closed);
    }
    if stream.len() - at < LEN_PREFIX_LEN {
        return Err(CodecError::Io(String::from_str("early eof")));
    }
    let prefix: [u8; 4] = [stream[at], stream[at + 1], stream[at + 2], stream[at + 3]];
    assert(prefix@ =~= stream@.subrange(at as int, at + 4));
    let len: u32 = match payload_len(PrefixRead::Full(prefix)) {
        Ok(len) => len,
        Err(e) => {
            return Err(e);
        },
    };
    proof {
        octets::lemma_le_bytes_of_value(prefix@);
        octets::lemma_le_limits();
    }
    let from: usize = at + LEN_PREFIX_LEN;
    if stream.len() - from < len as usize {
        return Err(CodecError::Io(String::from_str("early eof")));
    }
    let to: usize = from + len as usize;
    let mut payload: Vec<u8> = Vec::new();
    octets::append(&mut payload, vstd::slice::slice_subrange(stream, from, to));
    Ok((payload, to))
}

/// What was framed is read back, whatever precedes and follows it: frames come
/// out in the order they went in.
pub proof fn law_frame_round_trip(before: Seq<u8>, payload: Seq<u8>, after: Seq<u8>)
    requires
        payload.len() <= MAX_FRAME_LEN,
    ensures
        unframed(before + framed(payload) + after, before.len() as int) == Unframed::Payload(
            payload,
            (before + framed(payload)).len() as int,
        ),
{
    let at = before.len() as int;
    let stream = before + framed(payload) + after;
    octets::lemma_le_bytes_len(payload.len(), 4);
    octets::lemma_le_limits();
    octets::lemma_le_round_trip(payload.len(), 4);
    assert(stream.subrange(at, at + 4) =~= octets::le_bytes(payload.len(), 4));
    assert(stream.subrange(at + 4, at + 4 + payload.len() as int) =~= payload);
}

/// A stream cut short inside a frame is an error, not a clean close, from the
/// frame's first octet on.
pub proof fn law_truncation_is_not_a_clean_close(before: Seq<u8>, payload: Seq<u8>, kept: int)
    requires
        payload.len() <= MAX_FRAME_LEN,
        0 < kept < framed(payload).len(),
    ensures
        unframed(before + framed(payload).take(kept), before.len() as int) == Unframed::Truncated,
{
    let at = before.len() as int;
    let stream = before + framed(payload).take(kept);
    octets::lemma_le_bytes_len(payload.len(), 4);
    octets::lemma_le_limits();
    octets::lemma_le_round_trip(payload.len(), 4);
    if kept >= LEN_PREFIX_LEN {
        assert(stream.subrange(at, at + 4) =~= octets::le_bytes(payload.len(), 4));
    }
}

/// A frame is its payload behind four octets that spell the payload's length.
pub proof fn law_a_frame_octet_by_octet(payload: Seq<u8>)
    requires
        payload.len() <= 1048576,
    ensures
        framed(payload).len() == 4 + payload.len(),
        octets::number_of_four(framed(payload), 0) == payload.len(),
        framed(payload).skip(4) == payload,
{
    octets::law_numbers_are_little_endian(payload.len() as u32, payload);
    let b = octets::le_bytes(payload.len(), 4);
    let f = framed(payload);
    assert(f[0] == b[0] && f[1] == b[1] && f[2] == b[2] && f[3] == b[3]);
    assert(f.skip(4) =~= payload);
}

/// A stream ends cleanly only where nothing is left. A length over a megabyte
/// is refused before its payload is looked at; a frame that is not all there is
/// cut short; otherwise the octets behind the length are the payload, and the
/// next frame starts behind them.
pub proof fn law_how_a_frame_is_read(stream: Seq<u8>, at: int)
    requires
        0 <= at <= stream.len(),
    ensures
        ({
            let left = stream.len() - at;
            let len = octets::number_of_four(stream, at);
            let r = unframed(stream, at);
            &&& r is Closed <==> left == 0
            &&& r is TooLarge <==> left >= 4 && len > 1048576
            &&& r matches Unframed::TooLarge(stated) ==> stated == len
            &&& r is Truncated <==> 0 < left < 4 || (left >= 4 && len <= 1048576 && left < 4 + len)
            &&& r is Payload <==> left >= 4 && len <= 1048576 && left >= 4 + len
            &&& r matches Unframed::Payload(payload, next) ==> next == at + 4 + len && payload.len()
                == len && forall|i: int| 0 <= i < len ==> payload[i] == stream[at + 4 + i]
        }),
{
    if stream.len() - at >= 4 {
        octets::law_numbers_are_little_endian(0, stream.subrange(at, at + 4));
    }
}


/// A stream failure is put in words that carry its cause; of two lengths, the
/// frame's comes before the limit.
pub proof fn law_a_stream_failure_is_put_in_words(e: CodecError)
    ensures
        ({
            let s = e.sentence();
            match e {
                CodecError::Io(why) => s == "control stream i/o: "@ + why@,
                CodecError::Encode(why) => s == "could not encode control frame: "@ + why@,
                CodecError::Decode(why) => s == "could not decode control frame: "@ + why@,
                CodecError::FrameTooLarge { len, max } => {
                    &&& text::holds(s, "control frame of "@ + text::digits(len as nat))
                    &&& text::holds(s, " bytes exceeds the "@ + text::digits(max as nat))
                },
                CodecError::Closed => s == "peer closed the control stream"@,
            }
        }),
{
    let s = e.sentence();
    if let CodecError::FrameTooLarge { len, max } = e {
        let one = "control frame of "@ + text::digits(len as nat);
        let two = " bytes exceeds the "@ + text::digits(max as nat);
        text::lemma_holds(s, Seq::empty(), one, two + " byte limit"@);
        text::lemma_holds(s, one, two, " byte limit"@);
    }
}
} // verus!
