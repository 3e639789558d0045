//! What the codec is set to, and how its frames are numbered.
//!
//! Everything runs at 48 kHz mono in 20 ms frames. The codec itself works on
//! floating point samples and stays with the caller.

use crate::proto::voice::{CHANNELS, SAMPLES_PER_FRAME, SAMPLE_RATE};
use crate::text;
use vstd::prelude::*;

verus! {

/// Encoder bitrate. A target for a variable rate, not a ceiling.
pub const DEFAULT_BITRATE: u32 = 32_000;

/// Loss percentage the encoder assumes when it chooses how robust to be.
pub const ASSUMED_PACKET_LOSS_PERCENT: i32 = 10;

/// In-band forward error correction stays off: the codec's encoder and decoder
/// disagree on how the redundant frames are coded, and turning it on corrupts
/// the ordinary decode.
pub const USE_INBAND_FEC: bool = false;

#[derive(Debug)]
pub enum CodecError {
    Opus(String),
    /// Carries how many samples there were.
    WrongFrameSize(usize),
}

/// The sentence of a codec error.
pub open spec fn codec_sentence(e: CodecError) -> Seq<char> {
    match e {
        CodecError::Opus(why) => "opus: "@ + why@,
        CodecError::WrongFrameSize(n) => "expected a 960 sample frame, got "@ + text::digits(
            n as nat,
        ),
    }
}

impl CodecError {
    pub fn message(&self) -> (s: String)
        ensures
            s@ == codec_sentence(*self),
    {
        match self {
            CodecError::Opus(why) => text::join("opus: ", why.as_str()),
            CodecError::WrongFrameSize(n) => {
                let count = text::decimal(*n as u64);
                text::join("expected a 960 sample frame, got ", count.as_str())
            },
        }
    }
}

/// How an encoder is set up, and the number that its next frame gets.
#[derive(Debug, Clone, Copy, PartialEq, Eq, Structural)]
pub struct VoiceEncoder {
    pub sample_rate: i32,
    pub channels: usize,
    pub bitrate_bps: i32,
    pub use_inband_fec: bool,
    pub packet_loss_perc: i32,
    pub seq: u32,
}

/// A bitrate as the codec takes it: the low 32 bits, read as signed.
pub open spec fn signed_rate(bitrate: u32) -> int {
    if bitrate < 0x8000_0000 {
        bitrate as int
    } else {
        bitrate - 0x1_0000_0000
    }
}

fn signed(bitrate: u32) -> (r: i32)
    ensures
        r == signed_rate(bitrate),
{
    if bitrate < 0x8000_0000 {
        bitrate as i32
    } else {
        (bitrate as i64 - 0x1_0000_0000) as i32
    }
}

/// Numbering after `n` frames from the start of a burst.
pub open spec fn seq_after(n: nat) -> u32 {
    (n % 0x1_0000_0000) as u32
}

impl VoiceEncoder {
    pub fn new(bitrate: u32) -> (e: Self)
        ensures
            e.sample_rate == SAMPLE_RATE,
            e.channels == CHANNELS,
            e.bitrate_bps == signed_rate(bitrate),
            e.use_inband_fec == USE_INBAND_FEC,
            e.packet_loss_perc == ASSUMED_PACKET_LOSS_PERCENT,
            e.seq == 0,
    {
        VoiceEncoder {
            sample_rate: SAMPLE_RATE as i32,
            channels: CHANNELS,
            bitrate_bps: signed(bitrate),
            use_inband_fec: USE_INBAND_FEC,
            packet_loss_perc: ASSUMED_PACKET_LOSS_PERCENT,
            seq: 0,
        }
    }

    pub fn set_bitrate(&mut self, bitrate: u32)
        ensures
            *final(self) == (VoiceEncoder {
                bitrate_bps: signed_rate(bitrate) as i32,
                ..*old(self)
            }),
    {
        self.bitrate_bps = signed(bitrate);
    }

    /// Exactly one frame is encoded at a time.
    pub fn check_frame(&self, samples: usize) -> (r: Result<(), CodecError>)
        ensures
            r is Ok <==> samples == SAMPLES_PER_FRAME,
            r matches Err(e) ==> e == CodecError::WrongFrameSize(samples),
    {
        if samples != SAMPLES_PER_FRAME {
            return Err(CodecError::WrongFrameSize(samples));
        }
        Ok(())
    }

    /// Take the next sequence number. Wraps, which the receiver handles.
    pub fn next_seq(&mut self) -> (seq: u32)
        ensures
            seq == old(self).seq,
            *final(self) == (VoiceEncoder { seq: seq_after(old(self).seq as nat + 1), ..*old(self) }),
    {
        let seq: u32 = self.seq;
        self.seq = self.seq.wrapping_add(1);
        seq
    }

    /// Restart numbering for a new talk burst.
    pub fn reset_seq(&mut self)
        ensures
            *final(self) == (VoiceEncoder { seq: 0, ..*old(self) }),
    {
        self.seq = 0;
    }
}

/// Numbers follow one another, and 0 follows the last.
pub proof fn law_numbers_follow_one_another(n: nat)
    ensures
        seq_after(0) == 0,
        seq_after(n) < u32::MAX ==> seq_after(n + 1) == seq_after(n) + 1,
        seq_after(n) == u32::MAX ==> seq_after(n + 1) == 0,
{
}

/// A bitrate keeps its 32 bits, and its value wherever that fits.
pub proof fn law_a_bitrate_keeps_its_bits(bitrate: u32)
    ensures
        (signed_rate(bitrate) - bitrate) % 0x1_0000_0000 == 0,
        i32::MIN <= signed_rate(bitrate) <= i32::MAX,
        bitrate <= i32::MAX ==> signed_rate(bitrate) == bitrate,
{
}

} // verus!
