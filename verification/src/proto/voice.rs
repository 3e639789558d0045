//! Voice datagrams.
//!
//! Voice rides on unreliable, unordered datagrams: a 20 ms audio frame that
//! arrives late is useless, and asking for it again would stall every frame
//! behind it. The headers are laid out by hand, so the wire bytes are obvious.
//!
//! An upstream packet names no channel. The server knows which channel the
//! sender is in and routes on that; were the client to name it, anyone could
//! transmit into a channel they had never joined.

use crate::octets;
use crate::octets::{
    buffer_with_capacity, bytes_at, bytes_from, bytes_len, freeze, put_bytes, put_u32_le, put_u8,
    u32_from_le,
};
use crate::proto::ClientId;
use bytes::{Bytes, BytesMut};
use crate::text;
use vstd::prelude::*;

verus! {

/// The sample rate everywhere: the codec's native rate.
pub const SAMPLE_RATE: u32 = 48_000;

/// Mono.
pub const CHANNELS: usize = 1;

/// Milliseconds per frame.
pub const FRAME_MS: u32 = 20;

/// Samples in one frame, per channel: 48 a millisecond.
pub const SAMPLES_PER_FRAME: usize = 48 * 20;

/// The largest packet the codec emits for a single frame.
pub const MAX_OPUS_PACKET: usize = 1275;

/// Octets before the payload of an upstream packet.
pub const UPSTREAM_HEADER_LEN: usize = 6;

/// Octets before the payload of a downstream packet.
pub const DOWNSTREAM_HEADER_LEN: usize = 10;

/// Enough for the biggest downstream packet; sizes the datagram send buffer.
pub const MAX_DATAGRAM_LEN: usize = DOWNSTREAM_HEADER_LEN + MAX_OPUS_PACKET;

/// First octet of an upstream packet.
pub const TAG_UPSTREAM: u8 = 1;

/// First octet of a downstream packet.
pub const TAG_DOWNSTREAM: u8 = 2;

/// Marks the first packet of a talk burst. Receivers reset their jitter buffer
/// on it rather than treating the silence gap as loss.
pub const FLAG_BURST_START: u8 = 1;

/// Marks the last packet of a talk burst, letting receivers drain the buffer
/// instead of waiting for a timeout.
pub const FLAG_BURST_END: u8 = 2;

/// Why a datagram is not a voice packet.
#[derive(Debug, Clone, Copy, PartialEq, Eq, Structural)]
pub enum VoiceDecodeError {
    /// Fewer octets than the header; carries how many there were.
    TooShort(usize),
    /// Not the tag of this direction; carries the octet found.
    UnknownTag(u8),
    /// A payload the codec could not have made; carries its length.
    PayloadTooLarge(usize),
}

impl VoiceDecodeError {
    /// The sentence of an error.
    pub open spec fn sentence(self) -> Seq<char> {
        match self {
            VoiceDecodeError::TooShort(len) => "voice datagram of "@ + text::digits(len as nat)
                + " bytes is too short for its header"@,
            VoiceDecodeError::UnknownTag(tag) => "unknown voice datagram tag "@ + text::digits(
                tag as nat,
            ),
            VoiceDecodeError::PayloadTooLarge(len) => "voice payload of "@ + text::digits(
                len as nat,
            ) + " bytes exceeds the maximum Opus packet size"@,
        }
    }

    /// The error as a sentence.
    pub fn message(&self) -> (s: String)
        ensures
            s@ == self.sentence(),
    {
        match self {
            VoiceDecodeError::TooShort(len) => {
                let mut s: String = text::join(
                    "voice datagram of ",
                    text::decimal(*len as u64).as_str(),
                );
                s.append(" bytes is too short for its header");
                s
            },
            VoiceDecodeError::UnknownTag(tag) => text::join(
                "unknown voice datagram tag ",
                text::decimal(*tag as u64).as_str(),
            ),
            VoiceDecodeError::PayloadTooLarge(len) => {
                let mut s: String = text::join(
                    "voice payload of ",
                    text::decimal(*len as u64).as_str(),
                );
                s.append(" bytes exceeds the maximum Opus packet size");
                s
            },
        }
    }
}

/// Client to server: one encoded frame.
#[derive(Debug, Clone, PartialEq, Eq)]
pub struct VoiceUpstream {
    /// Per sender, wrapping. Drives loss detection and reordering.
    pub seq: u32,
    pub flags: u8,
    pub payload: Bytes,
}

/// Server to client: the same frame, stamped with who sent it.
#[derive(Debug, Clone, PartialEq, Eq)]
pub struct VoiceDownstream {
    pub sender: ClientId,
    pub seq: u32,
    pub flags: u8,
    pub payload: Bytes,
}

/// The octets of an upstream packet: tag, sequence number, flags, payload.
pub open spec fn upstream_wire(seq: u32, flags: u8, payload: Seq<u8>) -> Seq<u8> {
    seq![TAG_UPSTREAM] + octets::le_bytes(seq as nat, 4) + seq![flags] + payload
}

/// The octets of a downstream packet: tag, sender, sequence number, flags,
/// payload.
pub open spec fn downstream_wire(sender: u32, seq: u32, flags: u8, payload: Seq<u8>) -> Seq<u8> {
    seq![TAG_DOWNSTREAM] + octets::le_bytes(sender as nat, 4) + octets::le_bytes(seq as nat, 4) + seq![flags]
        + payload
}

/// What is wrong with a datagram of the given direction, if anything. The
/// header is looked at before the payload.
pub open spec fn datagram_fault(datagram: Seq<u8>, tag: u8, header: nat) -> Option<
    VoiceDecodeError,
> {
    if datagram.len() < header {
        Some(VoiceDecodeError::TooShort(datagram.len() as usize))
    } else if datagram[0] != tag {
        Some(VoiceDecodeError::UnknownTag(datagram[0]))
    } else if datagram.len() - header > MAX_OPUS_PACKET {
        Some(VoiceDecodeError::PayloadTooLarge((datagram.len() - header) as usize))
    } else {
        None
    }
}

/// Reads the little-endian number at `at`.
fn u32_at(datagram: &Bytes, at: usize) -> (x: u32)
    requires
        at <= DOWNSTREAM_HEADER_LEN,
        at + 4 <= octets::contents(*datagram).len(),
    ensures
        x as nat == octets::le_value(octets::contents(*datagram).subrange(at as int, at + 4)),
{
    let b: [u8; 4] = [
        bytes_at(datagram, at),
        bytes_at(datagram, at + 1),
        bytes_at(datagram, at + 2),
        bytes_at(datagram, at + 3),
    ];
    assert(b@ =~= octets::contents(*datagram).subrange(at as int, at + 4));
    u32_from_le(b)
}

impl VoiceUpstream {
    /// The datagram that carries this packet.
    pub fn encode(&self) -> (datagram: Bytes)
        requires
            UPSTREAM_HEADER_LEN + octets::contents(self.payload).len() <= isize::MAX,
        ensures
            octets::contents(datagram) == upstream_wire(self.seq, self.flags, octets::contents(self.payload)),
    {
        proof {
            octets::lemma_le_bytes_len(self.seq as nat, 4);
        }
        let mut buf: BytesMut = buffer_with_capacity(UPSTREAM_HEADER_LEN + bytes_len(&self.payload));
        put_u8(&mut buf, TAG_UPSTREAM);
        put_u32_le(&mut buf, self.seq);
        put_u8(&mut buf, self.flags);
        put_bytes(&mut buf, &self.payload);
        let datagram: Bytes = freeze(buf);
        assert(octets::contents(datagram) =~= upstream_wire(self.seq, self.flags, octets::contents(self.payload)));
        datagram
    }

    /// The packet that a datagram carries, or what is wrong with it.
    pub fn decode(datagram: Bytes) -> (r: Result<Self, VoiceDecodeError>)
        ensures
            match datagram_fault(octets::contents(datagram), TAG_UPSTREAM, UPSTREAM_HEADER_LEN as nat) {
                Some(e) => r == Err::<Self, VoiceDecodeError>(e),
                None => r is Ok,
            },
            r matches Ok(p) ==> octets::contents(datagram) == upstream_wire(p.seq, p.flags, octets::contents(p.payload)),
    {
        let len: usize = bytes_len(&datagram);
        if len < UPSTREAM_HEADER_LEN {
            return Err(VoiceDecodeError::TooShort(len));
        }
        let tag: u8 = bytes_at(&datagram, 0);
        if tag != TAG_UPSTREAM {
            return Err(VoiceDecodeError::UnknownTag(tag));
        }
        let seq: u32 = u32_at(&datagram, 1);
        let flags: u8 = bytes_at(&datagram, 5);
        let payload: Bytes = bytes_from(&datagram, UPSTREAM_HEADER_LEN);
        let payload_len: usize = bytes_len(&payload);
        if payload_len > MAX_OPUS_PACKET {
            return Err(VoiceDecodeError::PayloadTooLarge(payload_len));
        }
        proof {
            octets::lemma_le_bytes_of_value(octets::contents(datagram).subrange(1, 5));
            assert(octets::contents(datagram) =~= upstream_wire(seq, flags, octets::contents(payload)));
        }
        Ok(VoiceUpstream { seq, flags, payload })
    }

    /// The frame as relayed to listeners, attributed to `sender`. The payload
    /// shares the storage of the original datagram.
    pub fn into_downstream(self, sender: ClientId) -> (r: VoiceDownstream)
        ensures
            r == (VoiceDownstream {
                sender,
                seq: self.seq,
                flags: self.flags,
                payload: self.payload,
            }),
    {
        VoiceDownstream { sender, seq: self.seq, flags: self.flags, payload: self.payload }
    }
}

impl VoiceDownstream {
    /// The datagram that carries this packet.
    pub fn encode(&self) -> (datagram: Bytes)
        requires
            DOWNSTREAM_HEADER_LEN + octets::contents(self.payload).len() <= isize::MAX,
        ensures
            octets::contents(datagram) == downstream_wire(
                self.sender,
                self.seq,
                self.flags,
                octets::contents(self.payload),
            ),
    {
        proof {
            octets::lemma_le_bytes_len(self.sender as nat, 4);
            octets::lemma_le_bytes_len(self.seq as nat, 4);
        }
        let mut buf: BytesMut = buffer_with_capacity(
            DOWNSTREAM_HEADER_LEN + bytes_len(&self.payload),
        );
        put_u8(&mut buf, TAG_DOWNSTREAM);
        put_u32_le(&mut buf, self.sender);
        put_u32_le(&mut buf, self.seq);
        put_u8(&mut buf, self.flags);
        put_bytes(&mut buf, &self.payload);
        let datagram: Bytes = freeze(buf);
        assert(octets::contents(datagram) =~= downstream_wire(
            self.sender,
            self.seq,
            self.flags,
            octets::contents(self.payload),
        ));
        datagram
    }

    /// The packet that a datagram carries, or what is wrong with it.
    pub fn decode(datagram: Bytes) -> (r: Result<Self, VoiceDecodeError>)
        ensures
            match datagram_fault(octets::contents(datagram), TAG_DOWNSTREAM, DOWNSTREAM_HEADER_LEN as nat) {
                Some(e) => r == Err::<Self, VoiceDecodeError>(e),
                None => r is Ok,
            },
            r matches Ok(p) ==> octets::contents(datagram) == downstream_wire(
                p.sender,
                p.seq,
                p.flags,
                octets::contents(p.payload),
            ),
    {
        let len: usize = bytes_len(&datagram);
        if len < DOWNSTREAM_HEADER_LEN {
            return Err(VoiceDecodeError::TooShort(len));
        }
        let tag: u8 = bytes_at(&datagram, 0);
        if tag != TAG_DOWNSTREAM {
            return Err(VoiceDecodeError::UnknownTag(tag));
        }
        let sender: u32 = u32_at(&datagram, 1);
        let seq: u32 = u32_at(&datagram, 5);
        let flags: u8 = bytes_at(&datagram, 9);
        let payload: Bytes = bytes_from(&datagram, DOWNSTREAM_HEADER_LEN);
        let payload_len: usize = bytes_len(&payload);
        if payload_len > MAX_OPUS_PACKET {
            return Err(VoiceDecodeError::PayloadTooLarge(payload_len));
        }
        proof {
            octets::lemma_le_bytes_of_value(octets::contents(datagram).subrange(1, 5));
            octets::lemma_le_bytes_of_value(octets::contents(datagram).subrange(5, 9));
            assert(octets::contents(datagram) =~= downstream_wire(sender, seq, flags, octets::contents(payload)));
        }
        Ok(VoiceDownstream { sender, seq, flags, payload })
    }

    /// Whether this is the first packet of a talk burst.
    pub fn starts_burst(&self) -> (r: bool)
        ensures
            r == (self.flags & FLAG_BURST_START != 0),
    {
        self.flags & FLAG_BURST_START != 0
    }

    /// Whether this is the last packet of a talk burst.
    pub fn ends_burst(&self) -> (r: bool)
        ensures
            r == (self.flags & FLAG_BURST_END != 0),
    {
        self.flags & FLAG_BURST_END != 0
    }
}

/// How far `a` lies ahead of `b` on the circle of sequence numbers.
pub open spec fn seq_ahead(a: u32, b: u32) -> int {
    if a >= b {
        a - b
    } else {
        a - b + 0x1_0000_0000
    }
}

/// Whether `a` is newer than `b`, tolerating wraparound.
///
/// Sequence numbers wrap, and restart per talk burst, so plain `>` would
/// mishandle the rollover. The signed difference decides: anything less than
/// half the circle ahead counts as newer.
pub fn seq_newer_than(a: u32, b: u32) -> (r: bool)
    ensures
        r == (0 < seq_ahead(a, b) < 0x8000_0000),
{
    a != b && a.wrapping_sub(b) < 0x8000_0000
}

/// Decoding what an upstream packet encodes to gives the packet's fields: no
/// other fields have these octets, and the datagram has no fault as long as
/// the payload fits.
pub proof fn law_upstream_round_trip(seq: u32, flags: u8, payload: Seq<u8>)
    ensures
        payload.len() <= MAX_OPUS_PACKET ==> datagram_fault(
            upstream_wire(seq, flags, payload),
            TAG_UPSTREAM,
            UPSTREAM_HEADER_LEN as nat,
        ) is None,
        forall|s: u32, f: u8, p: Seq<u8>| #[trigger]
            upstream_wire(s, f, p) == upstream_wire(seq, flags, payload) ==> s == seq && f == flags
                && p == payload,
{
    octets::lemma_le_bytes_len(seq as nat, 4);
    let w = upstream_wire(seq, flags, payload);
    assert forall|s: u32, f: u8, p: Seq<u8>| #[trigger] upstream_wire(s, f, p) == w implies s == seq
        && f == flags && p == payload by {
        octets::lemma_le_bytes_len(s as nat, 4);
        octets::lemma_le_limits();
        octets::lemma_le_round_trip(s as nat, 4);
        octets::lemma_le_round_trip(seq as nat, 4);
        let v = upstream_wire(s, f, p);
        assert(v.subrange(1, 5) =~= octets::le_bytes(s as nat, 4));
        assert(w.subrange(1, 5) =~= octets::le_bytes(seq as nat, 4));
        assert(v[5] == f && w[5] == flags);
        assert(v.skip(6) =~= p);
        assert(w.skip(6) =~= payload);
    }
}

/// Decoding what a downstream packet encodes to gives the packet's fields.
pub proof fn law_downstream_round_trip(sender: u32, seq: u32, flags: u8, payload: Seq<u8>)
    ensures
        payload.len() <= MAX_OPUS_PACKET ==> datagram_fault(
            downstream_wire(sender, seq, flags, payload),
            TAG_DOWNSTREAM,
            DOWNSTREAM_HEADER_LEN as nat,
        ) is None,
        forall|d: u32, s: u32, f: u8, p: Seq<u8>| #[trigger]
            downstream_wire(d, s, f, p) == downstream_wire(sender, seq, flags, payload) ==> d
                == sender && s == seq && f == flags && p == payload,
{
    octets::lemma_le_bytes_len(sender as nat, 4);
    octets::lemma_le_bytes_len(seq as nat, 4);
    let w = downstream_wire(sender, seq, flags, payload);
    assert forall|d: u32, s: u32, f: u8, p: Seq<u8>| #[trigger]
        downstream_wire(d, s, f, p) == w implies d == sender && s == seq && f == flags && p
        == payload by {
        octets::lemma_le_bytes_len(d as nat, 4);
        octets::lemma_le_bytes_len(s as nat, 4);
        octets::lemma_le_limits();
        octets::lemma_le_round_trip(d as nat, 4);
        octets::lemma_le_round_trip(sender as nat, 4);
        octets::lemma_le_round_trip(s as nat, 4);
        octets::lemma_le_round_trip(seq as nat, 4);
        let v = downstream_wire(d, s, f, p);
        assert(v.subrange(1, 5) =~= octets::le_bytes(d as nat, 4));
        assert(w.subrange(1, 5) =~= octets::le_bytes(sender as nat, 4));
        assert(v.subrange(5, 9) =~= octets::le_bytes(s as nat, 4));
        assert(w.subrange(5, 9) =~= octets::le_bytes(seq as nat, 4));
        assert(v[9] == f && w[9] == flags);
        assert(v.skip(10) =~= p);
        assert(w.skip(10) =~= payload);
    }
}

/// The two directions never decode as each other: a client cannot pass off a
/// downstream packet, sender field and all, as its own upstream.
pub proof fn law_directions_are_distinct(sender: u32, seq: u32, flags: u8, payload: Seq<u8>)
    ensures
        datagram_fault(
            downstream_wire(sender, seq, flags, payload),
            TAG_UPSTREAM,
            UPSTREAM_HEADER_LEN as nat,
        ) == Some(VoiceDecodeError::UnknownTag(TAG_DOWNSTREAM)),
        datagram_fault(
            upstream_wire(seq, flags, payload),
            TAG_DOWNSTREAM,
            DOWNSTREAM_HEADER_LEN as nat,
        ) is Some,
{
    octets::lemma_le_bytes_len(sender as nat, 4);
    octets::lemma_le_bytes_len(seq as nat, 4);
}

/// The largest downstream packet that decodes fills the send buffer exactly.
pub proof fn law_max_datagram(sender: u32, seq: u32, flags: u8, payload: Seq<u8>)
    requires
        payload.len() <= MAX_OPUS_PACKET,
    ensures
        downstream_wire(sender, seq, flags, payload).len() <= MAX_DATAGRAM_LEN,
        payload.len() == MAX_OPUS_PACKET ==> downstream_wire(sender, seq, flags, payload).len()
            == MAX_DATAGRAM_LEN,
{
    octets::lemma_le_bytes_len(sender as nat, 4);
    octets::lemma_le_bytes_len(seq as nat, 4);
}

/// Of two sequence numbers at most one is newer, and none is newer than
/// itself.
pub proof fn law_seq_newer_is_asymmetric(a: u32, b: u32)
    ensures
        !(0 < seq_ahead(a, b) < 0x8000_0000 && 0 < seq_ahead(b, a) < 0x8000_0000),
        !(0 < seq_ahead(a, a)),
{
}

/// The number after `b`, across the rollover too, is newer than `b`.
pub proof fn law_successor_is_newer(b: u32)
    ensures
        0 < seq_ahead(b.wrapping_add(1), b) < 0x8000_0000,
{
}

/// An upstream packet on the wire: its tag, its sequence number in four octets,
/// its flags, and then the payload and nothing else.
pub proof fn law_an_upstream_packet_octet_by_octet(seq: u32, flags: u8, payload: Seq<u8>)
    ensures
        ({
            let w = upstream_wire(seq, flags, payload);
            &&& w.len() == 6 + payload.len()
            &&& w[0] == 1
            &&& octets::number_of_four(w, 1) == seq
            &&& w[5] == flags
            &&& w.skip(6) == payload
        }),
{
    let w = upstream_wire(seq, flags, payload);
    octets::law_numbers_are_little_endian(seq, payload);
    let b = octets::le_bytes(seq as nat, 4);
    assert(w[1] == b[0] && w[2] == b[1] && w[3] == b[2] && w[4] == b[3]);
    assert(w.skip(6) =~= payload);
}

/// A downstream packet on the wire: its tag, its sender and its sequence number
/// in four octets each, its flags, and then the payload and nothing else.
pub proof fn law_a_downstream_packet_octet_by_octet(
    sender: u32,
    seq: u32,
    flags: u8,
    payload: Seq<u8>,
)
    ensures
        ({
            let w = downstream_wire(sender, seq, flags, payload);
            &&& w.len() == 10 + payload.len()
            &&& w[0] == 2
            &&& octets::number_of_four(w, 1) == sender
            &&& octets::number_of_four(w, 5) == seq
            &&& w[9] == flags
            &&& w.skip(10) == payload
        }),
{
    let w = downstream_wire(sender, seq, flags, payload);
    octets::law_numbers_are_little_endian(sender, payload);
    octets::law_numbers_are_little_endian(seq, payload);
    let a = octets::le_bytes(sender as nat, 4);
    let b = octets::le_bytes(seq as nat, 4);
    assert(w[1] == a[0] && w[2] == a[1] && w[3] == a[2] && w[4] == a[3]);
    assert(w[5] == b[0] && w[6] == b[1] && w[7] == b[2] && w[8] == b[3]);
    assert(w.skip(10) =~= payload);
}

/// A datagram is read exactly when its header is complete, its first octet is
/// the tag of the direction, and its payload is one that the codec makes; the
/// first of these that fails is the fault.
pub proof fn law_which_datagrams_are_read(datagram: Seq<u8>, tag: u8, header: nat)
    requires
        1 <= header,
        datagram.len() <= usize::MAX,
    ensures
        datagram_fault(datagram, tag, header) is None <==> header <= datagram.len() <= header + 1275
            && datagram[0] == tag,
        datagram.len() < header <==> datagram_fault(datagram, tag, header) == Some(
            VoiceDecodeError::TooShort(datagram.len() as usize),
        ),
        datagram.len() >= header && datagram[0] != tag <==> datagram_fault(datagram, tag, header)
            == Some(VoiceDecodeError::UnknownTag(datagram[0])) && datagram.len() >= header,
        datagram.len() > header + 1275 && datagram[0] == tag ==> datagram_fault(
            datagram,
            tag,
            header,
        ) == Some(VoiceDecodeError::PayloadTooLarge((datagram.len() - header) as usize)),
{
}

/// How far one number lies ahead is their difference modulo 2^32; one is newer
/// than another exactly when it lies ahead by less than half the circle.
pub proof fn law_how_far_ahead(a: u32, b: u32)
    ensures
        0 <= seq_ahead(a, b) < 0x1_0000_0000,
        (seq_ahead(a, b) - (a - b)) % 0x1_0000_0000 == 0,
        a != b && seq_ahead(a, b) != 0x8000_0000 ==> (0 < seq_ahead(a, b) < 0x8000_0000 <==> !(0
            < seq_ahead(b, a) < 0x8000_0000)),
{
}

} // verus!
