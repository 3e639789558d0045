//! Client-side mixing of every speaker in a channel.
//!
//! The server relays each speaker as a separate stream. Each gets a jitter
//! buffer of its own, so that one person on bad wifi does not degrade everyone,
//! and a decoder of its own, since decoders carry state. Decoding, gain and the
//! sum of samples are the caller's; which frame is due from whom, who counts as
//! speaking and when a stream is let go is decided here.

use crate::audio::jitter;
use crate::audio::jitter::{JitterBuffer, JitterOutput, JitterStats, JitterView};
use crate::proto::voice::{VoiceDownstream, FLAG_BURST_START, SAMPLES_PER_FRAME};
use crate::proto::ClientId;
use std::collections::BTreeMap;
use vstd::prelude::*;

verus! {

/// Frames of silence after which a speaker's stream is let go: two seconds.
pub const IDLE_FRAMES_BEFORE_RELEASE: u32 = 100;

struct SenderStream {
    jitter: JitterBuffer,
    muted: bool,
    /// True while this speaker was in the mix of the last rendered frame.
    speaking: bool,
    idle_frames: u32,
}

/// What is kept of one speaker.
pub struct SpeakerView {
    pub jitter: JitterView,
    pub muted: bool,
    pub speaking: bool,
    pub idle: u32,
}

impl View for SenderStream {
    type V = SpeakerView;

    closed spec fn view(&self) -> SpeakerView {
        SpeakerView {
            jitter: self.jitter@,
            muted: self.muted,
            speaking: self.speaking,
            idle: self.idle_frames,
        }
    }
}

/// What a mixer holds.
#[verifier::ext_equal]
pub struct MixerView {
    pub streams: Map<ClientId, SpeakerView>,
    pub deafened: bool,
}

/// Keeps the books of a mix.
pub struct VoiceMixer {
    streams: BTreeMap<ClientId, SenderStream>,
    deafened: bool,
}

impl View for VoiceMixer {
    type V = MixerView;

    closed spec fn view(&self) -> MixerView {
        MixerView {
            streams: self.streams@.map_values(|s: SenderStream| s@),
            deafened: self.deafened,
        }
    }
}

/// A speaker heard for the first time.
pub open spec fn new_speaker() -> SpeakerView {
    SpeakerView {
        jitter: jitter::fresh(
            jitter::DEFAULT_TARGET_FRAMES as nat,
            jitter::DEFAULT_MAX_FRAMES as nat,
        ),
        muted: false,
        speaking: false,
        idle: 0,
    }
}

/// The stream that a packet belongs to, before the packet.
pub open spec fn stream_of(m: MixerView, sender: ClientId) -> SpeakerView {
    if m.streams.contains_key(sender) {
        m.streams[sender]
    } else {
        new_speaker()
    }
}

/// The stream's buffer as the packet meets it: a new burst is no continuation,
/// so the gap before it must not be taken for packet loss.
pub open spec fn met_by(m: MixerView, packet: VoiceDownstream) -> JitterView {
    let held = stream_of(m, packet.sender).jitter;
    if packet.flags & FLAG_BURST_START != 0 {
        jitter::restarted(held)
    } else {
        held
    }
}

/// The mixer after an incoming frame.
pub open spec fn accepted(m: MixerView, packet: VoiceDownstream) -> MixerView {
    let stream = SpeakerView {
        jitter: jitter::pushed(met_by(m, packet), packet.seq, packet.payload),
        idle: 0,
        ..stream_of(m, packet.sender)
    };
    MixerView { streams: m.streams.insert(packet.sender, stream), ..m }
}

/// A speaker after one rendered frame: `heard` if a frame or its concealment
/// was decoded. Only who is in the mix counts as speaking.
pub open spec fn turned(s: SpeakerView, heard: bool) -> SpeakerView {
    SpeakerView {
        jitter: jitter::popped(s.jitter),
        muted: s.muted,
        speaking: heard && !s.muted,
        idle: if heard {
            0
        } else if s.idle == u32::MAX {
            u32::MAX
        } else {
            (s.idle + 1) as u32
        },
    }
}

/// The mixer after a frame that nobody is in: no stream has moved.
pub open spec fn hushed(m: MixerView) -> MixerView {
    MixerView {
        streams: m.streams.map_values(|s: SpeakerView| SpeakerView { speaking: false, ..s }),
        ..m
    }
}

/// Who is in the mix of the last rendered frame.
pub open spec fn speakers(m: MixerView) -> Set<ClientId> {
    m.streams.dom().filter(|c: ClientId| m.streams[c].speaking)
}

/// Who was asked for a frame, and whether one was decoded.
pub struct Turn {
    pub client: ClientId,
    pub heard: bool,
}

/// What one rendered frame came to.
pub struct Rendered {
    pub turns: Vec<Turn>,
    /// How many speakers are in the mix.
    pub contributors: usize,
}

/// How many of these turns are in the mix: heard, and not muted.
pub open spec fn contributing(m: MixerView, turns: Seq<Turn>) -> nat
    decreases turns.len(),
{
    if turns.len() == 0 {
        0
    } else {
        let last = turns.last();
        contributing(m, turns.drop_last()) + if last.heard && !m.streams[last.client].muted {
            1nat
        } else {
            0nat
        }
    }
}

/// The clients of those turns that are in the mix.
pub open spec fn in_the_mix(m: MixerView, turns: Seq<Turn>) -> Set<ClientId>
    decreases turns.len(),
{
    if turns.len() == 0 {
        Set::empty()
    } else {
        let last = turns.last();
        if last.heard && !m.streams[last.client].muted {
            in_the_mix(m, turns.drop_last()).insert(last.client)
        } else {
            in_the_mix(m, turns.drop_last())
        }
    }
}

/// What a turn came to: whether the decoder managed the frame that was due, or
/// nothing where none was.
pub open spec fn as_decoded<F: FnMut(ClientId, bool, JitterOutput) -> bool>(
    m: MixerView,
    decode: F,
    turn: Turn,
) -> bool {
    let s = m.streams[turn.client];
    match jitter::output(s.jitter) {
        Some(due) => call_ensures(decode, (turn.client, s.muted, due), turn.heard),
        None => !turn.heard,
    }
}

/// Every stream has exactly one turn among these, and none else has.
pub open spec fn is_round(m: MixerView, turns: Seq<Turn>) -> bool {
    &&& forall|i: int, j: int|
        0 <= i < j < turns.len() ==> turns[i].client != turns[j].client
    &&& forall|c: ClientId|
        #![trigger m.streams.contains_key(c)]
        m.streams.contains_key(c) <==> exists|i: int|
            0 <= i < turns.len() && #[trigger] turns[i].client == c
}

/// The streams after a round: each has turned, and those silent for too long are
/// let go.
pub open spec fn settled(m: MixerView, turns: Seq<Turn>, after: MixerView) -> bool {
    &&& after.deafened == m.deafened
    &&& forall|i: int|
        #![trigger turns[i]]
        0 <= i < turns.len() ==> {
            let c = turns[i].client;
            let s = turned(m.streams[c], turns[i].heard);
            &&& after.streams.contains_key(c) <==> s.idle <= IDLE_FRAMES_BEFORE_RELEASE
            &&& after.streams.contains_key(c) ==> after.streams[c] == s
        }
    &&& forall|c: ClientId| #[trigger] after.streams.contains_key(c) ==> m.streams.contains_key(c)
}

impl Default for VoiceMixer {
    fn default() -> (m: Self)
        ensures
            m.wf(),
            m@ == (MixerView { streams: Map::empty(), deafened: false }),
    {
        Self::new()
    }
}

impl VoiceMixer {
    /// Every stream's buffer is sound.
    pub open spec fn wf(&self) -> bool {
        forall|c: ClientId|
            #![trigger self@.streams.contains_key(c)]
            self@.streams.contains_key(c) ==> jitter::valid(self@.streams[c].jitter)
    }

    pub fn new() -> (m: Self)
        ensures
            m.wf(),
            m@ == (MixerView { streams: Map::empty(), deafened: false }),
    {
        let m = VoiceMixer { streams: BTreeMap::new(), deafened: false };
        assert(m@.streams =~= Map::empty());
        m
    }

    /// Whether a speaker has a stream, and so a decoder.
    pub fn has_stream(&self, client: ClientId) -> (r: bool)
        ensures
            r == self@.streams.contains_key(client),
    {
        broadcast use vstd::std_specs::btree::group_btree_axioms;

        self.streams.contains_key(&client)
    }

    /// Whether a packet can still be counted and numbered.
    pub fn has_room(&self, packet: &VoiceDownstream) -> (r: bool)
        ensures
            r == jitter::takes(met_by(self@, *packet), packet.seq),
    {
        broadcast use vstd::std_specs::btree::group_btree_axioms;

        match self.streams.get(&packet.sender) {
            None => true,
            Some(stream) => {
                if packet.starts_burst() {
                    stream.jitter.stats().received < u64::MAX
                } else {
                    stream.jitter.has_room(packet.seq)
                }
            },
        }
    }

    /// Take an incoming frame, creating a stream for a new speaker.
    pub fn accept(&mut self, packet: VoiceDownstream)
        requires
            old(self).wf(),
            jitter::takes(met_by(old(self)@, packet), packet.seq),
        ensures
            final(self).wf(),
            final(self)@ == accepted(old(self)@, packet),
    {
        broadcast use vstd::std_specs::btree::group_btree_axioms;

        let ghost before = self@;
        let mut stream = match self.streams.remove(&packet.sender) {
            Some(stream) => stream,
            None => SenderStream {
                jitter: JitterBuffer::default(),
                muted: false,
                speaking: false,
                idle_frames: 0,
            },
        };
        assert(stream@ == stream_of(before, packet.sender));
        if packet.starts_burst() {
            stream.jitter.reset();
        }
        stream.idle_frames = 0;
        stream.jitter.push(packet.seq, packet.payload);
        let _ = self.streams.insert(packet.sender, stream);
        assert(self@.streams =~= accepted(before, packet).streams);
        assert forall|c: ClientId|
            #![trigger self@.streams.contains_key(c)]
            self@.streams.contains_key(c) implies jitter::valid(self@.streams[c].jitter) by {
            if c != packet.sender {
                assert(before.streams.contains_key(c));
            }
        }
    }

    /// The speakers that have a stream, each once.
    fn clients(&self) -> (v: Vec<ClientId>)
        ensures
            forall|i: int, j: int| 0 <= i < j < v@.len() ==> v@[i] != v@[j],
            forall|c: ClientId| #[trigger] self@.streams.contains_key(c) <==> v@.contains(c),
    {
        broadcast use vstd::std_specs::btree::group_btree_axioms;

        let mut v: Vec<ClientId> = Vec::new();
        for c in it: self.streams.keys()
            invariant
                it.seq().unref().to_set() == self.streams@.dom(),
                it.seq().no_duplicates(),
                v@.len() == it.index(),
                forall|i: int| 0 <= i < v@.len() ==> v@[i] == *it.seq()[i],
                it.index() == it.seq().len() ==> v@ == it.seq().unref(),
        {
            v.push(*c);
            assert(v@.len() == it.seq().len() ==> v@ =~= it.seq().unref());
        }
        assert(v@.to_set() == self.streams@.dom());
        assert forall|c: ClientId| #[trigger] self@.streams.contains_key(c) <==> v@.contains(c) by {
            assert(self@.streams.contains_key(c) <==> self.streams@.dom().contains(c));
            assert(v@.to_set().contains(c) <==> v@.contains(c));
        }
        v
    }

    /// Render one 20 ms frame, into a buffer that must hold exactly one.
    ///
    /// Every stream gives up the frame that is due, and `decode` is asked to
    /// decode it or to conceal its loss; it answers whether that worked. A frame
    /// that a muted speaker sent is decoded all the same, to keep the decoder in
    /// step, but is not in the mix. A stream silent for two seconds is let go.
    ///
    /// While deafened nothing is rendered and nothing is taken from the streams,
    /// so that undeafening resumes at once instead of buffering again; nobody is
    /// speaking then.
    pub fn render<F: FnMut(ClientId, bool, JitterOutput) -> bool>(
        &mut self,
        out_len: usize,
        decode: &mut F,
    ) -> (r: Rendered)
        requires
            old(self).wf(),
            forall|c: ClientId|
                #![trigger old(self)@.streams.contains_key(c)]
                old(self)@.streams.contains_key(c) ==> old(self)@.streams[c].jitter.stats.lost
                    < u64::MAX,
            forall|c: ClientId, m: bool, o: JitterOutput| #[trigger]
                call_requires(*old(decode), (c, m, o)),
        ensures
            final(self).wf(),
            out_len != SAMPLES_PER_FRAME || old(self)@.deafened ==> final(self)@ == hushed(
                old(self)@,
            ) && r.turns@.len() == 0 && r.contributors == 0,
            out_len == SAMPLES_PER_FRAME && !old(self)@.deafened ==> is_round(
                old(self)@,
                r.turns@,
            ) && settled(old(self)@, r.turns@, final(self)@) && r.contributors == contributing(
                old(self)@,
                r.turns@,
            ),
            forall|i: int|
                0 <= i < r.turns@.len() ==> as_decoded(
                    old(self)@,
                    *old(decode),
                    #[trigger] r.turns@[i],
                ),
            speakers(final(self)@).finite() && speakers(final(self)@).len() == r.contributors,
    {
        broadcast use vstd::std_specs::btree::group_btree_axioms;

        let mut turns: Vec<Turn> = Vec::new();
        let mut contributors: usize = 0;
        if out_len != SAMPLES_PER_FRAME || self.deafened {
            self.hush();
            assert(speakers(self@) =~= Set::empty());
            return Rendered { turns, contributors };
        }
        let ghost before = self@;
        let clients = self.clients();
        let mut i: usize = 0;
        while i < clients.len()
            invariant
                i <= clients@.len(),
                turns@.len() == i,
                contributors <= i,
                contributors == contributing(before, turns@),
                forall|a: int, b: int| 0 <= a < b < clients@.len() ==> clients@[a] != clients@[b],
                forall|c: ClientId|
                    #[trigger] before.streams.contains_key(c) <==> clients@.contains(c),
                forall|a: int| 0 <= a < i ==> #[trigger] turns@[a].client == clients@[a],
                forall|a: int|
                    0 <= a < i ==> as_decoded(before, *decode, #[trigger] turns@[a]),
                *decode == *old(decode),
                self@.deafened == before.deafened,
                forall|a: int|
                    #![trigger turns@[a]]
                    0 <= a < i ==> {
                        let s = turned(before.streams[turns@[a].client], turns@[a].heard);
                        &&& self@.streams.contains_key(turns@[a].client) <==> s.idle
                            <= IDLE_FRAMES_BEFORE_RELEASE
                        &&& self@.streams.contains_key(turns@[a].client)
                            ==> self@.streams[turns@[a].client] == s
                    },
                forall|a: int|
                    #![trigger clients@[a]]
                    i <= a < clients@.len() ==> self@.streams.contains_key(clients@[a])
                        && self@.streams[clients@[a]] == before.streams[clients@[a]],
                forall|c: ClientId| #[trigger]
                    self@.streams.contains_key(c) ==> before.streams.contains_key(c),
                forall|c: ClientId|
                    #![trigger self@.streams.contains_key(c)]
                    self@.streams.contains_key(c) ==> jitter::valid(self@.streams[c].jitter),
                forall|c: ClientId|
                    #![trigger before.streams.contains_key(c)]
                    before.streams.contains_key(c) ==> before.streams[c].jitter.stats.lost
                        < u64::MAX,
                forall|c: ClientId, m: bool, o: JitterOutput| #[trigger]
                    call_requires(*decode, (c, m, o)),
            decreases clients.len() - i,
        {
            let client: ClientId = clients[i];
            let ghost held = self@;
            assert(held.streams.contains_key(client));
            assert(before.streams.contains_key(client));
            if let Some(mut stream) = self.streams.remove(&client) {
                assert(stream@ == before.streams[client]);
                let heard = match stream.jitter.pop() {
                    Some(due) => decode(client, stream.muted, due),
                    None => false,
                };
                stream.speaking = heard && !stream.muted;
                if heard {
                    stream.idle_frames = 0;
                    if !stream.muted {
                        contributors = contributors + 1;
                    }
                } else if stream.idle_frames < u32::MAX {
                    stream.idle_frames = stream.idle_frames + 1;
                }
                assert(stream@ == turned(before.streams[client], heard));
                let ghost after = stream@;
                if stream.idle_frames <= IDLE_FRAMES_BEFORE_RELEASE {
                    let _ = self.streams.insert(client, stream);
                    assert(self@.streams =~= held.streams.insert(client, after));
                } else {
                    assert(self@.streams =~= held.streams.remove(client));
                }
                let ghost earlier = turns@;
                turns.push(Turn { client, heard });
                assert(turns@.drop_last() =~= earlier);
            }
            i = i + 1;
        }
        proof {
            assert forall|c: ClientId|
                #![trigger before.streams.contains_key(c)]
                before.streams.contains_key(c) <==> exists|a: int|
                    0 <= a < turns@.len() && #[trigger] turns@[a].client == c by {
                if before.streams.contains_key(c) {
                    let a = choose|a: int| 0 <= a < clients@.len() && clients@[a] == c;
                    assert(turns@[a].client == c);
                }
                if exists|a: int| 0 <= a < turns@.len() && #[trigger] turns@[a].client == c {
                    let a = choose|a: int|
                        0 <= a < turns@.len() && #[trigger] turns@[a].client == c;
                    assert(clients@[a] == c);
                }
            }
            law_the_speakers_are_those_in_the_mix(before, turns@, self@);
        }
        Rendered { turns, contributors }
    }

    /// Note that nobody is in the mix.
    fn hush(&mut self)
        requires
            old(self).wf(),
        ensures
            final(self).wf(),
            final(self)@ == hushed(old(self)@),
    {
        broadcast use vstd::std_specs::btree::group_btree_axioms;

        let ghost before = self@;
        let clients = self.clients();
        let mut i: usize = 0;
        while i < clients.len()
            invariant
                i <= clients@.len(),
                forall|a: int, b: int| 0 <= a < b < clients@.len() ==> clients@[a] != clients@[b],
                forall|c: ClientId|
                    #[trigger] before.streams.contains_key(c) <==> clients@.contains(c),
                self@.deafened == before.deafened,
                self@.streams.dom() == before.streams.dom(),
                forall|a: int|
                    #![trigger clients@[a]]
                    0 <= a < clients@.len() ==> self@.streams[clients@[a]] == if a < i {
                        hushed(before).streams[clients@[a]]
                    } else {
                        before.streams[clients@[a]]
                    },
            decreases clients.len() - i,
        {
            let client: ClientId = clients[i];
            let ghost held = self@;
            assert(clients@.contains(client));
            assert(held.streams.contains_key(client));
            if let Some(mut stream) = self.streams.remove(&client) {
                stream.speaking = false;
                let ghost after = stream@;
                let _ = self.streams.insert(client, stream);
                assert(self@.streams =~= held.streams.insert(client, after));
            }
            i = i + 1;
        }
        proof {
            assert forall|c: ClientId| before.streams.contains_key(c) implies self@.streams[c]
                == hushed(before).streams[c] by {
                let a = choose|a: int| 0 <= a < clients@.len() && clients@[a] == c;
                assert(clients@[a] == c);
            }
            assert(self@.streams =~= hushed(before).streams);
        }
    }

    pub fn set_muted(&mut self, client: ClientId, muted: bool)
        requires
            old(self).wf(),
        ensures
            final(self).wf(),
            final(self)@ == if old(self)@.streams.contains_key(client) {
                MixerView {
                    streams: old(self)@.streams.insert(
                        client,
                        SpeakerView { muted, ..old(self)@.streams[client] },
                    ),
                    ..old(self)@
                }
            } else {
                old(self)@
            },
    {
        broadcast use vstd::std_specs::btree::group_btree_axioms;

        let ghost before = self@;
        if let Some(mut stream) = self.streams.remove(&client) {
            stream.muted = muted;
            let ghost after = stream@;
            let _ = self.streams.insert(client, stream);
            assert(before.streams.contains_key(client));
            assert(self@.streams =~= before.streams.insert(client, after));
            assert forall|c: ClientId|
                #![trigger self@.streams.contains_key(c)]
                self@.streams.contains_key(c) implies jitter::valid(self@.streams[c].jitter) by {
                assert(before.streams.contains_key(c));
            }
        } else {
            assert(self@.streams =~= before.streams);
        }
    }

    /// When deafened, streams keep flowing but nothing is rendered.
    pub fn set_deafened(&mut self, deafened: bool)
        ensures
            final(self)@ == (MixerView { deafened, ..old(self)@ }),
            old(self).wf() ==> final(self).wf(),
    {
        self.deafened = deafened;
    }

    pub fn is_deafened(&self) -> (r: bool)
        ensures
            r == self@.deafened,
    {
        self.deafened
    }

    pub fn remove(&mut self, client: ClientId)
        requires
            old(self).wf(),
        ensures
            final(self).wf(),
            final(self)@ == (MixerView {
                streams: old(self)@.streams.remove(client),
                ..old(self)@
            }),
    {
        broadcast use vstd::std_specs::btree::group_btree_axioms;

        let ghost before = self@;
        let _ = self.streams.remove(&client);
        assert(self@.streams =~= before.streams.remove(client));
        assert forall|c: ClientId|
            #![trigger self@.streams.contains_key(c)]
            self@.streams.contains_key(c) implies jitter::valid(self@.streams[c].jitter) by {
            assert(before.streams.contains_key(c));
        }
    }

    /// Forget every speaker, for when voice moves to a server whose ids mean
    /// something else entirely.
    pub fn clear(&mut self)
        ensures
            final(self).wf(),
            final(self)@ == (MixerView { streams: Map::empty(), ..old(self)@ }),
    {
        self.streams.clear();
        assert(self@.streams =~= Map::empty());
    }

    /// Who contributed audio to the last rendered frame, each once.
    pub fn speaking(&self) -> (v: Vec<ClientId>)
        ensures
            v@.no_duplicates(),
            v@.to_set() == speakers(self@),
            v@.len() == speakers(self@).len(),
    {
        broadcast use vstd::std_specs::btree::group_btree_axioms;

        let clients = self.clients();
        let mut v: Vec<ClientId> = Vec::new();
        let ghost mut from: Seq<int> = Seq::empty();
        let mut i: usize = 0;
        while i < clients.len()
            invariant
                i <= clients@.len(),
                forall|a: int, b: int| 0 <= a < b < clients@.len() ==> clients@[a] != clients@[b],
                forall|c: ClientId| #[trigger]
                    self@.streams.contains_key(c) <==> clients@.contains(c),
                v@.len() == from.len(),
                forall|a: int|
                    #![trigger from[a]]
                    0 <= a < from.len() ==> 0 <= from[a] < i && v@[a] == clients@[from[a]],
                forall|a: int, b: int| 0 <= a < b < from.len() ==> from[a] < from[b],
                forall|a: int|
                    0 <= a < i ==> (v@.contains(#[trigger] clients@[a])
                        <==> self@.streams[clients@[a]].speaking),
            decreases clients.len() - i,
        {
            let client: ClientId = clients[i];
            assert(clients@.contains(client));
            assert(self@.streams.contains_key(client));
            let ghost earlier = v@;
            assert(!earlier.contains(client)) by {
                if earlier.contains(client) {
                    let a = choose|a: int| 0 <= a < earlier.len() && earlier[a] == client;
                    assert(clients@[from[a]] == clients@[i as int]);
                }
            }
            if let Some(stream) = self.streams.get(&client) {
                if stream.speaking {
                    v.push(client);
                    proof {
                        from = from.push(i as int);
                        assert(v@[earlier.len() as int] == client);
                        assert forall|c: ClientId| earlier.contains(c) || c == client
                            <==> #[trigger] v@.contains(c) by {
                            if earlier.contains(c) {
                                let a = choose|a: int| 0 <= a < earlier.len() && earlier[a] == c;
                                assert(v@[a] == c);
                            }
                        }
                    }
                }
            }
            i = i + 1;
        }
        proof {
            assert forall|a: int, b: int| 0 <= a < b < v@.len() implies v@[a] != v@[b] by {
                assert(from[a] < from[b]);
                assert(clients@[from[a]] != clients@[from[b]]);
            }
            assert forall|c: ClientId| #[trigger]
                v@.contains(c) <==> self@.streams.contains_key(c) && self@.streams[c].speaking by {
                if v@.contains(c) {
                    let a = choose|a: int| 0 <= a < v@.len() && v@[a] == c;
                    assert(clients@[from[a]] == c);
                    assert(clients@.contains(c));
                }
                if self@.streams.contains_key(c) && self@.streams[c].speaking {
                    let a = choose|a: int| 0 <= a < clients@.len() && clients@[a] == c;
                    assert(v@.contains(clients@[a]));
                }
            }
            assert(v@.to_set() =~= speakers(self@));
            v@.unique_seq_to_set();
        }
        v
    }

    pub fn stats(&self, client: ClientId) -> (r: Option<JitterStats>)
        ensures
            r == if self@.streams.contains_key(client) {
                Some(self@.streams[client].jitter.stats)
            } else {
                None
            },
    {
        broadcast use vstd::std_specs::btree::group_btree_axioms;

        match self.streams.get(&client) {
            Some(stream) => Some(stream.jitter.stats()),
            None => None,
        }
    }

    pub fn active_streams(&self) -> (n: usize)
        ensures
            n == self@.streams.dom().len(),
    {
        broadcast use vstd::std_specs::btree::group_btree_axioms;

        assert(self@.streams.dom() =~= self.streams@.dom());
        self.streams.len()
    }
}

proof fn lemma_in_the_mix(m: MixerView, turns: Seq<Turn>)
    requires
        forall|i: int, j: int|
            0 <= i < j < turns.len() ==> turns[i].client != turns[j].client,
    ensures
        in_the_mix(m, turns).finite(),
        in_the_mix(m, turns).len() == contributing(m, turns),
        forall|c: ClientId| #[trigger]
            in_the_mix(m, turns).contains(c) <==> exists|i: int|
                0 <= i < turns.len() && (#[trigger] turns[i]).client == c && turns[i].heard
                    && !m.streams[c].muted,
    decreases turns.len(),
{
    if turns.len() > 0 {
        let rest = turns.drop_last();
        let last = turns.last();
        assert(last == turns[turns.len() - 1]);
        lemma_in_the_mix(m, rest);
        assert forall|c: ClientId| #[trigger]
            in_the_mix(m, turns).contains(c) <==> exists|i: int|
                0 <= i < turns.len() && (#[trigger] turns[i]).client == c && turns[i].heard
                    && !m.streams[c].muted by {
            if in_the_mix(m, rest).contains(c) {
                let i = choose|i: int|
                    0 <= i < rest.len() && (#[trigger] rest[i]).client == c && rest[i].heard
                        && !m.streams[c].muted;
                assert(turns[i] == rest[i]);
            }
            if exists|i: int|
                0 <= i < turns.len() && (#[trigger] turns[i]).client == c && turns[i].heard
                    && !m.streams[c].muted {
                let i = choose|i: int|
                    0 <= i < turns.len() && (#[trigger] turns[i]).client == c && turns[i].heard
                        && !m.streams[c].muted;
                if i < rest.len() {
                    assert(rest[i] == turns[i]);
                }
            }
        }
        if in_the_mix(m, rest).contains(last.client) {
            let i = choose|i: int|
                0 <= i < rest.len() && (#[trigger] rest[i]).client == last.client
                    && rest[i].heard && !m.streams[last.client].muted;
            assert(turns[i].client != turns[turns.len() - 1].client);
        }
    }
}

/// After a rendered frame exactly those count as speaking whose audio is in it:
/// heard, and not muted. They are as many as contributed.
pub proof fn law_the_speakers_are_those_in_the_mix(
    m: MixerView,
    turns: Seq<Turn>,
    after: MixerView,
)
    requires
        is_round(m, turns),
        settled(m, turns, after),
    ensures
        speakers(after) == in_the_mix(m, turns),
        speakers(after).finite(),
        speakers(after).len() == contributing(m, turns),
        forall|c: ClientId| #[trigger]
            speakers(after).contains(c) <==> exists|i: int|
                0 <= i < turns.len() && (#[trigger] turns[i]).client == c && turns[i].heard
                    && !m.streams[c].muted,
{
    lemma_in_the_mix(m, turns);
    assert forall|c: ClientId| #[trigger]
        speakers(after).contains(c) <==> in_the_mix(m, turns).contains(c) by {
        if speakers(after).contains(c) {
            assert(after.streams.contains_key(c));
            assert(m.streams.contains_key(c));
            let i = choose|i: int| 0 <= i < turns.len() && #[trigger] turns[i].client == c;
            assert(turns[i].client == c);
        }
    }
    assert(speakers(after) =~= in_the_mix(m, turns));
}

/// While deafened nobody is speaking, and nothing else changes.
pub proof fn law_nobody_speaks_to_the_deaf(m: MixerView, c: ClientId)
    ensures
        speakers(hushed(m)) == Set::<ClientId>::empty(),
        hushed(m).streams.contains_key(c) == m.streams.contains_key(c),
        m.streams.contains_key(c) ==> hushed(m).streams[c].jitter == m.streams[c].jitter
            && hushed(m).streams[c].muted == m.streams[c].muted && hushed(m).streams[c].idle
            == m.streams[c].idle,
{
    assert(speakers(hushed(m)) =~= Set::empty());
}

/// A speaker after `n` rendered frames in which nothing was heard of them.
pub open spec fn after_silence(s: SpeakerView, n: nat) -> SpeakerView
    decreases n,
{
    if n == 0 {
        s
    } else {
        turned(after_silence(s, (n - 1) as nat), false)
    }
}

/// A stream that was just heard outlives 100 silent frames, and is let go at the
/// next.
pub proof fn law_a_silent_stream_is_released(s: SpeakerView, n: nat)
    requires
        s.idle == 0,
        n <= IDLE_FRAMES_BEFORE_RELEASE + 1,
    ensures
        after_silence(s, n).idle == n,
        after_silence(s, n).idle <= IDLE_FRAMES_BEFORE_RELEASE <==> n
            <= IDLE_FRAMES_BEFORE_RELEASE,
    decreases n,
{
    if n > 0 {
        law_a_silent_stream_is_released(s, (n - 1) as nat);
    }
}

/// A new burst is never taken for packet loss, wherever its numbers start: it
/// meets an empty buffer that waits to fill.
pub proof fn law_a_new_burst_is_no_loss(m: MixerView, packet: VoiceDownstream)
    requires
        packet.flags & FLAG_BURST_START != 0,
        jitter::valid(stream_of(m, packet.sender).jitter),
        jitter::takes(met_by(m, packet), packet.seq),
    ensures
        ({
            let s = accepted(m, packet).streams[packet.sender];
            &&& s.jitter.frames == Map::<i64, bytes::Bytes>::empty().insert(0, packet.payload)
            &&& !s.jitter.playing
            &&& s.jitter.stats.lost == stream_of(m, packet.sender).jitter.stats.lost
        }),
{
    let one = Map::<i64, bytes::Bytes>::empty().insert(0, packet.payload);
    assert(one.dom() =~= Set::empty().insert(0i64));
}

/// A packet touches the stream of its sender and no other.
pub proof fn law_streams_are_independent(m: MixerView, packet: VoiceDownstream, other: ClientId)
    requires
        other != packet.sender,
    ensures
        accepted(m, packet).streams.contains_key(other) == m.streams.contains_key(other),
        accepted(m, packet).streams[other] == m.streams[other],
{
}

/// A frame that was heard is in the mix unless its speaker is muted, and nothing
/// else is.
pub proof fn law_muting_takes_only_the_muted_out_of_the_mix(m: MixerView, turns: Seq<Turn>)
    ensures
        contributing(m, turns) <= turns.len(),
        (forall|i: int|
            0 <= i < turns.len() ==> (#[trigger] turns[i]).heard
                && !m.streams[turns[i].client].muted) ==> contributing(m, turns) == turns.len(),
        (forall|i: int|
            0 <= i < turns.len() ==> !(#[trigger] turns[i]).heard
                || m.streams[turns[i].client].muted) ==> contributing(m, turns) == 0,
    decreases turns.len(),
{
    if turns.len() > 0 {
        let rest = turns.drop_last();
        law_muting_takes_only_the_muted_out_of_the_mix(m, rest);
        assert(turns[turns.len() - 1] == turns.last());
        assert forall|i: int| 0 <= i < rest.len() implies rest[i] == turns[i] by {}
    }
}

/// A packet touches its sender's buffer and idle count alone: whether the sender
/// is muted, and whether they count as speaking, stays as it was, and a sender
/// not met before starts out neither muted nor speaking.
pub proof fn law_a_packet_lifts_no_mute(m: MixerView, packet: VoiceDownstream)
    ensures
        ({
            let s = accepted(m, packet).streams[packet.sender];
            let known = m.streams.contains_key(packet.sender);
            &&& accepted(m, packet).streams.contains_key(packet.sender)
            &&& known ==> s.muted == m.streams[packet.sender].muted && s.speaking
                == m.streams[packet.sender].speaking
            &&& !known ==> !s.muted && !s.speaking
            &&& s.idle == 0
            &&& accepted(m, packet).deafened == m.deafened
        }),
{
}

/// A packet goes into the buffer that its sender already has; one that opens a
/// burst finds it emptied, and a new sender gets an empty one that waits for
/// three frames and holds sixteen.
pub proof fn law_a_packet_reaches_its_senders_buffer(m: MixerView, packet: VoiceDownstream)
    ensures
        ({
            let s = accepted(m, packet).streams[packet.sender];
            let known = m.streams.contains_key(packet.sender);
            let opens = packet.flags & 1 != 0;
            &&& known && !opens ==> s.jitter == jitter::pushed(
                m.streams[packet.sender].jitter,
                packet.seq,
                packet.payload,
            )
            &&& known && opens ==> s.jitter == jitter::pushed(
                jitter::restarted(m.streams[packet.sender].jitter),
                packet.seq,
                packet.payload,
            )
            &&& !known ==> s.jitter == jitter::pushed(
                jitter::fresh(3, 16),
                packet.seq,
                packet.payload,
            )
        }),
{
    let new = jitter::fresh(3, 16);
    assert(jitter::restarted(new) =~= new);
}

/// In each round a stream plays one slot of its buffer and keeps whether it is
/// muted; it counts as speaking exactly when it was heard and is not muted, and
/// its silence is counted from the last frame that was heard.
pub proof fn law_a_turn_plays_one_slot(s: SpeakerView, heard: bool)
    ensures
        turned(s, heard).jitter == jitter::popped(s.jitter),
        turned(s, heard).muted == s.muted,
        turned(s, heard).speaking <==> heard && !s.muted,
        heard ==> turned(s, heard).idle == 0,
        !heard && s.idle < u32::MAX ==> turned(s, heard).idle == s.idle + 1,
{
}

/// A round lets go of exactly the streams that have been silent for more than a
/// hundred frames, creates none, and leaves the deafening alone.
pub proof fn law_a_round_lets_go_of_idle_streams(
    m: MixerView,
    turns: Seq<Turn>,
    after: MixerView,
    c: ClientId,
)
    requires
        is_round(m, turns),
        settled(m, turns, after),
    ensures
        after.deafened == m.deafened,
        !m.streams.contains_key(c) ==> !after.streams.contains_key(c),
        forall|i: int|
            0 <= i < turns.len() && (#[trigger] turns[i]).client == c ==> {
                let heard = turns[i].heard;
                let s = m.streams[c];
                &&& m.streams.contains_key(c)
                &&& after.streams.contains_key(c) <==> heard || s.idle < 100
                &&& after.streams.contains_key(c) ==> {
                    &&& after.streams[c].jitter == jitter::popped(s.jitter)
                    &&& after.streams[c].muted == s.muted
                    &&& after.streams[c].speaking <==> heard && !s.muted
                    &&& after.streams[c].idle == if heard {
                        0
                    } else {
                        s.idle + 1
                    }
                }
            },
        m.streams.contains_key(c) ==> exists|i: int|
            0 <= i < turns.len() && (#[trigger] turns[i]).client == c,
{
}

/// How many are in the mix is how many were heard and are not muted, each
/// counted once.
pub proof fn law_contributors_are_heard_and_not_muted(m: MixerView, turns: Seq<Turn>)
    requires
        is_round(m, turns),
    ensures
        contributing(m, turns) == turns.filter(
            |t: Turn| t.heard && !m.streams[t.client].muted,
        ).len(),
{
    lemma_contributing_filters(m, turns);
}

proof fn lemma_contributing_filters(m: MixerView, turns: Seq<Turn>)
    ensures
        contributing(m, turns) == turns.filter(
            |t: Turn| t.heard && !m.streams[t.client].muted,
        ).len(),
    decreases turns.len(),
{
    reveal(Seq::filter);
    if turns.len() > 0 {
        lemma_contributing_filters(m, turns.drop_last());
    }
}

/// Whoever has a stream that counts as speaking is a speaker, and nobody else;
/// a frame that nobody is in leaves the deafening as it was.
pub proof fn law_speakers_are_the_streams_that_speak(m: MixerView, c: ClientId)
    ensures
        speakers(m).contains(c) <==> m.streams.contains_key(c) && m.streams[c].speaking,
        hushed(m).deafened == m.deafened,
{
}

/// The decoder is handed the frame that is due from the client's buffer, and
/// told whether the client is muted; what it says decides whether the client was
/// heard. Where nothing is due, the client is not heard.
pub proof fn law_the_decoder_gets_what_is_due<F: FnMut(ClientId, bool, JitterOutput) -> bool>(
    m: MixerView,
    decode: F,
    turn: Turn,
)
    requires
        as_decoded(m, decode, turn),
    ensures
        jitter::output(m.streams[turn.client].jitter) is None ==> !turn.heard,
        jitter::output(m.streams[turn.client].jitter) matches Some(due) ==> call_ensures(
            decode,
            (turn.client, m.streams[turn.client].muted, due),
            turn.heard,
        ),
{
}

/// Nobody has two turns in a round, and everybody who has a stream has one.
pub proof fn law_everybody_has_one_turn(m: MixerView, turns: Seq<Turn>, i: int, j: int, c: ClientId)
    requires
        is_round(m, turns),
        0 <= i < turns.len(),
        0 <= j < turns.len(),
    ensures
        turns[i].client == turns[j].client ==> i == j,
        m.streams.contains_key(turns[i].client),
        m.streams.contains_key(c) ==> exists|k: int|
            0 <= k < turns.len() && (#[trigger] turns[k]).client == c,
{
}

} // verus!
