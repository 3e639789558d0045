//! What is open, where the microphone goes, and whether it is muted.
//!
//! Voice is on one server at a time: speaker ids are assigned per server, so
//! audio from two at once would collide in the mixer. The engine outlives any
//! session, so its state is kept beside them rather than inside one.

use crate::identity::vault;
use crate::identity::vault::Vault;
use crate::identity::Identity;
use crate::text;
use vstd::prelude::*;

verus! {

/// Names one connection for the lifetime of the process. Not the id that a
/// server assigns: two servers would collide on it.
pub type SessionId = u64;

/// A connection that was open, for offering to open it again.
#[derive(Debug, PartialEq, Eq)]
pub struct OpenConnection {
    /// What the user typed, so that it resolves the same way again.
    pub address: String,
    pub identity: String,
}

/// Which connection the microphone feeds.
#[derive(Debug, Clone, Copy, PartialEq, Eq, Structural)]
pub struct VoiceRoute {
    pub inner: Option<SessionId>,
}

impl Default for VoiceRoute {
    fn default() -> (r: Self)
        ensures
            r.inner is None,
    {
        VoiceRoute { inner: None }
    }
}

impl VoiceRoute {
    pub fn session(&self) -> (r: Option<SessionId>)
        ensures
            r == self.inner,
    {
        self.inner
    }

    pub fn set(&mut self, id: SessionId)
        ensures
            final(self).inner == Some(id),
    {
        self.inner = Some(id);
    }

    pub fn clear(&mut self)
        ensures
            final(self).inner is None,
    {
        self.inner = None;
    }

    /// Drop the route if it points at this session, so that a disconnect cannot
    /// leave the microphone feeding a dead connection.
    pub fn clear_if(&mut self, id: SessionId) -> (r: bool)
        ensures
            r == (old(self).inner == Some(id)),
            *final(self) == if r {
                VoiceRoute { inner: None }
            } else {
                *old(self)
            },
    {
        match self.inner {
            Some(current) => {
                if current == id {
                    self.inner = None;
                    return true;
                }
                false
            },
            None => false,
        }
    }
}

/// What the mute and deafen buttons show.
#[derive(Debug, Clone, Copy, PartialEq, Eq, Structural)]
pub struct VoiceState {
    pub muted: bool,
    pub deafened: bool,
}

impl Default for VoiceState {
    fn default() -> (v: Self)
        ensures
            v == open_voice(),
    {
        VoiceState { muted: false, deafened: false }
    }
}

/// Neither muted nor deafened.
pub open spec fn open_voice() -> VoiceState {
    VoiceState { muted: false, deafened: false }
}

/// Deafening implies muting, as the server enforces; undeafening does not
/// unmute.
pub open spec fn with_deafened(v: VoiceState, deafened: bool) -> VoiceState {
    VoiceState { muted: v.muted || deafened, deafened }
}

/// One live connection.
#[derive(Debug)]
pub struct ActiveSession {
    pub id: SessionId,
    /// What the user typed to reach this server.
    pub address: String,
    /// Fingerprint of the identity that this connection signed in with.
    pub identity: String,
}

/// What is alive while the app runs.
pub struct AppState {
    sessions: Vec<ActiveSession>,
    next_session_id: SessionId,
    voice: VoiceRoute,
    /// The voice state of the engine, while one runs.
    engine: Option<VoiceState>,
}

/// What an app holds.
#[verifier::ext_equal]
pub struct AppView {
    /// The sessions in the order in which they were opened: id, address,
    /// identity.
    pub sessions: Seq<(SessionId, Seq<char>, Seq<char>)>,
    pub next: SessionId,
    pub voice: Option<SessionId>,
    pub engine: Option<VoiceState>,
}

/// What is known of a session.
pub open spec fn session_view(s: ActiveSession) -> (SessionId, Seq<char>, Seq<char>) {
    (s.id, s.address@, s.identity@)
}

impl View for AppState {
    type V = AppView;

    closed spec fn view(&self) -> AppView {
        AppView {
            sessions: self.sessions@.map_values(|s: ActiveSession| session_view(s)),
            next: self.next_session_id,
            voice: self.voice.inner,
            engine: self.engine,
        }
    }
}

/// Whether a session is open.
pub open spec fn is_open(v: AppView, id: SessionId) -> bool {
    exists|i: int| 0 <= i < v.sessions.len() && (#[trigger] v.sessions[i]).0 == id
}

/// What every app keeps: ids come from the counter, in order, and voice goes to
/// an open session.
pub open spec fn sound(v: AppView) -> bool {
    &&& v.next >= 1
    &&& forall|i: int| 0 <= i < v.sessions.len() ==> 1 <= (#[trigger] v.sessions[i]).0 < v.next
    &&& forall|i: int, j: int|
        0 <= i < j < v.sessions.len() ==> (#[trigger] v.sessions[i]).0 < (#[trigger] v.sessions[j]).0
    &&& v.voice is Some ==> is_open(v, v.voice->0)
}

/// The sessions other than this one, in order.
pub open spec fn others(
    sessions: Seq<(SessionId, Seq<char>, Seq<char>)>,
    id: SessionId,
) -> Seq<(SessionId, Seq<char>, Seq<char>)>
    decreases sessions.len(),
{
    if sessions.len() == 0 {
        Seq::empty()
    } else if sessions.last().0 == id {
        others(sessions.drop_last(), id)
    } else {
        others(sessions.drop_last(), id).push(sessions.last())
    }
}

/// The app after a session has closed: voice is dropped with it, and audio stops
/// with the last.
pub open spec fn closed_session(v: AppView, id: SessionId) -> AppView {
    if !is_open(v, id) {
        v
    } else {
        let rest = others(v.sessions, id);
        AppView {
            sessions: rest,
            voice: if v.voice == Some(id) {
                None
            } else {
                v.voice
            },
            engine: if rest.len() == 0 {
                None
            } else {
                v.engine
            },
            ..v
        }
    }
}

/// What closing a session asks for, beyond forgetting it.
#[derive(Debug, Clone, Copy, PartialEq, Eq, Structural)]
pub struct Closing {
    /// The session was open; its connection is to be shut down.
    pub was_open: bool,
    /// The speakers of its server are to be forgotten.
    pub clear_speakers: bool,
    /// The engine is to be stopped.
    pub stop_audio: bool,
}

proof fn lemma_others(sessions: Seq<(SessionId, Seq<char>, Seq<char>)>, id: SessionId)
    ensures
        others(sessions, id).len() <= sessions.len(),
        forall|i: int|
            0 <= i < others(sessions, id).len() ==> (#[trigger] others(sessions, id)[i]).0 != id
                && sessions.contains(others(sessions, id)[i]),
        forall|i: int|
            0 <= i < sessions.len() && (#[trigger] sessions[i]).0 != id ==> others(
                sessions,
                id,
            ).contains(sessions[i]),
    decreases sessions.len(),
{
    if sessions.len() > 0 {
        let rest = sessions.drop_last();
        let before = others(rest, id);
        let after = others(sessions, id);
        lemma_others(rest, id);
        assert forall|i: int| 0 <= i < after.len() implies (#[trigger] after[i]).0 != id
            && sessions.contains(after[i]) by {
            if i < before.len() {
                assert(after[i] == before[i]);
                let k = choose|k: int| 0 <= k < rest.len() && rest[k] == before[i];
                assert(sessions[k] == after[i]);
            } else {
                assert(sessions[sessions.len() - 1] == after[i]);
            }
        }
        assert forall|i: int| 0 <= i < sessions.len() && (#[trigger] sessions[i]).0 != id implies
            after.contains(sessions[i]) by {
            if i < rest.len() {
                assert(rest[i] == sessions[i]);
                let k = choose|k: int| 0 <= k < before.len() && before[k] == rest[i];
                assert(after[k] == sessions[i]);
            } else {
                assert(after[after.len() - 1] == sessions[i]);
            }
        }
    }
}

proof fn lemma_others_in_order(sessions: Seq<(SessionId, Seq<char>, Seq<char>)>, id: SessionId)
    requires
        forall|i: int, j: int|
            0 <= i < j < sessions.len() ==> (#[trigger] sessions[i]).0
                < (#[trigger] sessions[j]).0,
    ensures
        forall|i: int, j: int|
            0 <= i < j < others(sessions, id).len() ==> (#[trigger] others(sessions, id)[i]).0
                < (#[trigger] others(sessions, id)[j]).0,
    decreases sessions.len(),
{
    if sessions.len() > 0 {
        let rest = sessions.drop_last();
        let before = others(rest, id);
        let after = others(sessions, id);
        lemma_others_in_order(rest, id);
        lemma_others(rest, id);
        assert forall|i: int, j: int| 0 <= i < j < after.len() implies (#[trigger] after[i]).0
            < (#[trigger] after[j]).0 by {
            assert(after[i] == before[i]);
            if j < before.len() {
                assert(after[j] == before[j]);
            } else {
                let k = choose|k: int| 0 <= k < rest.len() && rest[k] == before[i];
                assert(sessions[k] == before[i]);
                assert(sessions[k].0 < sessions[sessions.len() - 1].0);
            }
        }
    }
}

proof fn lemma_closing_keeps_sound(v: AppView, id: SessionId)
    requires
        sound(v),
    ensures
        sound(closed_session(v, id)),
        !is_open(closed_session(v, id), id),
{
    lemma_others(v.sessions, id);
    lemma_others_in_order(v.sessions, id);
    let w = closed_session(v, id);
    if is_open(v, id) {
        assert forall|i: int| 0 <= i < w.sessions.len() implies 1 <= (#[trigger] w.sessions[i]).0
            < w.next by {
            let k = choose|k: int| 0 <= k < v.sessions.len() && v.sessions[k] == w.sessions[i];
            assert(1 <= v.sessions[k].0 < v.next);
        }
        if w.voice is Some {
            let k = choose|k: int|
                0 <= k < v.sessions.len() && (#[trigger] v.sessions[k]).0 == v.voice->0;
            assert(others(v.sessions, id).contains(v.sessions[k]));
            let j = choose|j: int| 0 <= j < w.sessions.len() && w.sessions[j] == v.sessions[k];
            assert(w.sessions[j].0 == w.voice->0);
        }
    }
}

proof fn lemma_engine_keeps_sound(v: AppView, engine: Option<VoiceState>)
    requires
        sound(v),
    ensures
        sound(AppView { engine, ..v }),
{
    let w = AppView { engine, ..v };
    if v.voice is Some {
        let k = choose|k: int|
            0 <= k < v.sessions.len() && (#[trigger] v.sessions[k]).0 == v.voice->0;
        assert(w.sessions[k].0 == w.voice->0);
    }
}

impl AppState {
    pub open spec fn wf(&self) -> bool {
        sound(self@)
    }

    /// Nothing open, no engine. Ids start at 1, so that a zero id is always
    /// invalid.
    pub fn new() -> (s: Self)
        ensures
            s.wf(),
            s@ == (AppView { sessions: Seq::empty(), next: 1, voice: None, engine: None }),
    {
        let s = AppState {
            sessions: Vec::new(),
            next_session_id: 1,
            voice: VoiceRoute::default(),
            engine: None,
        };
        assert(s@.sessions =~= Seq::empty());
        s
    }

    /// The id of the next connection; never given twice.
    pub fn next_session_id(&mut self) -> (id: SessionId)
        requires
            old(self).wf(),
            old(self)@.next < u64::MAX,
        ensures
            final(self).wf(),
            id == old(self)@.next,
            final(self)@ == (AppView { next: (old(self)@.next + 1) as u64, ..old(self)@ }),
    {
        let id: SessionId = self.next_session_id;
        self.next_session_id = id + 1;
        proof {
            if self@.voice is Some {
                let k = choose|k: int|
                    0 <= k < old(self)@.sessions.len() && (#[trigger] old(self)@.sessions[k]).0
                        == self@.voice->0;
                assert(self@.sessions[k].0 == self@.voice->0);
            }
        }
        id
    }

    fn position(&self, id: SessionId) -> (i: usize)
        ensures
            i <= self.sessions@.len(),
            i < self.sessions@.len() ==> self.sessions@[i as int].id == id && is_open(self@, id),
            i == self.sessions@.len() ==> !is_open(self@, id),
            self@.sessions.len() == self.sessions@.len(),
    {
        let mut i: usize = 0;
        while i < self.sessions.len()
            invariant
                i <= self.sessions@.len(),
                forall|k: int| 0 <= k < i ==> self.sessions@[k].id != id,
            decreases self.sessions.len() - i,
        {
            if self.sessions[i].id == id {
                assert(self@.sessions[i as int].0 == id);
                return i;
            }
            i = i + 1;
        }
        assert forall|k: int| 0 <= k < self@.sessions.len() implies (#[trigger] self@.sessions[k]).0
            != id by {
            assert(self.sessions@[k].id != id);
        }
        i
    }

    /// Whether a session is open, or the sentence that says it is not.
    pub fn with_session(&self, id: SessionId) -> (r: Result<(), String>)
        ensures
            r is Ok <==> is_open(self@, id),
            r matches Err(e) ==> e@ == "That connection is no longer open."@,
    {
        if self.position(id) < self.sessions.len() {
            Ok(())
        } else {
            Err(String::from_str("That connection is no longer open."))
        }
    }

    /// Take in a connection under an id from the counter. The first takes voice,
    /// since there is nothing to take it from; later ones do not, since looking
    /// at a new server should not cut anyone out of a conversation.
    pub fn open_session(&mut self, address: String, identity: String) -> (id: SessionId)
        requires
            old(self).wf(),
            old(self)@.next < u64::MAX,
        ensures
            final(self).wf(),
            id == old(self)@.next,
            final(self)@ == (AppView {
                sessions: old(self)@.sessions.push((id, address@, identity@)),
                next: (id + 1) as u64,
                voice: if old(self)@.voice is None {
                    Some(id)
                } else {
                    old(self)@.voice
                },
                ..old(self)@
            }),
    {
        let ghost before = self@;
        let id: SessionId = self.next_session_id();
        let session = ActiveSession { id, address, identity };
        let ghost seen = session_view(session);
        self.sessions.push(session);
        if self.voice.session().is_none() {
            self.voice.set(id);
        }
        proof {
            assert(self@.sessions =~= before.sessions.push(seen));
            let last = before.sessions.len() as int;
            assert(self@.sessions[last].0 == id);
            if before.voice is Some {
                let k = choose|k: int|
                    0 <= k < before.sessions.len() && (#[trigger] before.sessions[k]).0
                        == before.voice->0;
                assert(self@.sessions[k].0 == before.voice->0);
            }
            assert forall|i: int, j: int| 0 <= i < j < self@.sessions.len() implies (
            #[trigger] self@.sessions[i]).0 < (#[trigger] self@.sessions[j]).0 by {
                assert(self@.sessions[i] == before.sessions[i]);
                if j < last {
                    assert(self@.sessions[j] == before.sessions[j]);
                }
            }
        }
        id
    }

    /// Point voice at a session. Says whether it moved: then the speakers that
    /// the previous server left in the mixer are to be forgotten, since they
    /// would collide with ids of the new one.
    pub fn route_voice(&mut self, id: SessionId) -> (r: Result<bool, String>)
        requires
            old(self).wf(),
        ensures
            final(self).wf(),
            is_open(old(self)@, id) ==> r == Ok::<bool, String>(old(self)@.voice != Some(id))
                && final(self)@ == (AppView { voice: Some(id), ..old(self)@ }),
            !is_open(old(self)@, id) ==> final(self)@ == old(self)@ && (r matches Err(e) && e@
                == "That connection is no longer open."@),
    {
        self.with_session(id)?;
        if let Some(current) = self.voice.session() {
            if current == id {
                return Ok(false);
            }
        }
        self.voice.set(id);
        Ok(true)
    }

    /// Close one connection; nothing happens if it is gone already.
    pub fn end_session(&mut self, id: SessionId) -> (r: Closing)
        requires
            old(self).wf(),
        ensures
            final(self).wf(),
            final(self)@ == closed_session(old(self)@, id),
            r.was_open == is_open(old(self)@, id),
            r.clear_speakers == (is_open(old(self)@, id) && old(self)@.voice == Some(id)
                && old(self)@.engine is Some),
            r.stop_audio == (is_open(old(self)@, id) && others(old(self)@.sessions, id).len() == 0
                && old(self)@.engine is Some),
    {
        let ghost before = self@;
        proof {
            lemma_closing_keeps_sound(before, id);
        }
        if self.position(id) == self.sessions.len() {
            return Closing { was_open: false, clear_speakers: false, stop_audio: false };
        }
        let mut rest: Vec<ActiveSession> = Vec::new();
        let mut all: Vec<ActiveSession> = Vec::new();
        std::mem::swap(&mut all, &mut self.sessions);
        let ghost old_sessions = all@;
        let mut i: usize = 0;
        while i < all.len()
            invariant
                i <= all@.len(),
                all@ == old_sessions,
                rest@.map_values(|s: ActiveSession| session_view(s)) == others(
                    old_sessions.map_values(|s: ActiveSession| session_view(s)).take(i as int),
                    id,
                ),
            decreases all.len() - i,
        {
            let ghost views = old_sessions.map_values(|s: ActiveSession| session_view(s));
            proof {
                assert(views.take(i + 1).drop_last() =~= views.take(i as int));
                assert(views.take(i + 1).last() == session_view(all@[i as int]));
            }
            if all[i].id != id {
                let ghost kept = rest@;
                let session = ActiveSession {
                    id: all[i].id,
                    address: all[i].address.clone(),
                    identity: all[i].identity.clone(),
                };
                let ghost seen = session_view(session);
                rest.push(session);
                assert(rest@.map_values(|s: ActiveSession| session_view(s)) =~= kept.map_values(
                    |s: ActiveSession| session_view(s),
                ).push(seen));
            }
            i = i + 1;
        }
        proof {
            let views = old_sessions.map_values(|s: ActiveSession| session_view(s));
            assert(views.take(i as int) =~= views);
        }
        self.sessions = rest;
        // Before anything else picks up voice, so that the microphone is never
        // left feeding a connection that has just closed.
        let cleared = self.voice.clear_if(id);
        let running = self.engine.is_some();
        let last = self.sessions.len() == 0;
        assert(self@.sessions.len() == self.sessions@.len());
        if last {
            self.engine = None;
        }
        assert(self@ =~= closed_session(before, id));
        Closing {
            was_open: true,
            clear_speakers: cleared && running,
            stop_audio: last && running,
        }
    }

    /// Close every connection, and stop audio.
    pub fn end_all_sessions(&mut self)
        requires
            old(self).wf(),
        ensures
            final(self).wf(),
            final(self)@ == (AppView {
                sessions: Seq::empty(),
                voice: None,
                engine: None,
                ..old(self)@
            }),
    {
        self.sessions = Vec::new();
        self.voice.clear();
        self.engine = None;
        assert(self@.sessions =~= Seq::empty());
    }

    /// Whether nothing is connected. Only then is a running engine a preview
    /// that may be stopped; otherwise it carries someone's voice.
    pub fn is_idle(&self) -> (r: bool)
        ensures
            r == (self@.sessions.len() == 0),
    {
        assert(self@.sessions.len() == self.sessions@.len());
        self.sessions.len() == 0
    }

    /// Whether any live connection signed in with this identity.
    pub fn identity_in_use(&self, fingerprint: &str) -> (r: bool)
        ensures
            r <==> exists|i: int|
                0 <= i < self@.sessions.len() && (#[trigger] self@.sessions[i]).2 == fingerprint@,
    {
        let mut i: usize = 0;
        while i < self.sessions.len()
            invariant
                i <= self.sessions@.len(),
                self@.sessions.len() == self.sessions@.len(),
                forall|k: int|
                    0 <= k < i ==> (#[trigger] self@.sessions[k]).2 != fingerprint@,
            decreases self.sessions.len() - i,
        {
            assert(self@.sessions[i as int].2 == self.sessions@[i as int].identity@);
            if text::same(self.sessions[i].identity.as_str(), fingerprint) {
                return true;
            }
            i = i + 1;
        }
        false
    }

    /// What is open, so that the next launch can offer to open it again.
    pub fn open_connections(&self) -> (r: Vec<OpenConnection>)
        ensures
            r@.len() == self@.sessions.len(),
            forall|i: int|
                0 <= i < r@.len() ==> (#[trigger] r@[i]).address@ == self@.sessions[i].1
                    && r@[i].identity@ == self@.sessions[i].2,
    {
        let mut r: Vec<OpenConnection> = Vec::new();
        let mut i: usize = 0;
        while i < self.sessions.len()
            invariant
                i <= self.sessions@.len(),
                self@.sessions.len() == self.sessions@.len(),
                r@.len() == i,
                forall|k: int|
                    0 <= k < i ==> (#[trigger] r@[k]).address@ == self@.sessions[k].1
                        && r@[k].identity@ == self@.sessions[k].2,
            decreases self.sessions.len() - i,
        {
            r.push(
                OpenConnection {
                    address: self.sessions[i].address.clone(),
                    identity: self.sessions[i].identity.clone(),
                },
            );
            i = i + 1;
        }
        r
    }

    pub fn voice_session(&self) -> (r: Option<SessionId>)
        ensures
            r == self@.voice,
    {
        self.voice.session()
    }

    /// Note that an engine has been started, in place of any that ran. Mute and
    /// deafen carry across, so that changing a device in mid-call cannot open a
    /// muted microphone.
    pub fn engine_started(&mut self) -> (v: VoiceState)
        requires
            old(self).wf(),
        ensures
            final(self).wf(),
            v == match old(self)@.engine {
                Some(carried) => carried,
                None => open_voice(),
            },
            final(self)@ == (AppView { engine: Some(v), ..old(self)@ }),
    {
        let v = match self.engine {
            Some(carried) => carried,
            None => VoiceState::default(),
        };
        self.engine = Some(v);
        proof {
            lemma_engine_keeps_sound(old(self)@, Some(v));
        }
        v
    }

    /// Stop the engine. Says whether one ran.
    pub fn stop_audio(&mut self) -> (ran: bool)
        requires
            old(self).wf(),
        ensures
            final(self).wf(),
            ran == (old(self)@.engine is Some),
            final(self)@ == (AppView { engine: None, ..old(self)@ }),
    {
        let ran = self.engine.is_some();
        self.engine = None;
        proof {
            lemma_engine_keeps_sound(old(self)@, None);
        }
        ran
    }

    fn running_engine(&self) -> (r: Result<VoiceState, String>)
        ensures
            self@.engine matches Some(v) ==> r == Ok::<VoiceState, String>(v),
            self@.engine is None ==> (r matches Err(e) && e@ == "Audio is not running."@),
    {
        match self.engine {
            Some(v) => Ok(v),
            None => Err(String::from_str("Audio is not running.")),
        }
    }

    /// Set mute. The state that results is for the window and for every server:
    /// each shows it to everyone on it.
    pub fn set_muted(&mut self, muted: bool) -> (r: Result<VoiceState, String>)
        requires
            old(self).wf(),
        ensures
            final(self).wf(),
            set_voice(old(self)@, final(self)@, r, |v: VoiceState| VoiceState { muted, ..v }),
    {
        let mut v = match self.running_engine() {
            Ok(v) => v,
            Err(e) => {
                return Err(e);
            },
        };
        v.muted = muted;
        self.engine = Some(v);
        proof {
            lemma_engine_keeps_sound(old(self)@, Some(v));
        }
        Ok(v)
    }

    pub fn set_deafened(&mut self, deafened: bool) -> (r: Result<VoiceState, String>)
        requires
            old(self).wf(),
        ensures
            final(self).wf(),
            set_voice(old(self)@, final(self)@, r, |v: VoiceState| with_deafened(v, deafened)),
    {
        let mut v = match self.running_engine() {
            Ok(v) => v,
            Err(e) => {
                return Err(e);
            },
        };
        v.deafened = deafened;
        if deafened {
            v.muted = true;
        }
        self.engine = Some(v);
        proof {
            lemma_engine_keeps_sound(old(self)@, Some(v));
        }
        Ok(v)
    }

    pub fn toggle_muted(&mut self) -> (r: Result<VoiceState, String>)
        requires
            old(self).wf(),
        ensures
            final(self).wf(),
            set_voice(
                old(self)@,
                final(self)@,
                r,
                |v: VoiceState| VoiceState { muted: !v.muted, ..v },
            ),
    {
        match self.running_engine() {
            Ok(v) => self.set_muted(!v.muted),
            Err(e) => Err(e),
        }
    }

    pub fn toggle_deafened(&mut self) -> (r: Result<VoiceState, String>)
        requires
            old(self).wf(),
        ensures
            final(self).wf(),
            set_voice(
                old(self)@,
                final(self)@,
                r,
                |v: VoiceState| with_deafened(v, !v.deafened),
            ),
    {
        match self.running_engine() {
            Ok(v) => self.set_deafened(!v.deafened),
            Err(e) => Err(e),
        }
    }

    pub fn voice_state(&self) -> (v: VoiceState)
        ensures
            v == match self@.engine {
                Some(v) => v,
                None => open_voice(),
            },
    {
        match self.engine {
            Some(v) => v,
            None => VoiceState::default(),
        }
    }
}

/// A change of the voice state: it needs an engine, and touches nothing else.
pub open spec fn set_voice(
    before: AppView,
    after: AppView,
    r: Result<VoiceState, String>,
    change: spec_fn(VoiceState) -> VoiceState,
) -> bool {
    match before.engine {
        Some(v) => r == Ok::<VoiceState, String>(change(v)) && after == (AppView {
            engine: Some(change(v)),
            ..before
        }),
        None => after == before && (r matches Err(e) && e@ == "Audio is not running."@),
    }
}

/// The identity that a connection signs in with: the one asked for, or the
/// active one. A copy, so that later edits of the vault cannot disturb a live
/// connection.
pub fn identity_for(vault: &Vault, fingerprint: Option<&str>) -> (r: Result<
    (Identity, String, String),
    String,
>)
    requires
        vault.wf(),
    ensures
        ({
            let name = match fingerprint {
                Some(f) => f@,
                None => vault.active_name(),
            };
            if vault::has_name(vault.entries(), name) {
                let e = vault.entries()[vault::index_of(vault.entries(), name)];
                r matches Ok(t) && t.0.secret() == e.secret && t.0.witness() == e.counter && t.1@
                    == e.nickname && t.2@ == vault::name_of(e)
            } else {
                r matches Err(s) && s@ == "No identity with fingerprint "@ + name + "."@
            }
        }),
{
    let entry = match fingerprint {
        Some(f) => match vault.get(f) {
            Some(entry) => entry,
            None => {
                let mut s: String = text::join("No identity with fingerprint ", f);
                s.append(".");
                return Err(s);
            },
        },
        None => vault.active(),
    };
    Ok(
        (
            Identity::from_secret_bytes(&entry.identity.secret_bytes(), entry.identity.counter()),
            entry.nickname.clone(),
            entry.identity.fingerprint().to_string(),
        ),
    )
}

/// An id once given is never given again: it is below the counter, and the
/// counter never goes back, whatever is opened or closed.
pub proof fn law_session_ids_are_never_reused(v: AppView, id: SessionId)
    requires
        sound(v),
    ensures
        !is_open(v, v.next),
        closed_session(v, id).next == v.next,
        sound(closed_session(v, id)),
        !is_open(closed_session(v, id), id),
        !is_open(v, 0),
{
    lemma_closing_keeps_sound(v, id);
}

/// Closing a session that does not hold voice leaves the voice of the others
/// alone; closing the one that does leaves the microphone feeding nothing.
pub proof fn law_closing_never_moves_voice(v: AppView, id: SessionId)
    requires
        sound(v),
        is_open(v, id),
    ensures
        v.voice != Some(id) ==> closed_session(v, id).voice == v.voice,
        v.voice == Some(id) ==> closed_session(v, id).voice is None,
        closed_session(v, id).sessions.len() > 0 ==> closed_session(v, id).engine == v.engine,
        closed_session(v, id).sessions.len() == 0 ==> closed_session(v, id).engine is None,
{
}

/// Whoever is deafened is muted, and stays so until they unmute; deafening and
/// undeafening never opens a microphone that was muted.
pub proof fn law_deafening_never_opens_the_microphone(v: VoiceState, deafened: bool)
    ensures
        with_deafened(v, true).muted,
        v.muted ==> with_deafened(v, deafened).muted,
        with_deafened(with_deafened(v, true), false).muted,
{
}


/// After a session has closed, the others are open as before and in the same
/// order, under the same counter; what is not open cannot be closed.
pub proof fn law_closing_takes_only_that_session(v: AppView, id: SessionId)
    ensures
        closed_session(v, id).sessions == v.sessions.filter(
            |s: (SessionId, Seq<char>, Seq<char>)| s.0 != id,
        ),
        closed_session(v, id).next == v.next,
        !is_open(v, id) ==> closed_session(v, id) == v,
{
    lemma_others_are_filtered(v.sessions, id);
    lemma_others(v.sessions, id);
    if !is_open(v, id) {
        let keep = |s: (SessionId, Seq<char>, Seq<char>)| s.0 != id;
        lemma_all_are_kept(v.sessions, keep);
    }
}

proof fn lemma_others_are_filtered(
    sessions: Seq<(SessionId, Seq<char>, Seq<char>)>,
    id: SessionId,
)
    ensures
        others(sessions, id) == sessions.filter(
            |s: (SessionId, Seq<char>, Seq<char>)| s.0 != id,
        ),
    decreases sessions.len(),
{
    reveal(Seq::filter);
    if sessions.len() > 0 {
        lemma_others_are_filtered(sessions.drop_last(), id);
    }
}

proof fn lemma_all_are_kept(
    sessions: Seq<(SessionId, Seq<char>, Seq<char>)>,
    keep: spec_fn((SessionId, Seq<char>, Seq<char>)) -> bool,
)
    requires
        forall|i: int| 0 <= i < sessions.len() ==> keep(#[trigger] sessions[i]),
    ensures
        sessions.filter(keep) == sessions,
    decreases sessions.len(),
{
    reveal(Seq::filter);
    if sessions.len() > 0 {
        let front = sessions.drop_last();
        assert forall|i: int| 0 <= i < front.len() implies keep(#[trigger] front[i]) by {
            assert(front[i] == sessions[i]);
        }
        lemma_all_are_kept(front, keep);
        assert(keep(sessions[sessions.len() - 1]));
        assert(front.push(sessions.last()) =~= sessions);
    }
}

/// Deafening does what it is told, and mutes; undeafening leaves the mute as it
/// is. A voice that nobody has touched is heard and hears.
pub proof fn law_deafening_mutes_and_undeafening_keeps_the_mute(v: VoiceState, deafened: bool)
    ensures
        with_deafened(v, deafened).deafened == deafened,
        with_deafened(v, true).muted,
        with_deafened(v, false).muted == v.muted,
        !open_voice().muted,
        !open_voice().deafened,
{
}

/// With an engine the change is made and reported; without one nothing changes,
/// and that is said. Neither touches the sessions or who has voice.
pub proof fn law_a_voice_change_is_made_and_reported(
    before: AppView,
    after: AppView,
    r: Result<VoiceState, String>,
    change: spec_fn(VoiceState) -> VoiceState,
)
    requires
        set_voice(before, after, r, change),
    ensures
        r is Ok <==> before.engine is Some,
        before.engine matches Some(v) ==> r->Ok_0 == change(v),
        r matches Ok(v) ==> after.engine == Some(v),
        r is Err ==> after.engine is None,
        after.sessions == before.sessions,
        after.next == before.next,
        after.voice == before.voice,
{
}
} // verus!
