//! Saved servers.
//!
//! Kept apart from the pins of the trust store, which record who a server
//! proved to be. Removing a bookmark is housekeeping; forgetting a pin discards
//! a security decision. Neither can quietly perform the other.
//!
//! An entry may carry a server password, so the file must be private to its
//! owner.

use crate::identity::keystore;
use crate::identity::keystore::{check_permissions, FileRead};
use crate::text;
use vstd::prelude::*;

verus! {

pub const BOOKMARKS_VERSION: u32 = 1;

#[derive(Debug)]
pub enum BookmarkError {
    Io { path: String, source: String },
    Malformed(String),
    UnsupportedVersion { path: String, found: u32, expected: u32 },
    PermissionsTooOpen { path: String, mode: u32 },
    NotFound(u64),
}

/// The sentence of a bookmark error.
pub open spec fn bookmark_sentence(e: BookmarkError) -> Seq<char> {
    match e {
        BookmarkError::Io { path, source } => "reading bookmarks "@ + path@ + ": "@ + source@,
        BookmarkError::Malformed(path) => "bookmarks file "@ + path@ + " is not valid JSON"@,
        BookmarkError::UnsupportedVersion { path, found, expected } => "bookmarks file "@ + path@
            + " has version "@ + text::digits(found as nat) + ", but this build understands "@
            + text::digits(expected as nat),
        BookmarkError::PermissionsTooOpen { path, mode } => "bookmarks file "@ + path@
            + " is readable by other users (mode "@ + text::octal_digits(mode as nat)
            + "); it may contain server passwords, so run `chmod 600 "@ + path@
            + "` before using it"@,
        BookmarkError::NotFound(id) => "no bookmark with id "@ + text::digits(id as nat),
    }
}

impl BookmarkError {
    pub fn message(&self) -> (s: String)
        ensures
            s@ == bookmark_sentence(*self),
    {
        match self {
            BookmarkError::Io { path, source } => {
                let mut s: String = text::join("reading bookmarks ", path.as_str());
                s.append(": ");
                s.append(source.as_str());
                s
            },
            BookmarkError::Malformed(path) => {
                let mut s: String = text::join("bookmarks file ", path.as_str());
                s.append(" is not valid JSON");
                s
            },
            BookmarkError::UnsupportedVersion { path, found, expected } => {
                let mut s: String = text::join("bookmarks file ", path.as_str());
                s.append(" has version ");
                s.append(text::decimal(*found as u64).as_str());
                s.append(", but this build understands ");
                s.append(text::decimal(*expected as u64).as_str());
                s
            },
            BookmarkError::PermissionsTooOpen { path, mode } => {
                let mut s: String = text::join("bookmarks file ", path.as_str());
                s.append(" is readable by other users (mode ");
                s.append(text::octal(*mode).as_str());
                s.append("); it may contain server passwords, so run `chmod 600 ");
                s.append(path.as_str());
                s.append("` before using it");
                s
            },
            BookmarkError::NotFound(id) => text::join(
                "no bookmark with id ",
                text::decimal(*id).as_str(),
            ),
        }
    }
}

#[derive(Debug, PartialEq, Eq)]
pub struct Bookmark {
    /// Assigned by the store, never reused within a file.
    pub id: u64,
    pub label: String,
    pub address: String,
    /// Only if the user asked for it to be remembered.
    pub password: Option<String>,
    /// Fingerprint of the identity to connect with, where the user wants a
    /// particular one.
    pub identity: Option<String>,
}

impl Clone for Bookmark {
    fn clone(&self) -> (r: Self)
        ensures
            r == *self,
    {
        Bookmark {
            id: self.id,
            label: self.label.clone(),
            address: self.address.clone(),
            password: self.password.clone(),
            identity: self.identity.clone(),
        }
    }
}

/// What is asked for when one is created or changed. The id is the store's to
/// assign.
#[derive(Debug)]
pub struct BookmarkInput {
    pub label: String,
    pub address: String,
    pub password: Option<String>,
    pub identity: Option<String>,
}

/// The bookmarks as they appear in the file.
#[derive(Debug)]
pub struct StoredBookmarks {
    pub version: u32,
    /// Stored rather than derived from the entries: one past the highest in use
    /// would hand a deleted entry's id to the next, and a reference held
    /// elsewhere would then point at a different server.
    pub next_id: u64,
    pub entries: Vec<Bookmark>,
}

pub struct Bookmarks {
    path: String,
    next_id: u64,
    entries: Vec<Bookmark>,
}

/// What a store holds.
#[verifier::ext_equal]
pub struct BookmarksView {
    pub path: Seq<char>,
    pub next_id: u64,
    pub entries: Seq<Bookmark>,
}

impl View for Bookmarks {
    type V = BookmarksView;

    closed spec fn view(&self) -> BookmarksView {
        BookmarksView { path: self.path@, next_id: self.next_id, entries: self.entries@ }
    }
}

/// Every id in use is behind the counter.
pub open spec fn behind(entries: Seq<Bookmark>, next_id: u64) -> bool {
    forall|i: int| 0 <= i < entries.len() ==> (#[trigger] entries[i]).id < next_id
}

/// What every store keeps: a counter from 1 up, past every id in use.
pub open spec fn sound(v: BookmarksView) -> bool {
    v.next_id >= 1 && behind(v.entries, v.next_id)
}

/// One past the highest id in use.
pub open spec fn past_highest(entries: Seq<Bookmark>) -> int
    decreases entries.len(),
{
    if entries.len() == 0 {
        1
    } else {
        let before = past_highest(entries.drop_last());
        if entries.last().id + 1 > before {
            entries.last().id + 1
        } else {
            before
        }
    }
}

/// An empty password is no password: it would look like a remembered one that
/// happens to be blank.
pub open spec fn remembered(password: Option<String>) -> Option<String> {
    if password is Some && (password->0)@.len() > 0 {
        password
    } else {
        None
    }
}

/// The bookmark that an input makes under an id.
pub open spec fn made(id: u64, input: BookmarkInput) -> Bookmark {
    Bookmark {
        id,
        label: input.label,
        address: input.address,
        password: remembered(input.password),
        identity: input.identity,
    }
}

/// The store with one more.
pub open spec fn added(v: BookmarksView, input: BookmarkInput) -> BookmarksView {
    BookmarksView {
        next_id: (v.next_id + 1) as u64,
        entries: v.entries.push(made(v.next_id, input)),
        ..v
    }
}

/// The place of the first bookmark with this id, or the number of bookmarks.
pub open spec fn place_of(entries: Seq<Bookmark>, id: u64) -> int
    decreases entries.len(),
{
    if entries.len() == 0 || entries[0].id == id {
        0
    } else {
        1 + place_of(entries.skip(1), id)
    }
}

/// The bookmarks other than this one, in order.
pub open spec fn without(entries: Seq<Bookmark>, id: u64) -> Seq<Bookmark>
    decreases entries.len(),
{
    if entries.len() == 0 {
        Seq::empty()
    } else if entries.last().id == id {
        without(entries.drop_last(), id)
    } else {
        without(entries.drop_last(), id).push(entries.last())
    }
}

/// The store with its counter past every id in use.
pub open spec fn corrected(v: BookmarksView) -> BookmarksView {
    BookmarksView {
        next_id: if v.next_id >= past_highest(v.entries) {
            v.next_id
        } else {
            past_highest(v.entries) as u64
        },
        ..v
    }
}

/// The store with the first bookmark of this id replaced, if there is one.
pub open spec fn updated(v: BookmarksView, id: u64, input: BookmarkInput) -> BookmarksView {
    let i = place_of(v.entries, id);
    if i < v.entries.len() {
        BookmarksView { entries: v.entries.update(i, made(id, input)), ..v }
    } else {
        v
    }
}

/// The store without the bookmarks of this id.
pub open spec fn removed(v: BookmarksView, id: u64) -> BookmarksView {
    BookmarksView { entries: without(v.entries, id), ..v }
}

/// What comes of opening a store.
pub open spec fn opened(
    path: Seq<char>,
    file: FileRead<StoredBookmarks>,
    r: Result<Bookmarks, BookmarkError>,
) -> bool {
    match file {
        FileRead::Missing(_) => r matches Ok(b) && b@ == (BookmarksView {
            path,
            next_id: 1,
            entries: Seq::empty(),
        }),
        FileRead::Failed(why) => r matches Err(BookmarkError::Io { path: p, source }) && p@ == path
            && source@ == why@,
        FileRead::Unchecked(why) => r matches Err(BookmarkError::Io { path: p, source }) && p@
            == path && source@ == why@,
        FileRead::Read { mode, document } => {
            if mode is Some && keystore::too_open(mode->0) {
                r matches Err(BookmarkError::PermissionsTooOpen { path: p, mode: m }) && p@ == path
                    && m == mode->0 & 0o777
            } else {
                match document {
                    None => r matches Err(BookmarkError::Malformed(p)) && p@ == path,
                    Some(stored) => if stored.version != BOOKMARKS_VERSION {
                        r matches Err(
                            BookmarkError::UnsupportedVersion { path: p, found, expected },
                        ) && p@ == path && found == stored.version && expected == BOOKMARKS_VERSION
                    } else {
                        r matches Ok(b) && b@ == corrected(
                            BookmarksView {
                                path,
                                next_id: stored.next_id,
                                entries: stored.entries@,
                            },
                        )
                    },
                }
            }
        },
    }
}

fn keep_password(password: Option<String>) -> (r: Option<String>)
    ensures
        r == remembered(password),
{
    match password {
        Some(p) => if text::chars_of(p.as_str()).len() > 0 {
            Some(p)
        } else {
            None
        },
        None => None,
    }
}

proof fn lemma_place(entries: Seq<Bookmark>, id: u64, i: int)
    requires
        0 <= i <= entries.len(),
        forall|k: int| 0 <= k < i ==> entries[k].id != id,
        i < entries.len() ==> entries[i].id == id,
    ensures
        place_of(entries, id) == i,
    decreases entries.len(),
{
    if i > 0 {
        lemma_place(entries.skip(1), id, i - 1);
    }
}

proof fn lemma_past_highest(entries: Seq<Bookmark>)
    ensures
        past_highest(entries) >= 1,
        forall|i: int| 0 <= i < entries.len() ==> (#[trigger] entries[i]).id < past_highest(entries),
        forall|n: u64| behind(entries, n) && n >= 1 ==> past_highest(entries) <= n,
    decreases entries.len(),
{
    if entries.len() > 0 {
        let rest = entries.drop_last();
        lemma_past_highest(rest);
        assert forall|i: int| 0 <= i < entries.len() implies (#[trigger] entries[i]).id
            < past_highest(entries) by {
            if i < rest.len() {
                assert(rest[i] == entries[i]);
            }
        }
        assert forall|n: u64| behind(entries, n) && n >= 1 implies past_highest(entries) <= n by {
            assert forall|i: int| 0 <= i < rest.len() implies (#[trigger] rest[i]).id < n by {
                assert(rest[i] == entries[i]);
            }
            assert(behind(rest, n));
            assert(entries[entries.len() - 1].id < n);
        }
    }
}

proof fn lemma_without(entries: Seq<Bookmark>, id: u64)
    ensures
        without(entries, id).len() <= entries.len(),
        forall|i: int|
            0 <= i < without(entries, id).len() ==> (#[trigger] without(entries, id)[i]).id != id
                && entries.contains(without(entries, id)[i]),
        forall|i: int|
            0 <= i < entries.len() && (#[trigger] entries[i]).id != id ==> without(
                entries,
                id,
            ).contains(entries[i]),
        without(entries, id).len() == entries.len() <==> forall|i: int|
            0 <= i < entries.len() ==> (#[trigger] entries[i]).id != id,
    decreases entries.len(),
{
    if entries.len() > 0 {
        let rest = entries.drop_last();
        let before = without(rest, id);
        let after = without(entries, id);
        lemma_without(rest, id);
        assert forall|i: int| 0 <= i < after.len() implies (#[trigger] after[i]).id != id
            && entries.contains(after[i]) by {
            if i < before.len() {
                assert(after[i] == before[i]);
                let k = choose|k: int| 0 <= k < rest.len() && rest[k] == before[i];
                assert(entries[k] == after[i]);
            } else {
                assert(entries[entries.len() - 1] == after[i]);
            }
        }
        assert forall|i: int| 0 <= i < entries.len() && (#[trigger] entries[i]).id != id implies
            after.contains(entries[i]) by {
            if i < rest.len() {
                assert(rest[i] == entries[i]);
                let k = choose|k: int| 0 <= k < before.len() && before[k] == rest[i];
                assert(after[k] == entries[i]);
            } else {
                assert(after[after.len() - 1] == entries[i]);
            }
        }
        assert(entries.last() == entries[entries.len() - 1]);
        assert forall|i: int| 0 <= i < rest.len() implies rest[i] == entries[i] by {}
        if after.len() == entries.len() {
            assert forall|i: int| 0 <= i < entries.len() implies (#[trigger] entries[i]).id
                != id by {
                if i < rest.len() {
                    assert(rest[i].id != id);
                }
            }
        }
        if forall|i: int| 0 <= i < entries.len() ==> (#[trigger] entries[i]).id != id {
            assert forall|i: int| 0 <= i < rest.len() implies (#[trigger] rest[i]).id != id by {
                assert(entries[i].id != id);
            }
        }
    }
}

impl Bookmarks {
    pub open spec fn wf(&self) -> bool {
        sound(self@)
    }

    /// Judge what was read; an absent file is an empty store. The counter is
    /// never below what the entries use, so that a hand-edited or truncated one
    /// cannot cause a collision.
    pub fn open(path: &str, file: FileRead<StoredBookmarks>) -> (r: Result<Self, BookmarkError>)
        requires
            file matches FileRead::Read { mode: _, document: Some(stored) } ==> forall|i: int|
                0 <= i < stored.entries@.len() ==> (#[trigger] stored.entries@[i]).id < u64::MAX,
        ensures
            opened(path@, file, r),
            r matches Ok(b) ==> b.wf(),
    {
        match file {
            FileRead::Missing(_) => Ok(
                Bookmarks { path: String::from_str(path), next_id: 1, entries: Vec::new() },
            ),
            FileRead::Failed(why) => Err(
                BookmarkError::Io { path: String::from_str(path), source: why },
            ),
            FileRead::Unchecked(why) => Err(
                BookmarkError::Io { path: String::from_str(path), source: why },
            ),
            FileRead::Read { mode, document } => {
                if let Some(m) = mode {
                    if check_permissions(path, m).is_err() {
                        return Err(
                            BookmarkError::PermissionsTooOpen {
                                path: String::from_str(path),
                                mode: m & 0o777,
                            },
                        );
                    }
                }
                let stored = match document {
                    Some(stored) => stored,
                    None => {
                        return Err(BookmarkError::Malformed(String::from_str(path)));
                    },
                };
                if stored.version != BOOKMARKS_VERSION {
                    return Err(
                        BookmarkError::UnsupportedVersion {
                            path: String::from_str(path),
                            found: stored.version,
                            expected: BOOKMARKS_VERSION,
                        },
                    );
                }
                let mut past: u64 = 1;
                let mut i: usize = 0;
                while i < stored.entries.len()
                    invariant
                        i <= stored.entries@.len(),
                        past == past_highest(stored.entries@.take(i as int)),
                        forall|k: int|
                            0 <= k < stored.entries@.len() ==> (#[trigger] stored.entries@[k]).id
                                < u64::MAX,
                    decreases stored.entries.len() - i,
                {
                    proof {
                        assert(stored.entries@.take(i + 1).drop_last() =~= stored.entries@.take(
                            i as int,
                        ));
                        assert(stored.entries@.take(i + 1).last() == stored.entries@[i as int]);
                    }
                    let id: u64 = stored.entries[i].id;
                    if id + 1 > past {
                        past = id + 1;
                    }
                    i = i + 1;
                }
                proof {
                    assert(stored.entries@.take(i as int) =~= stored.entries@);
                    lemma_past_highest(stored.entries@);
                }
                Ok(
                    Bookmarks {
                        path: String::from_str(path),
                        next_id: if stored.next_id >= past {
                            stored.next_id
                        } else {
                            past
                        },
                        entries: stored.entries,
                    },
                )
            },
        }
    }

    pub fn list(&self) -> (r: &[Bookmark])
        ensures
            r@ == self@.entries,
    {
        self.entries.as_slice()
    }

    pub fn add(&mut self, input: BookmarkInput) -> (r: &Bookmark)
        requires
            old(self).wf(),
            old(self)@.next_id < u64::MAX,
        ensures
            final(self).wf(),
            final(self)@ == added(old(self)@, input),
            *r == made(old(self)@.next_id, input),
    {
        let id: u64 = self.next_id;
        self.next_id = id + 1;
        let password = keep_password(input.password);
        self.entries.push(
            Bookmark {
                id,
                label: input.label,
                address: input.address,
                password,
                identity: input.identity,
            },
        );
        &self.entries[self.entries.len() - 1]
    }

    pub fn update(&mut self, id: u64, input: BookmarkInput) -> (r: Result<
        &Bookmark,
        BookmarkError,
    >)
        requires
            old(self).wf(),
        ensures
            final(self).wf(),
            final(self)@ == updated(old(self)@, id, input),
            if place_of(old(self)@.entries, id) < old(self)@.entries.len() {
                r matches Ok(b) && *b == made(id, input)
            } else {
                r == Err::<&Bookmark, BookmarkError>(BookmarkError::NotFound(id))
            },
    {
        let mut i: usize = 0;
        while i < self.entries.len() && self.entries[i].id != id
            invariant
                i <= self.entries@.len(),
                self@ == old(self)@,
                forall|k: int| 0 <= k < i ==> self.entries@[k].id != id,
            decreases self.entries.len() - i,
        {
            i = i + 1;
        }
        proof {
            lemma_place(self.entries@, id, i as int);
        }
        if i >= self.entries.len() {
            return Err(BookmarkError::NotFound(id));
        }
        let password = keep_password(input.password);
        let changed = Bookmark {
            id,
            label: input.label,
            address: input.address,
            password,
            identity: input.identity,
        };
        self.entries.set(i, changed);
        Ok(&self.entries[i])
    }

    /// Remove a bookmark. This touches no pin whatsoever.
    pub fn remove(&mut self, id: u64) -> (r: bool)
        requires
            old(self).wf(),
        ensures
            final(self).wf(),
            final(self)@ == removed(old(self)@, id),
            r <==> exists|i: int|
                0 <= i < old(self)@.entries.len() && (#[trigger] old(self)@.entries[i]).id == id,
    {
        let before: usize = self.entries.len();
        let mut kept: Vec<Bookmark> = Vec::new();
        let mut i: usize = 0;
        while i < self.entries.len()
            invariant
                i <= self.entries@.len(),
                self@ == old(self)@,
                kept@ == without(self.entries@.take(i as int), id),
            decreases self.entries.len() - i,
        {
            proof {
                assert(self.entries@.take(i + 1).drop_last() =~= self.entries@.take(i as int));
            }
            if self.entries[i].id != id {
                kept.push(self.entries[i].clone());
            }
            i = i + 1;
        }
        proof {
            assert(self.entries@.take(i as int) =~= self.entries@);
            lemma_without(self.entries@, id);
            assert forall|k: int| 0 <= k < kept@.len() implies (#[trigger] kept@[k]).id
                < self.next_id by {
                let j = choose|j: int| 0 <= j < self.entries@.len() && self.entries@[j] == kept@[k];
                assert(self.entries@[j].id < self.next_id);
            }
        }
        self.entries = kept;
        self.entries.len() != before
    }

    /// The bookmarks as they go into the file.
    pub fn stored(&self) -> (s: StoredBookmarks)
        ensures
            s.version == BOOKMARKS_VERSION,
            s.next_id == self@.next_id,
            s.entries@ == self@.entries,
    {
        let mut entries: Vec<Bookmark> = Vec::new();
        let mut i: usize = 0;
        while i < self.entries.len()
            invariant
                i <= self.entries@.len(),
                entries@ == self.entries@.take(i as int),
            decreases self.entries.len() - i,
        {
            proof {
                assert(self.entries@.take(i + 1) =~= self.entries@.take(i as int).push(
                    self.entries@[i as int],
                ));
            }
            entries.push(self.entries[i].clone());
            i = i + 1;
        }
        assert(self.entries@.take(i as int) =~= self.entries@);
        StoredBookmarks { version: BOOKMARKS_VERSION, next_id: self.next_id, entries }
    }
}

/// A new bookmark's id is none that is in use, and the counter only moves on, so
/// that an id once given is never given again.
pub proof fn law_ids_are_never_reused(v: BookmarksView, input: BookmarkInput, id: u64)
    requires
        behind(v.entries, v.next_id),
        v.next_id < u64::MAX,
    ensures
        forall|i: int|
            0 <= i < v.entries.len() ==> (#[trigger] v.entries[i]).id != added(
                v,
                input,
            ).entries.last().id,
        added(v, input).entries.last().id == v.next_id,
        added(v, input).next_id > v.next_id,
        behind(added(v, input).entries, added(v, input).next_id),
        behind(without(v.entries, id), v.next_id),
{
    lemma_without(v.entries, id);
    let kept = without(v.entries, id);
    assert forall|k: int| 0 <= k < kept.len() implies (#[trigger] kept[k]).id < v.next_id by {
        let j = choose|j: int| 0 <= j < v.entries.len() && v.entries[j] == kept[k];
        assert(v.entries[j].id < v.next_id);
    }
}

/// What a store writes, a store reads back: the same bookmarks, and the counter
/// where it stood, so that ids are not reused across a restart either.
pub proof fn law_bookmarks_come_back(v: BookmarksView, stored: StoredBookmarks, b: Bookmarks)
    requires
        behind(v.entries, v.next_id),
        v.next_id >= 1,
        stored.version == BOOKMARKS_VERSION,
        stored.next_id == v.next_id,
        stored.entries@ == v.entries,
        opened(
            v.path,
            FileRead::Read { mode: Some(0o600), document: Some(stored) },
            Ok(b),
        ),
    ensures
        b@ == v,
{
    assert(0o600u32 & 0o777u32 & 0o077u32 == 0) by (bit_vector);
    lemma_past_highest(v.entries);
    assert(b@ =~= v);
}

/// A counter behind the entries is corrected when the file is read.
pub proof fn law_a_counter_behind_is_corrected(stored: StoredBookmarks, path: Seq<char>, b: Bookmarks)
    requires
        stored.version == BOOKMARKS_VERSION,
        forall|i: int|
            0 <= i < stored.entries@.len() ==> (#[trigger] stored.entries@[i]).id < u64::MAX,
        opened(path, FileRead::Read { mode: None, document: Some(stored) }, Ok(b)),
    ensures
        behind(b@.entries, b@.next_id),
        b@.next_id >= stored.next_id,
{
    lemma_past_highest(stored.entries@);
    assert(behind(stored.entries@, u64::MAX));
}

/// Removing a bookmark takes that one and leaves the others as they were.
pub proof fn law_removal_keeps_the_others(entries: Seq<Bookmark>, id: u64)
    ensures
        forall|i: int|
            0 <= i < entries.len() && (#[trigger] entries[i]).id != id ==> without(
                entries,
                id,
            ).contains(entries[i]),
        forall|i: int|
            0 <= i < without(entries, id).len() ==> (#[trigger] without(entries, id)[i]).id != id
                && entries.contains(without(entries, id)[i]),
{
    lemma_without(entries, id);
}

/// One change to a store.
pub enum Change {
    Add(BookmarkInput),
    Update(u64, BookmarkInput),
    Remove(u64),
    /// Saved, and read back.
    Reopen,
}

/// The store after these changes, in order.
pub open spec fn changed(v: BookmarksView, history: Seq<Change>) -> BookmarksView
    decreases history.len(),
{
    if history.len() == 0 {
        v
    } else {
        let before = changed(v, history.drop_last());
        match history.last() {
            Change::Add(input) => added(before, input),
            Change::Update(id, input) => updated(before, id, input),
            Change::Remove(id) => removed(before, id),
            Change::Reopen => corrected(before),
        }
    }
}

/// Whether every addition still finds an id.
pub open spec fn admits(v: BookmarksView, history: Seq<Change>) -> bool
    decreases history.len(),
{
    if history.len() == 0 {
        true
    } else {
        admits(v, history.drop_last()) && (history.last() is Add ==> changed(
            v,
            history.drop_last(),
        ).next_id < u64::MAX)
    }
}

/// No two bookmarks have the same id.
pub open spec fn distinct(entries: Seq<Bookmark>) -> bool {
    forall|i: int, j: int|
        0 <= i < j < entries.len() ==> (#[trigger] entries[i]).id != (#[trigger] entries[j]).id
}

proof fn lemma_place_is_it(entries: Seq<Bookmark>, id: u64)
    ensures
        0 <= place_of(entries, id) <= entries.len(),
        place_of(entries, id) < entries.len() ==> entries[place_of(entries, id)].id == id,
    decreases entries.len(),
{
    if entries.len() > 0 && entries[0].id != id {
        lemma_place_is_it(entries.skip(1), id);
    }
}

proof fn lemma_without_is_distinct(entries: Seq<Bookmark>, id: u64)
    requires
        distinct(entries),
    ensures
        distinct(without(entries, id)),
    decreases entries.len(),
{
    if entries.len() > 0 {
        let rest = entries.drop_last();
        assert forall|i: int, j: int| 0 <= i < j < rest.len() implies (#[trigger] rest[i]).id
            != (#[trigger] rest[j]).id by {
            assert(entries[i].id != entries[j].id);
        }
        lemma_without_is_distinct(rest, id);
        lemma_without(rest, id);
        let kept = without(rest, id);
        if entries.last().id != id {
            let all = without(entries, id);
            assert forall|i: int, j: int| 0 <= i < j < all.len() implies (#[trigger] all[i]).id
                != (#[trigger] all[j]).id by {
                assert(all[i] == kept[i]);
                if j < kept.len() {
                    assert(all[j] == kept[j]);
                } else {
                    let k = choose|k: int| 0 <= k < rest.len() && rest[k] == kept[i];
                    assert(entries[k] == kept[i]);
                    assert(entries[k].id != entries[entries.len() - 1].id);
                }
            }
        }
    }
}

proof fn lemma_history(v: BookmarksView, history: Seq<Change>)
    requires
        sound(v),
        admits(v, history),
    ensures
        sound(changed(v, history)),
        distinct(v.entries) ==> distinct(changed(v, history).entries),
        forall|n: int|
            0 <= n <= history.len() ==> sound(#[trigger] changed(v, history.take(n)))
                && changed(v, history.take(n)).next_id <= changed(v, history).next_id,
    decreases history.len(),
{
    if history.len() == 0 {
        assert forall|n: int| 0 <= n <= history.len() implies sound(
            #[trigger] changed(v, history.take(n)),
        ) && changed(v, history.take(n)).next_id <= changed(v, history).next_id by {
            assert(history.take(n) =~= history);
        }
    } else {
        let front = history.drop_last();
        lemma_history(v, front);
        let before = changed(v, front);
        let now = changed(v, history);
        match history.last() {
            Change::Add(_) => {},
            Change::Update(id, _) => {
                lemma_place_is_it(before.entries, id);
            },
            Change::Remove(id) => {
                lemma_without(before.entries, id);
                assert forall|k: int| 0 <= k < now.entries.len() implies (
                #[trigger] now.entries[k]).id < now.next_id by {
                    let j = choose|j: int|
                        0 <= j < before.entries.len() && before.entries[j] == now.entries[k];
                    assert(before.entries[j].id < before.next_id);
                }
                if distinct(before.entries) {
                    lemma_without_is_distinct(before.entries, id);
                }
            },
            Change::Reopen => {
                lemma_past_highest(before.entries);
            },
        }
        assert forall|n: int| 0 <= n <= history.len() implies sound(
            #[trigger] changed(v, history.take(n)),
        ) && changed(v, history.take(n)).next_id <= now.next_id by {
            if n < history.len() {
                assert(history.take(n) =~= front.take(n));
                assert(changed(v, front.take(n)).next_id <= before.next_id);
            } else {
                assert(history.take(n) =~= history);
            }
        }
    }
}

/// Through any history of additions, changes, removals and restarts, a new
/// bookmark is appended to the list under an id above every id that was ever in
/// the store, removed ones among them.
pub proof fn law_a_new_id_is_above_every_id_ever_used(
    v: BookmarksView,
    history: Seq<Change>,
    n: int,
    i: int,
    input: BookmarkInput,
)
    requires
        sound(v),
        admits(v, history.push(Change::Add(input))),
        0 <= n <= history.len(),
        0 <= i < changed(v, history.take(n)).entries.len(),
    ensures
        ({
            let before = changed(v, history);
            let after = changed(v, history.push(Change::Add(input)));
            &&& after.entries == before.entries.push(made(before.next_id, input))
            &&& changed(v, history.take(n)).entries[i].id < after.entries.last().id
        }),
{
    assert(history.push(Change::Add(input)).drop_last() =~= history);
    lemma_history(v, history);
    let then = changed(v, history.take(n));
    assert(sound(then));
    assert(then.entries[i].id < then.next_id);
}

/// Ids that are distinct to begin with stay distinct through any history.
pub proof fn law_ids_stay_distinct(v: BookmarksView, history: Seq<Change>)
    requires
        sound(v),
        admits(v, history),
        distinct(v.entries),
    ensures
        distinct(changed(v, history).entries),
{
    lemma_history(v, history);
}


proof fn lemma_place_is_first(entries: Seq<Bookmark>, id: u64)
    ensures
        forall|k: int| 0 <= k < place_of(entries, id) ==> (#[trigger] entries[k]).id != id,
    decreases entries.len(),
{
    if entries.len() > 0 && entries[0].id != id {
        let rest = entries.skip(1);
        lemma_place_is_it(rest, id);
        lemma_place_is_first(rest, id);
        assert forall|k: int| 0 <= k < place_of(entries, id) implies (#[trigger] entries[k]).id
            != id by {
            if k > 0 {
                assert(rest[k - 1] == entries[k]);
            }
        }
    }
}

/// Whether a bookmark holds what was asked for. A blank password is none.
pub open spec fn as_asked(b: Bookmark, input: BookmarkInput) -> bool {
    &&& b.label == input.label
    &&& b.address == input.address
    &&& b.identity == input.identity
    &&& b.password is None || b.password == input.password
    &&& b.password is Some <==> exists|p: String|
        input.password == Some(p) && #[trigger] p@.len() > 0
}

/// A new bookmark goes to the end of the list and holds what was asked for; the
/// others stay as they were, and the counter moves on by one.
pub proof fn law_a_new_bookmark_is_as_asked(v: BookmarksView, input: BookmarkInput)
    requires
        v.next_id < u64::MAX,
    ensures
        ({
            let after = added(v, input);
            &&& after.path == v.path
            &&& after.next_id == v.next_id + 1
            &&& after.entries.len() == v.entries.len() + 1
            &&& after.entries.drop_last() == v.entries
            &&& after.entries.last().id == v.next_id
            &&& as_asked(after.entries.last(), input)
        }),
{
    if input.password is Some {
        let p = input.password->0;
        assert(p@.len() > 0 || p@.len() == 0);
    }
}

/// A change sets the first bookmark of that id to what is asked for and keeps its
/// place and its id; no other bookmark changes, and without such a bookmark
/// nothing does.
pub proof fn law_a_change_sets_that_bookmark(v: BookmarksView, id: u64, input: BookmarkInput)
    ensures
        ({
            let after = updated(v, id, input);
            &&& after.path == v.path
            &&& after.next_id == v.next_id
            &&& after.entries.len() == v.entries.len()
            &&& forall|i: int|
                0 <= i < v.entries.len() ==> (#[trigger] after.entries[i]).id == v.entries[i].id
            &&& forall|i: int|
                0 <= i < v.entries.len() && (#[trigger] v.entries[i]).id != id ==> after.entries[i]
                    == v.entries[i]
            &&& forall|i: int|
                0 <= i < v.entries.len() && (#[trigger] v.entries[i]).id == id ==> if (exists|k: int|
                    0 <= k < i && (#[trigger] v.entries[k]).id == id) {
                    after.entries[i] == v.entries[i]
                } else {
                    as_asked(after.entries[i], input)
                }
        }),
{
    lemma_place_is_it(v.entries, id);
    lemma_place_is_first(v.entries, id);
    if input.password is Some {
        let p = input.password->0;
        assert(p@.len() > 0 || p@.len() == 0);
    }
}

/// What is left after a removal is the bookmarks of other ids, each as it was and
/// in the same order; the counter stays.
pub proof fn law_a_removal_takes_only_that_bookmark(v: BookmarksView, id: u64)
    ensures
        removed(v, id).path == v.path,
        removed(v, id).next_id == v.next_id,
        removed(v, id).entries == v.entries.filter(|b: Bookmark| b.id != id),
    decreases v.entries.len(),
{
    reveal(Seq::filter);
    if v.entries.len() > 0 {
        law_a_removal_takes_only_that_bookmark(
            BookmarksView { entries: v.entries.drop_last(), ..v },
            id,
        );
    }
}

/// Reading a file keeps its bookmarks; its counter is moved on no further than
/// the entries need.
pub proof fn law_a_counter_moves_no_further_than_needed(v: BookmarksView, n: u64)
    requires
        behind(v.entries, u64::MAX),
    ensures
        corrected(v).path == v.path,
        corrected(v).entries == v.entries,
        corrected(v).next_id >= v.next_id,
        corrected(v).next_id >= 1,
        behind(v.entries, corrected(v).next_id),
        n >= 1 && n >= v.next_id && behind(v.entries, n) ==> corrected(v).next_id <= n,
{
    lemma_past_highest(v.entries);
}

/// A store opens where no file is, empty, and where a file of this version is
/// open to its owner alone, with the bookmarks in it; every other file is
/// refused, and the refusal names it.
pub proof fn law_when_a_store_opens(
    path: Seq<char>,
    file: FileRead<StoredBookmarks>,
    r: Result<Bookmarks, BookmarkError>,
)
    requires
        opened(path, file, r),
        file matches FileRead::Read { mode: _, document: Some(stored) } ==> behind(
            stored.entries@,
            u64::MAX,
        ),
    ensures
        r is Ok <==> (file is Missing || (file matches FileRead::Read {
            mode,
            document: Some(stored),
        } && (mode matches Some(m) ==> m % 0o100 == 0) && stored.version == 1)),
        r matches Ok(b) ==> b@.path == path,
        r matches Ok(b) ==> file is Missing ==> b@.entries.len() == 0 && b@.next_id == 1,
        r matches Ok(b) ==> (file matches FileRead::Read { mode: _, document: Some(stored) }
            ==> b@.entries == stored.entries@),
        r matches Err(e) ==> match e {
            BookmarkError::Io { path: p, source } => p@ == path && match file {
                FileRead::Failed(why) => source@ == why@,
                FileRead::Unchecked(why) => source@ == why@,
                _ => false,
            },
            BookmarkError::PermissionsTooOpen { path: p, mode: m } => p@ == path && (
            file matches FileRead::Read { mode: Some(given), document: _ } && m == given % 0o1000
                && given % 0o100 != 0),
            BookmarkError::Malformed(p) => p@ == path && (file matches FileRead::Read {
                mode: _,
                document: None,
            }),
            BookmarkError::UnsupportedVersion { path: p, found, expected } => p@ == path && expected
                == 1 && (file matches FileRead::Read { mode: _, document: Some(stored) } && found
                == stored.version && found != 1),
            BookmarkError::NotFound(_) => false,
        },
{
    if let FileRead::Read { mode: Some(m), document: _ } = file {
        assert(m & 0o777u32 == m % 0o1000u32 && (m & 0o777u32 & 0o077u32 == 0 <==> m % 0o100u32
            == 0)) by (bit_vector);
    }
}

/// What is wrong with the bookmarks is said of their file; the version found
/// comes before the one understood, and a mode is in octal.
pub proof fn law_a_bookmark_failure_is_put_in_words(e: BookmarkError)
    ensures
        ({
            let s = bookmark_sentence(e);
            match e {
                BookmarkError::Io { path, source } => {
                    &&& text::holds(s, "reading bookmarks "@ + path@)
                    &&& text::holds(s, ": "@ + source@)
                },
                BookmarkError::Malformed(path) => text::holds(s, "bookmarks file "@ + path@),
                BookmarkError::UnsupportedVersion { path, found, expected } => {
                    &&& text::holds(s, "bookmarks file "@ + path@)
                    &&& text::holds(s, " has version "@ + text::digits(found as nat))
                    &&& text::holds(
                        s,
                        ", but this build understands "@ + text::digits(expected as nat),
                    )
                },
                BookmarkError::PermissionsTooOpen { path, mode } => {
                    &&& text::holds(s, "bookmarks file "@ + path@)
                    &&& text::holds(s, "(mode "@ + text::octal_digits(mode as nat))
                },
                BookmarkError::NotFound(id) => text::holds(s, text::digits(id as nat)),
            }
        }),
{
    let s = bookmark_sentence(e);
    let none = Seq::<char>::empty();
    match e {
        BookmarkError::Io { path, source } => {
            let one = "reading bookmarks "@ + path@;
            text::lemma_holds(s, none, one, ": "@ + source@);
            text::lemma_holds(s, one, ": "@ + source@, none);
        },
        BookmarkError::Malformed(path) => {
            text::lemma_holds(s, none, "bookmarks file "@ + path@, " is not valid JSON"@);
        },
        BookmarkError::UnsupportedVersion { path, found, expected } => {
            let one = "bookmarks file "@ + path@;
            let two = " has version "@ + text::digits(found as nat);
            let three = ", but this build understands "@ + text::digits(expected as nat);
            text::lemma_holds(s, none, one, two + three);
            text::lemma_holds(s, one, two, three);
            text::lemma_holds(s, one + two, three, none);
        },
        BookmarkError::PermissionsTooOpen { path, mode } => {
            reveal_strlit(" is readable by other users (mode ");
            reveal_strlit("(mode ");
            let one = "bookmarks file "@ + path@;
            let digits = text::octal_digits(mode as nat);
            let end = "); it may contain server passwords, so run `chmod 600 "@ + path@
                + "` before using it"@;
            let mid = " is readable by other users (mode "@;
            text::lemma_holds(s, none, one, mid + digits + end);
            let head = mid.take(mid.len() - 6);
            assert(mid =~= head + "(mode "@);
            text::lemma_holds(s, one + head, "(mode "@ + digits, end);
        },
        BookmarkError::NotFound(id) => {
            text::lemma_holds(s, "no bookmark with id "@, text::digits(id as nat), none);
        },
    }
}
} // verus!
