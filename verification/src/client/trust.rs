//! Trust on first use for server identities.
//!
//! There is no certificate authority, so the first connection to an address
//! cannot be verified against anything: the client records the identity it saw
//! and treats a later change as suspicious. Entries are keyed by the address
//! the user typed, and the pinned value is the server's Ed25519 identity, so
//! rotating the TLS certificate does not trip the alarm.

use crate::identity::keystore::FileRead;
use crate::identity::Fingerprint;
use crate::text;
use vstd::prelude::*;

verus! {

/// Why the stored pins could not be read or written.
#[derive(Debug, Clone)]
pub enum TrustError {
    /// Reading or writing the file failed.
    Io { path: String, source: String },
    /// The file is not valid JSON.
    Malformed(String),
}

impl TrustError {
    /// The sentence for this error.
    pub open spec fn sentence(&self) -> Seq<char> {
        match self {
            TrustError::Io { path, source } => "reading "@ + path@ + ": "@ + source@,
            TrustError::Malformed(path) => path@ + " is not valid JSON"@,
        }
    }

    /// The error as a sentence.
    pub fn message(&self) -> (s: String)
        ensures
            s@ == self.sentence(),
    {
        match self {
            TrustError::Io { path, source } => {
                let mut s: String = text::join("reading ", path.as_str());
                s.append(": ");
                s.append(source.as_str());
                s
            },
            TrustError::Malformed(path) => text::join(path.as_str(), " is not valid JSON"),
        }
    }
}

/// A pinned server.
#[derive(Debug)]
pub struct TrustedServer {
    pub fingerprint: Fingerprint,
    /// Last name the server advertised. A rename is not suspicious.
    pub name: String,
    pub first_seen_unix_ms: u64,
    pub last_seen_unix_ms: u64,
}

/// What a [`TrustedServer`] says.
#[verifier::ext_equal]
pub struct Pin {
    pub fingerprint: Fingerprint,
    pub name: Seq<char>,
    pub first_seen_unix_ms: u64,
    pub last_seen_unix_ms: u64,
}

impl View for TrustedServer {
    type V = Pin;

    open spec fn view(&self) -> Pin {
        Pin {
            fingerprint: self.fingerprint,
            name: self.name@,
            first_seen_unix_ms: self.first_seen_unix_ms,
            last_seen_unix_ms: self.last_seen_unix_ms,
        }
    }
}

impl Clone for TrustedServer {
    fn clone(&self) -> (r: Self)
        ensures
            r@ == self@,
    {
        TrustedServer {
            fingerprint: self.fingerprint,
            name: self.name.clone(),
            first_seen_unix_ms: self.first_seen_unix_ms,
            last_seen_unix_ms: self.last_seen_unix_ms,
        }
    }
}

/// What to do about the identity just seen.
#[derive(Debug, Clone, Copy, PartialEq, Eq)]
pub enum TrustDecision {
    /// Never seen this address before.
    FirstContact { fingerprint: Fingerprint },
    /// Matches what was pinned.
    Recognised,
    /// The pinned identity does not match. Never resolved silently.
    Changed { expected: Fingerprint, actual: Fingerprint },
}

/// Every address once, in text order.
pub open spec fn in_order(entries: Seq<(String, TrustedServer)>) -> bool {
    forall|i: int, j: int|
        0 <= i < j < entries.len() ==> text::precedes(
            #[trigger] entries[i].0@,
            #[trigger] entries[j].0@,
        )
}

/// Whether an address is among the entries.
pub open spec fn has_address(entries: Seq<(String, TrustedServer)>, address: Seq<char>) -> bool {
    exists|i: int| 0 <= i < entries.len() && (#[trigger] entries[i]).0@ == address
}

/// The pins that entries make up.
pub open spec fn pins_of(entries: Seq<(String, TrustedServer)>) -> Map<Seq<char>, Pin> {
    Map::new(
        |address: Seq<char>| has_address(entries, address),
        |address: Seq<char>|
            entries[choose|i: int|
                0 <= i < entries.len() && (#[trigger] entries[i]).0@ == address].1@,
    )
}

/// The pins after filing entries one after another: the last one filed under
/// an address is the one that counts.
pub open spec fn filed(entries: Seq<(String, TrustedServer)>) -> Map<Seq<char>, Pin>
    decreases entries.len(),
{
    if entries.len() == 0 {
        Map::empty()
    } else {
        filed(entries.drop_last()).insert(entries.last().0@, entries.last().1@)
    }
}

/// What seeing an identity at an address comes to.
pub open spec fn decision(
    pins: Map<Seq<char>, Pin>,
    address: Seq<char>,
    fingerprint: Fingerprint,
) -> TrustDecision {
    if !pins.contains_key(address) {
        TrustDecision::FirstContact { fingerprint }
    } else if pins[address].fingerprint == fingerprint {
        TrustDecision::Recognised
    } else {
        TrustDecision::Changed { expected: pins[address].fingerprint, actual: fingerprint }
    }
}

/// The pins after trusting an identity: when it was first seen is kept across
/// a change of identity or name.
pub open spec fn trusting(
    pins: Map<Seq<char>, Pin>,
    address: Seq<char>,
    fingerprint: Fingerprint,
    name: Seq<char>,
    now: u64,
) -> Map<Seq<char>, Pin> {
    pins.insert(
        address,
        Pin {
            fingerprint,
            name,
            first_seen_unix_ms: if pins.contains_key(address) {
                pins[address].first_seen_unix_ms
            } else {
                now
            },
            last_seen_unix_ms: now,
        },
    )
}

proof fn lemma_pin_at(entries: Seq<(String, TrustedServer)>, i: int)
    requires
        in_order(entries),
        0 <= i < entries.len(),
    ensures
        pins_of(entries).contains_key(entries[i].0@),
        pins_of(entries)[entries[i].0@] == entries[i].1@,
{
    let address = entries[i].0@;
    let k = choose|k: int| 0 <= k < entries.len() && (#[trigger] entries[k]).0@ == address;
    assert(0 <= k < entries.len() && entries[k].0@ == address);
    text::lemma_precedes_total(address, address);
    if k < i {
        assert(text::precedes(entries[k].0@, entries[i].0@));
    } else if i < k {
        assert(text::precedes(entries[i].0@, entries[k].0@));
    }
}

/// The pinned servers.
pub struct TrustStore {
    entries: Vec<(String, TrustedServer)>,
}

impl View for TrustStore {
    type V = Map<Seq<char>, Pin>;

    closed spec fn view(&self) -> Map<Seq<char>, Pin> {
        pins_of(self.entries@)
    }
}

/// The milliseconds since the Unix epoch by the system clock, if it is past
/// the epoch: `SystemTime::now` and its distance from `UNIX_EPOCH`.
#[verifier::external_body]
fn clock_unix_ms() -> Option<u128> {
    std::time::SystemTime::now()
        .duration_since(std::time::UNIX_EPOCH)
        .ok()
        .map(|d| d.as_millis())
}

/// The low 64 bits of a reading of the clock; 0 before the epoch.
pub fn unix_ms_of(reading: Option<u128>) -> (ms: u64)
    ensures
        ms as int == match reading {
            Some(ms) => ms % 0x1_0000_0000_0000_0000,
            None => 0,
        },
{
    match reading {
        Some(ms) => (ms % 0x1_0000_0000_0000_0000) as u64,
        None => 0,
    }
}

/// The time now. Any reading may come back.
pub fn now_unix_ms() -> u64 {
    unix_ms_of(clock_unix_ms())
}

impl TrustStore {
    #[verifier::type_invariant]
    spec fn well_formed(self) -> bool {
        in_order(self.entries@)
    }

    /// A store with nothing pinned.
    pub fn ephemeral() -> (r: Self)
        ensures
            r@ == Map::<Seq<char>, Pin>::empty(),
    {
        let r: TrustStore = TrustStore { entries: Vec::new() };
        assert(r@ =~= Map::<Seq<char>, Pin>::empty());
        r
    }

    /// The entry at or after an address, and whether it is the address's.
    fn locate(&self, address: &str) -> (r: (usize, bool))
        ensures
            r.0 <= self.entries@.len(),
            forall|i: int| 0 <= i < r.0 ==> text::precedes((#[trigger] self.entries@[i]).0@, address@),
            r.1 ==> r.0 < self.entries@.len() && self.entries@[r.0 as int].0@ == address@,
            !r.1 ==> forall|i: int|
                r.0 <= i < self.entries@.len() ==> text::precedes(
                    address@,
                    (#[trigger] self.entries@[i]).0@,
                ),
            r.1 == self@.contains_key(address@),
            r.1 ==> self@[address@] == self.entries@[r.0 as int].1@,
    {
        proof {
            use_type_invariant(self);
        }
        let mut i: usize = 0;
        while i < self.entries.len() && text::before(self.entries[i].0.as_str(), address)
            invariant
                i <= self.entries@.len(),
                forall|k: int|
                    0 <= k < i ==> text::precedes((#[trigger] self.entries@[k]).0@, address@),
            decreases self.entries@.len() - i,
        {
            i += 1;
        }
        proof {
            text::lemma_precedes_total(address@, address@);
        }
        if i < self.entries.len() && text::same(self.entries[i].0.as_str(), address) {
            proof {
                lemma_pin_at(self.entries@, i as int);
            }
            return (i, true);
        }
        proof {
            if i < self.entries@.len() {
                let here = self.entries@[i as int].0@;
                text::lemma_precedes_total(here, address@);
                assert forall|k: int| i <= k < self.entries@.len() implies text::precedes(
                    address@,
                    (#[trigger] self.entries@[k]).0@,
                ) by {
                    if k > i {
                        text::lemma_precedes_transitive(address@, here, self.entries@[k].0@);
                    }
                }
            }
            assert(!has_address(self.entries@, address@));
        }
        (i, false)
    }

    /// The pin for an address.
    pub fn get(&self, address: &str) -> (r: Option<&TrustedServer>)
        ensures
            match r {
                Some(server) => self@.contains_key(address@) && server@ == self@[address@],
                None => !self@.contains_key(address@),
            },
    {
        let (at, found): (usize, bool) = self.locate(address);
        if found {
            Some(&self.entries[at].1)
        } else {
            None
        }
    }

    /// Every pin with its address, in the order of the addresses.
    pub fn iter(&self) -> (r: &[(String, TrustedServer)])
        ensures
            in_order(r@),
            pins_of(r@) == self@,
    {
        proof {
            use_type_invariant(self);
        }
        self.entries.as_slice()
    }

    /// Compares an observed identity against the pin. Nothing is recorded, so
    /// the caller can put a change in front of the user first.
    pub fn check(&self, address: &str, fingerprint: Fingerprint) -> (r: TrustDecision)
        ensures
            r == decision(self@, address@, fingerprint),
    {
        match self.get(address) {
            None => TrustDecision::FirstContact { fingerprint },
            Some(known) => if known.fingerprint == fingerprint {
                TrustDecision::Recognised
            } else {
                TrustDecision::Changed { expected: known.fingerprint, actual: fingerprint }
            },
        }
    }

    /// Files a pin under an address, in place of any previous one.
    fn put(&mut self, address: String, server: TrustedServer)
        ensures
            final(self)@ == old(self)@.insert(address@, server@),
    {
        let (at, found): (usize, bool) = self.locate(address.as_str());
        proof {
            use_type_invariant(&*self);
        }
        let ghost before = self.entries@;
        let ghost expected = pins_of(before).insert(address@, server@);
        let ghost key = address@;
        let mut entries: Vec<(String, TrustedServer)> = Vec::new();
        std::mem::swap(&mut entries, &mut self.entries);
        if found {
            entries.set(at, (address, server));
        } else {
            entries.insert(at, (address, server));
        }
        proof {
            assert(in_order(entries@)) by {
                assert forall|i: int, j: int| 0 <= i < j < entries@.len() implies text::precedes(
                    #[trigger] entries@[i].0@,
                    #[trigger] entries@[j].0@,
                ) by {
                    if found {
                        assert(entries@[i].0@ == before[i].0@);
                        assert(entries@[j].0@ == before[j].0@);
                    } else {
                        if i < at {
                            assert(entries@[i] == before[i]);
                        } else if i > at {
                            assert(entries@[i] == before[i - 1]);
                        }
                        if j < at {
                            assert(entries@[j] == before[j]);
                        } else if j > at {
                            assert(entries@[j] == before[j - 1]);
                        }
                    }
                }
            }
            lemma_pin_at(entries@, at as int);
            assert forall|k: Seq<char>| #[trigger]
                pins_of(entries@).contains_key(k) == expected.contains_key(k) by {
                if has_address(before, k) {
                    let i = choose|i: int| 0 <= i < before.len() && (#[trigger] before[i]).0@ == k;
                    let j = if !found && i >= at {
                        i + 1
                    } else {
                        i
                    };
                    assert(entries@[j].0@ == k);
                }
                if has_address(entries@, k) && k != key {
                    let j = choose|j: int|
                        0 <= j < entries@.len() && (#[trigger] entries@[j]).0@ == k;
                    let i = if !found && j > at {
                        j - 1
                    } else {
                        j
                    };
                    assert(before[i].0@ == k);
                }
            }
            assert forall|k: Seq<char>| #[trigger]
                expected.contains_key(k) implies pins_of(entries@)[k] == expected[k] by {
                if k != key {
                    let i = choose|i: int| 0 <= i < before.len() && (#[trigger] before[i]).0@ == k;
                    assert(0 <= i < before.len() && before[i].0@ == k);
                    lemma_pin_at(before, i);
                    let j = if !found && i >= at {
                        i + 1
                    } else {
                        i
                    };
                    assert(entries@[j] == before[i]);
                    lemma_pin_at(entries@, j);
                }
            }
            assert(pins_of(entries@) =~= expected);
        }
        self.entries = entries;
    }

    /// The store that a file holds; a missing file is an empty store, and a
    /// file that does not read is never taken for one.
    pub fn open(path: &str, file: FileRead<Vec<(String, TrustedServer)>>) -> (r: Result<
        Self,
        TrustError,
    >)
        ensures
            match file {
                FileRead::Missing(_) => r matches Ok(store) && store@ == Map::<
                    Seq<char>,
                    Pin,
                >::empty(),
                FileRead::Failed(e) => r matches Err(TrustError::Io { path: p, source }) && p@
                    == path@ && source == e,
                FileRead::Unchecked(e) => r matches Err(TrustError::Io { path: p, source }) && p@
                    == path@ && source == e,
                FileRead::Read { mode: _, document: None } => r matches Err(
                    TrustError::Malformed(p),
                ) && p@ == path@,
                FileRead::Read { mode: _, document: Some(entries) } => r matches Ok(store)
                    && store@ == filed(entries@),
            },
    {
        match file {
            FileRead::Missing(_) => Ok(TrustStore::ephemeral()),
            FileRead::Failed(source) => Err(
                TrustError::Io { path: String::from_str(path), source },
            ),
            FileRead::Unchecked(source) => Err(
                TrustError::Io { path: String::from_str(path), source },
            ),
            FileRead::Read { mode: _, document } => match document {
                None => Err(TrustError::Malformed(String::from_str(path))),
                Some(entries) => {
                    let mut store: TrustStore = TrustStore::ephemeral();
                    let mut i: usize = 0;
                    while i < entries.len()
                        invariant
                            i <= entries@.len(),
                            store@ == filed(entries@.take(i as int)),
                        decreases entries@.len() - i,
                    {
                        store.put(entries[i].0.clone(), entries[i].1.clone());
                        assert(entries@.take(i + 1).drop_last() =~= entries@.take(i as int));
                        i += 1;
                    }
                    assert(entries@.take(i as int) =~= entries@);
                    Ok(store)
                },
            },
        }
    }

    /// Pins an identity for an address as of a given time, replacing any
    /// previous entry.
    pub fn trust_at(&mut self, address: &str, fingerprint: Fingerprint, name: &str, now: u64)
        ensures
            final(self)@ == trusting(old(self)@, address@, fingerprint, name@, now),
    {
        let first_seen: u64 = match self.get(address) {
            Some(known) => known.first_seen_unix_ms,
            None => now,
        };
        self.put(
            String::from_str(address),
            TrustedServer {
                fingerprint,
                name: String::from_str(name),
                first_seen_unix_ms: first_seen,
                last_seen_unix_ms: now,
            },
        );
    }

    /// Pins an identity for an address now. Calling this after
    /// [`TrustDecision::Changed`] is how a user accepts a server's new key: a
    /// deliberate act, never automatic.
    pub fn trust(&mut self, address: &str, fingerprint: Fingerprint, name: &str)
        ensures
            exists|now: u64| #[trigger]
                trusting(old(self)@, address@, fingerprint, name@, now) == final(self)@,
    {
        let now: u64 = now_unix_ms();
        self.trust_at(address, fingerprint, name, now);
    }

    /// Drops a pin, and says whether there was one.
    pub fn forget(&mut self, address: &str) -> (r: bool)
        ensures
            r == old(self)@.contains_key(address@),
            final(self)@ == old(self)@.remove(address@),
    {
        let (at, found): (usize, bool) = self.locate(address);
        proof {
            use_type_invariant(&*self);
        }
        if !found {
            assert(self@ =~= self@.remove(address@));
            return false;
        }
        let ghost before = self.entries@;
        let mut entries: Vec<(String, TrustedServer)> = Vec::new();
        std::mem::swap(&mut entries, &mut self.entries);
        let _gone: (String, TrustedServer) = entries.remove(at);
        proof {
            assert forall|i: int| 0 <= i < entries@.len() implies #[trigger] entries@[i]
                == before[if i < at {
                i
            } else {
                i + 1
            }] by {}
            assert(in_order(entries@)) by {
                assert forall|i: int, j: int| 0 <= i < j < entries@.len() implies text::precedes(
                    #[trigger] entries@[i].0@,
                    #[trigger] entries@[j].0@,
                ) by {
                    let x = if i < at {
                        i
                    } else {
                        i + 1
                    };
                    let y = if j < at {
                        j
                    } else {
                        j + 1
                    };
                    assert(text::precedes(before[x].0@, before[y].0@));
                }
            }
            let expected = pins_of(before).remove(address@);
            assert forall|k: Seq<char>| #[trigger]
                pins_of(entries@).contains_key(k) == expected.contains_key(k) by {
                if has_address(before, k) && k != address@ {
                    let i = choose|i: int| 0 <= i < before.len() && (#[trigger] before[i]).0@ == k;
                    assert(0 <= i < before.len() && before[i].0@ == k);
                    let j = if i < at {
                        i
                    } else {
                        i - 1
                    };
                    assert(entries@[j].0@ == k);
                }
                if has_address(entries@, k) {
                    let j = choose|j: int|
                        0 <= j < entries@.len() && (#[trigger] entries@[j]).0@ == k;
                    assert(0 <= j < entries@.len() && entries@[j].0@ == k);
                    let i = if j < at {
                        j
                    } else {
                        j + 1
                    };
                    assert(before[i].0@ == k);
                    text::lemma_precedes_total(k, k);
                    if i < at {
                        assert(text::precedes(before[i].0@, before[at as int].0@));
                    } else {
                        assert(text::precedes(before[at as int].0@, before[i].0@));
                    }
                }
            }
            assert forall|k: Seq<char>| #[trigger]
                expected.contains_key(k) implies pins_of(entries@)[k] == expected[k] by {
                let i = choose|i: int| 0 <= i < before.len() && (#[trigger] before[i]).0@ == k;
                assert(0 <= i < before.len() && before[i].0@ == k);
                lemma_pin_at(before, i);
                let j = if i < at {
                    i
                } else {
                    i - 1
                };
                assert(entries@[j] == before[i]);
                lemma_pin_at(entries@, j);
            }
            assert(pins_of(entries@) =~= expected);
        }
        self.entries = entries;
        true
    }
}

/// Writing out every pin and reading the file back gives the same pins.
pub proof fn law_pins_come_back(entries: Seq<(String, TrustedServer)>)
    requires
        in_order(entries),
    ensures
        filed(entries) == pins_of(entries),
    decreases entries.len(),
{
    if entries.len() > 0 {
        let rest = entries.drop_last();
        assert forall|i: int, j: int| 0 <= i < j < rest.len() implies text::precedes(
            #[trigger] rest[i].0@,
            #[trigger] rest[j].0@,
        ) by {
            assert(text::precedes(entries[i].0@, entries[j].0@));
        }
        law_pins_come_back(rest);
        assert forall|k: Seq<char>| #[trigger]
            filed(entries).contains_key(k) == pins_of(entries).contains_key(k) by {
            if has_address(rest, k) {
                let i = choose|i: int| 0 <= i < rest.len() && (#[trigger] rest[i]).0@ == k;
                assert(entries[i].0@ == k);
            }
            if has_address(entries, k) && k != entries.last().0@ {
                let i = choose|i: int| 0 <= i < entries.len() && (#[trigger] entries[i]).0@ == k;
                assert(rest[i].0@ == k);
            }
            assert(entries[entries.len() - 1].0@ == entries.last().0@);
        }
        assert forall|k: Seq<char>| #[trigger]
            filed(entries).contains_key(k) implies filed(entries)[k] == pins_of(entries)[k] by {
            if k == entries.last().0@ {
                lemma_pin_at(entries, entries.len() - 1);
            } else {
                let i = choose|i: int| 0 <= i < rest.len() && (#[trigger] rest[i]).0@ == k;
                assert(0 <= i < rest.len() && rest[i].0@ == k);
                lemma_pin_at(rest, i);
                lemma_pin_at(entries, i);
            }
        }
    }
    assert(filed(entries) =~= pins_of(entries));
}

/// After an identity is trusted, that identity is recognised at the address
/// and any other is flagged as a change; other addresses are unaffected.
pub proof fn law_trusted_is_recognised(
    pins: Map<Seq<char>, Pin>,
    address: Seq<char>,
    fingerprint: Fingerprint,
    name: Seq<char>,
    now: u64,
    elsewhere: Seq<char>,
    other: Fingerprint,
)
    ensures
        decision(trusting(pins, address, fingerprint, name, now), address, fingerprint)
            == TrustDecision::Recognised,
        other != fingerprint ==> decision(
            trusting(pins, address, fingerprint, name, now),
            address,
            other,
        ) == (TrustDecision::Changed { expected: fingerprint, actual: other }),
        elsewhere != address ==> decision(
            trusting(pins, address, fingerprint, name, now),
            elsewhere,
            other,
        ) == decision(pins, elsewhere, other),
{
}

/// Forgetting an address returns it to first contact, for every identity.
pub proof fn law_forgotten_is_first_contact(
    pins: Map<Seq<char>, Pin>,
    address: Seq<char>,
    fingerprint: Fingerprint,
)
    ensures
        decision(pins.remove(address), address, fingerprint) == (TrustDecision::FirstContact {
            fingerprint,
        }),
{
}

/// A rename or a change of identity keeps when a server was first seen, and a
/// rename alone never makes it a changed one.
pub proof fn law_repinning_keeps_first_seen(
    pins: Map<Seq<char>, Pin>,
    address: Seq<char>,
    fingerprint: Fingerprint,
    name: Seq<char>,
    now: u64,
)
    requires
        pins.contains_key(address),
    ensures
        trusting(pins, address, fingerprint, name, now)[address].first_seen_unix_ms
            == pins[address].first_seen_unix_ms,
        trusting(pins, address, fingerprint, name, now)[address].name == name,
{
}

/// An address without a pin is met for the first time; the pinned identity is
/// recognised; any other is reported as a change, with both identities.
pub proof fn law_an_identity_is_held_against_its_pin(
    pins: Map<Seq<char>, Pin>,
    address: Seq<char>,
    seen: Fingerprint,
)
    ensures
        decision(pins, address, seen) == (TrustDecision::FirstContact { fingerprint: seen })
            <==> !pins.contains_key(address),
        decision(pins, address, seen) == TrustDecision::Recognised <==> pins.contains_key(address)
            && pins[address].fingerprint == seen,
        decision(pins, address, seen) == (TrustDecision::Changed {
            expected: pins[address].fingerprint,
            actual: seen,
        }) <==> pins.contains_key(address) && pins[address].fingerprint != seen,
{
}

/// Trusting an identity pins it at its address, with its name and the time; only
/// a server not met before is first seen now, and no other pin is touched.
pub proof fn law_trusting_pins_what_was_seen(
    pins: Map<Seq<char>, Pin>,
    address: Seq<char>,
    fingerprint: Fingerprint,
    name: Seq<char>,
    now: u64,
    other: Seq<char>,
)
    ensures
        ({
            let after = trusting(pins, address, fingerprint, name, now);
            &&& after.contains_key(address)
            &&& after[address].fingerprint == fingerprint
            &&& after[address].name == name
            &&& after[address].last_seen_unix_ms == now
            &&& !pins.contains_key(address) ==> after[address].first_seen_unix_ms == now
            &&& pins.contains_key(address) ==> after[address].first_seen_unix_ms
                == pins[address].first_seen_unix_ms
            &&& other != address ==> (after.contains_key(other) <==> pins.contains_key(other))
            &&& other != address && pins.contains_key(other) ==> after[other] == pins[other]
        }),
{
}

/// Reading pins back, the last one filed under an address is the one that
/// counts, and nothing is pinned that was not filed.
pub proof fn law_the_last_pin_filed_counts(entries: Seq<(String, TrustedServer)>, i: int)
    requires
        0 <= i < entries.len(),
        forall|j: int| i < j < entries.len() ==> (#[trigger] entries[j]).0@ != entries[i].0@,
    ensures
        filed(entries).contains_key(entries[i].0@),
        filed(entries)[entries[i].0@] == entries[i].1@,
        forall|k: Seq<char>| #[trigger]
            filed(entries).contains_key(k) ==> exists|j: int|
                0 <= j < entries.len() && (#[trigger] entries[j]).0@ == k,
    decreases entries.len(),
{
    lemma_filed_addresses(entries);
    if i < entries.len() - 1 {
        let rest = entries.drop_last();
        assert forall|j: int| i < j < rest.len() implies (#[trigger] rest[j]).0@
            != rest[i].0@ by {
            assert(entries[j].0@ != entries[i].0@);
        }
        law_the_last_pin_filed_counts(rest, i);
        assert(entries[entries.len() - 1].0@ != entries[i].0@);
    }
}

proof fn lemma_filed_addresses(entries: Seq<(String, TrustedServer)>)
    ensures
        forall|k: Seq<char>| #[trigger]
            filed(entries).contains_key(k) ==> exists|j: int|
                0 <= j < entries.len() && (#[trigger] entries[j]).0@ == k,
    decreases entries.len(),
{
    if entries.len() > 0 {
        let rest = entries.drop_last();
        lemma_filed_addresses(rest);
        assert forall|k: Seq<char>| #[trigger] filed(entries).contains_key(k) implies exists|j: int|
            0 <= j < entries.len() && (#[trigger] entries[j]).0@ == k by {
            if filed(rest).contains_key(k) {
                let j = choose|j: int| 0 <= j < rest.len() && (#[trigger] rest[j]).0@ == k;
                assert(entries[j].0@ == k);
            } else {
                assert(entries[entries.len() - 1].0@ == k);
            }
        }
    }
}


/// What is wrong with the file of pins is said of that file.
pub proof fn law_a_trust_failure_names_its_file(e: TrustError)
    ensures
        match e {
            TrustError::Io { path, source } => {
                &&& text::holds(e.sentence(), "reading "@ + path@)
                &&& text::holds(e.sentence(), ": "@ + source@)
            },
            TrustError::Malformed(path) => text::begins_with(e.sentence(), path@),
        },
{
    let s = e.sentence();
    let none = Seq::<char>::empty();
    match e {
        TrustError::Io { path, source } => {
            let one = "reading "@ + path@;
            text::lemma_holds(s, none, one, ": "@ + source@);
            text::lemma_holds(s, one, ": "@ + source@, none);
        },
        TrustError::Malformed(path) => {
            assert(s.take(path@.len() as int) =~= path@);
        },
    }
}
} // verus!
