//! A collection of identities, one of them active.
//!
//! Identities are keyed by the text of their fingerprint, which is derived
//! from the public key and so cannot drift out of step with what it names.
//! There is always at least one identity, and the active one always exists.
//!
//! The stored file can be encrypted with a passphrase, which is off unless the
//! user turns it on. The encrypted file is an envelope (see
//! [`crate::identity::sealed`]) around the document that an unencrypted vault
//! stores.

use crate::identity;
use crate::identity::keystore::{
    check_permissions, decode_secret, too_open_message, FileRead, KeystoreError, LoadedIdentity,
};
use crate::identity::sealed::{SealError, SealedVault, VaultKey, SEALED_VERSION};
use crate::identity::{crypto, keystore, sealed, Identity};
use crate::octets;
use crate::text;
use vstd::prelude::*;

verus! {

/// Version of the unencrypted document.
pub const VAULT_VERSION: u32 = 2;

/// Why a vault could not be opened, changed or saved.
#[derive(Debug, Clone)]
pub enum VaultError {
    Io { path: String, source: String },
    Malformed(String),
    UnsupportedVersion { path: String, found: u32, expected: u32 },
    BadKey(String),
    PermissionsTooOpen { path: String, mode: u32 },
    /// No identity has this fingerprint.
    NotFound(String),
    /// It is the only identity there is.
    WouldEmpty,
    /// The older single-identity file exists but will not load.
    Migration { from: String, source: KeystoreError },
    PassphraseRequired(String),
    Locked { path: String, source: SealError },
    /// A newly written file did not read back as the vault that produced it.
    VerificationFailed(String),
}

impl VaultError {
    /// The sentence for this error.
    pub open spec fn sentence(&self) -> Seq<char> {
        match self {
            VaultError::Io { path, source } => "reading vault "@ + path@ + ": "@ + source@,
            VaultError::Malformed(path) => "vault "@ + path@ + " is not valid JSON"@,
            VaultError::UnsupportedVersion { path, found, expected } => "vault "@ + path@
                + " has version "@ + text::digits(*found as nat) + ", but this build understands "@
                + text::digits(*expected as nat)
                + " (unencrypted) and 3 (passphrase-encrypted)"@,
            VaultError::BadKey(path) => "vault "@ + path@
                + " contains an entry that is not a valid Ed25519 secret key"@,
            VaultError::PermissionsTooOpen { path, mode } => keystore::too_open_sentence(
                "vault "@,
                path@,
                *mode,
            ),
            VaultError::NotFound(fingerprint) => "no identity with fingerprint "@ + fingerprint@,
            VaultError::WouldEmpty =>
                "this is the only identity you have; add another before removing it"@,
            VaultError::Migration { from, source } => "migrating "@ + from@ + ": "@
                + source.sentence(),
            VaultError::PassphraseRequired(path) => "vault "@ + path@
                + " is encrypted; a passphrase is needed to open it"@,
            VaultError::Locked { path, source } => "could not open vault "@ + path@ + ": "@
                + source.sentence(),
            VaultError::VerificationFailed(path) =>
                "the re-encrypted vault did not read back correctly, so "@ + path@
                + " was left unchanged; your identities are safe and nothing was written"@,
        }
    }

    /// The error as a sentence.
    pub fn message(&self) -> (s: String)
        ensures
            s@ == self.sentence(),
    {
        match self {
            VaultError::Io { path, source } => {
                let mut s: String = text::join("reading vault ", path.as_str());
                s.append(": ");
                s.append(source.as_str());
                s
            },
            VaultError::Malformed(path) => {
                let mut s: String = text::join("vault ", path.as_str());
                s.append(" is not valid JSON");
                s
            },
            VaultError::UnsupportedVersion { path, found, expected } => {
                let mut s: String = text::join("vault ", path.as_str());
                s.append(" has version ");
                s.append(text::decimal(*found as u64).as_str());
                s.append(", but this build understands ");
                s.append(text::decimal(*expected as u64).as_str());
                s.append(" (unencrypted) and 3 (passphrase-encrypted)");
                s
            },
            VaultError::BadKey(path) => {
                let mut s: String = text::join("vault ", path.as_str());
                s.append(" contains an entry that is not a valid Ed25519 secret key");
                s
            },
            VaultError::PermissionsTooOpen { path, mode } => too_open_message(
                "vault ",
                path.as_str(),
                *mode,
            ),
            VaultError::NotFound(fingerprint) => text::join(
                "no identity with fingerprint ",
                fingerprint.as_str(),
            ),
            VaultError::WouldEmpty => String::from_str(
                "this is the only identity you have; add another before removing it",
            ),
            VaultError::Migration { from, source } => {
                let mut s: String = text::join("migrating ", from.as_str());
                s.append(": ");
                s.append(source.message().as_str());
                s
            },
            VaultError::PassphraseRequired(path) => {
                let mut s: String = text::join("vault ", path.as_str());
                s.append(" is encrypted; a passphrase is needed to open it");
                s
            },
            VaultError::Locked { path, source } => {
                let mut s: String = text::join("could not open vault ", path.as_str());
                s.append(": ");
                s.append(source.message().as_str());
                s
            },
            VaultError::VerificationFailed(path) => {
                let mut s: String = text::join(
                    "the re-encrypted vault did not read back correctly, so ",
                    path.as_str(),
                );
                s.append(" was left unchanged; your identities are safe and nothing was written");
                s
            },
        }
    }
}

/// One identity and the profile attached to it.
pub struct VaultEntry {
    pub identity: Identity,
    /// Shown to other users on a server.
    pub nickname: String,
    /// Private note. Never leaves this machine.
    pub label: String,
}

/// What a [`VaultEntry`] says.
#[verifier::ext_equal]
pub struct EntryView {
    pub secret: Seq<u8>,
    pub counter: u64,
    pub nickname: Seq<char>,
    pub label: Seq<char>,
}

impl View for VaultEntry {
    type V = EntryView;

    open spec fn view(&self) -> EntryView {
        EntryView {
            secret: self.identity.secret(),
            counter: self.identity.witness(),
            nickname: self.nickname@,
            label: self.label@,
        }
    }
}

/// The text that names an entry: the fingerprint of its key.
pub open spec fn name_of(e: EntryView) -> Seq<char> {
    identity::fingerprint_text(crypto::sha256_of(crypto::public_key_of(e.secret)))
}

/// The views of entries.
pub open spec fn views(entries: Seq<VaultEntry>) -> Seq<EntryView> {
    entries.map_values(|e: VaultEntry| e@)
}

/// The place of the first entry with this name, or the number of entries.
pub open spec fn index_of(entries: Seq<EntryView>, name: Seq<char>) -> int
    decreases entries.len(),
{
    if entries.len() == 0 || name_of(entries[0]) == name {
        0
    } else {
        1 + index_of(entries.skip(1), name)
    }
}

/// Whether some entry has this name.
pub open spec fn has_name(entries: Seq<EntryView>, name: Seq<char>) -> bool {
    exists|i: int| 0 <= i < entries.len() && name_of(#[trigger] entries[i]) == name
}

/// The entries with other names.
pub open spec fn without(entries: Seq<EntryView>, name: Seq<char>) -> Seq<EntryView>
    decreases entries.len(),
{
    if entries.len() == 0 {
        Seq::empty()
    } else if name_of(entries.last()) == name {
        without(entries.drop_last(), name)
    } else {
        without(entries.drop_last(), name).push(entries.last())
    }
}

proof fn lemma_index_of(entries: Seq<EntryView>, name: Seq<char>, i: int)
    requires
        0 <= i <= entries.len(),
        forall|k: int| 0 <= k < i ==> name_of(#[trigger] entries[k]) != name,
        i < entries.len() ==> name_of(entries[i]) == name,
    ensures
        index_of(entries, name) == i,
        (i < entries.len()) == has_name(entries, name),
    decreases entries.len(),
{
    if i > 0 {
        assert forall|k: int| 0 <= k < i - 1 implies name_of(#[trigger] entries.skip(1)[k])
            != name by {
            assert(entries.skip(1)[k] == entries[k + 1]);
        }
        lemma_index_of(entries.skip(1), name, i - 1);
    }
    if i < entries.len() {
        assert(has_name(entries, name));
    }
}

proof fn lemma_without(entries: Seq<EntryView>, name: Seq<char>, other: Seq<char>)
    ensures
        !has_name(without(entries, name), name),
        other != name ==> has_name(without(entries, name), other) == has_name(entries, other),
        without(entries, name).len() <= entries.len(),
    decreases entries.len(),
{
    if entries.len() > 0 {
        let front = entries.drop_last();
        lemma_without(front, name, other);
        let rest = without(front, name);
        let all = without(entries, name);
        if other != name && has_name(entries, other) {
            let i = choose|i: int| 0 <= i < entries.len() && name_of(#[trigger] entries[i]) == other;
            assert(0 <= i < entries.len() && name_of(entries[i]) == other);
            if i < front.len() {
                assert(front[i] == entries[i]);
                assert(has_name(front, other));
                let j = choose|j: int| 0 <= j < rest.len() && name_of(#[trigger] rest[j]) == other;
                assert(all[j] == rest[j]);
            } else {
                assert(all[all.len() - 1] == entries.last());
            }
            assert(has_name(all, other));
        }
        if has_name(all, other) {
            let j = choose|j: int| 0 <= j < all.len() && name_of(#[trigger] all[j]) == other;
            assert(0 <= j < all.len() && name_of(all[j]) == other);
            if j < rest.len() {
                assert(rest[j] == all[j]);
                assert(has_name(rest, other));
                if other != name {
                    let i = choose|i: int|
                        0 <= i < front.len() && name_of(#[trigger] front[i]) == other;
                    assert(entries[i] == front[i]);
                }
            } else {
                assert(all[j] == entries.last());
                assert(entries[entries.len() - 1] == entries.last());
            }
        }
        if has_name(all, name) {
            let j = choose|j: int| 0 <= j < all.len() && name_of(#[trigger] all[j]) == name;
            assert(0 <= j < all.len() && name_of(all[j]) == name);
            if j < rest.len() {
                assert(rest[j] == all[j]);
                assert(has_name(rest, name));
            }
        }
    }
}

/// One entry as it appears in the file.
#[derive(Clone)]
pub struct StoredEntry {
    /// Base64 of the 32-octet secret key.
    pub secret_key: String,
    /// Proof-of-work witness.
    pub counter: u64,
    pub nickname: String,
    pub label: String,
}

/// The document that a vault stores.
#[derive(Clone)]
pub struct StoredVault {
    pub version: u32,
    /// Fingerprint of the active identity.
    pub active: String,
    pub identities: Vec<StoredEntry>,
}

/// A vault file by its version.
pub enum VaultDocument {
    /// The unencrypted version; the document where the rest is one.
    Plain(Option<StoredVault>),
    /// The encrypted version; the envelope where the rest is one.
    Sealed(Option<SealedVault>),
    /// Some other version.
    Other(u32),
}

/// The document of a file of this version, given what its contents are as each
/// kind of document.
pub fn document_of(
    version: u32,
    plain: Option<StoredVault>,
    sealed: Option<SealedVault>,
) -> (d: VaultDocument)
    ensures
        d == if version == VAULT_VERSION {
            VaultDocument::Plain(plain)
        } else if version == SEALED_VERSION {
            VaultDocument::Sealed(sealed)
        } else {
            VaultDocument::Other(version)
        },
{
    if version == VAULT_VERSION {
        VaultDocument::Plain(plain)
    } else if version == SEALED_VERSION {
        VaultDocument::Sealed(sealed)
    } else {
        VaultDocument::Other(version)
    }
}

/// What a stored entry says, if its key is one.
pub open spec fn restored_entry(stored: StoredEntry) -> EntryView {
    EntryView {
        secret: keystore::stored_secret(stored.secret_key@)->0,
        counter: stored.counter,
        nickname: stored.nickname@,
        label: stored.label@,
    }
}

/// What stored entries say.
pub open spec fn restored_entries(stored: Seq<StoredEntry>) -> Seq<EntryView> {
    stored.map_values(|e: StoredEntry| restored_entry(e))
}

/// Whether every stored key is one.
pub open spec fn keys_are_good(stored: Seq<StoredEntry>) -> bool {
    forall|i: int|
        0 <= i < stored.len() ==> keystore::stored_secret((#[trigger] stored[i]).secret_key@)
            is Some
}

/// The active name: the stored one if it exists, and otherwise the first, so a
/// dangling selection never leaves the vault without an identity to sign with.
pub open spec fn restored_active(stored: StoredVault) -> Seq<char> {
    let entries = restored_entries(stored.identities@);
    if has_name(entries, stored.active@) {
        stored.active@
    } else {
        name_of(entries[0])
    }
}

/// How the file is protected.
pub enum Protection {
    /// Plain text.
    Plain,
    /// An envelope, and the key it was opened with.
    Passphrase(Box<VaultKey>),
}

/// The identities of one user.
pub struct Vault {
    path: String,
    entries: Vec<VaultEntry>,
    active: String,
    protection: Protection,
}

impl Vault {
    /// Where the vault is stored.
    pub closed spec fn location(&self) -> Seq<char> {
        self.path@
    }

    /// The identities, in order.
    pub closed spec fn entries(&self) -> Seq<EntryView> {
        views(self.entries@)
    }

    /// The name of the active identity.
    pub closed spec fn active_name(&self) -> Seq<char> {
        self.active@
    }

    /// How the file is protected.
    pub closed spec fn protection(&self) -> Protection {
        self.protection
    }

    /// The active identity exists, and so there is at least one.
    pub open spec fn wf(&self) -> bool {
        has_name(self.entries(), self.active_name())
    }

    /// Nothing but the entries and the selection may differ.
    pub open spec fn same_file(&self, other: &Vault) -> bool {
        self.location() == other.location() && self.protection() == other.protection()
    }

    /// Whether the file is encrypted.
    pub fn is_encrypted(&self) -> (r: bool)
        ensures
            r == (self.protection() is Passphrase),
    {
        match self.protection {
            Protection::Passphrase(_) => true,
            Protection::Plain => false,
        }
    }

    /// How the file is protected.
    pub fn current_protection(&self) -> (r: &Protection)
        ensures
            *r == self.protection(),
    {
        &self.protection
    }

    /// The place of the first entry with a name, or the number of entries.
    fn position(&self, name: &str) -> (i: usize)
        ensures
            i as int == index_of(self.entries(), name@),
            i <= self.entries@.len(),
            (i < self.entries@.len()) == has_name(self.entries(), name@),
            i < self.entries@.len() ==> name_of(self.entries()[i as int]) == name@,
    {
        let mut i: usize = 0;
        while i < self.entries.len()
            invariant
                i <= self.entries@.len(),
                self.entries() == views(self.entries@),
                forall|k: int| 0 <= k < i ==> name_of(#[trigger] self.entries()[k]) != name@,
            decreases self.entries@.len() - i,
        {
            let here: String = self.entries[i].identity.fingerprint().to_string();
            assert(here@ == name_of(self.entries()[i as int]));
            if text::same(here.as_str(), name) {
                proof {
                    lemma_index_of(self.entries(), name@, i as int);
                }
                return i;
            }
            i += 1;
        }
        proof {
            lemma_index_of(self.entries(), name@, i as int);
        }
        i
    }

    /// The active identity.
    pub fn active(&self) -> (r: &VaultEntry)
        requires
            self.wf(),
        ensures
            r@ == self.entries()[index_of(self.entries(), self.active_name())],
            name_of(r@) == self.active_name(),
    {
        let i: usize = self.position(self.active.as_str());
        &self.entries[i]
    }

    /// The active identity, to be changed in place. The vault stays well
    /// formed as long as the key keeps its name.
    pub fn active_mut(&mut self) -> (r: &mut VaultEntry)
        requires
            old(self).wf(),
        ensures
            r@ == old(self).entries()[index_of(old(self).entries(), old(self).active_name())],
            final(self).entries() == old(self).entries().update(
                index_of(old(self).entries(), old(self).active_name()),
                final(r)@,
            ),
            final(self).active_name() == old(self).active_name(),
            final(self).same_file(old(self)),
            name_of(final(r)@) == old(self).active_name() ==> final(self).wf(),
    {
        let i: usize = self.position(self.active.as_str());
        let ghost before = self.entries@;
        let r: &mut VaultEntry = &mut self.entries[i];
        proof {
            assert(views(before.update(i as int, *final(r))) =~= views(before).update(
                i as int,
                final(r)@,
            ));
            assert(views(before).update(i as int, final(r)@)[i as int] == final(r)@);
        }
        r
    }

    /// The name of the active identity.
    pub fn active_fingerprint(&self) -> (r: &str)
        ensures
            r@ == self.active_name(),
    {
        self.active.as_str()
    }

    /// Every identity.
    pub fn list(&self) -> (r: &[VaultEntry])
        ensures
            views(r@) == self.entries(),
    {
        self.entries.as_slice()
    }

    /// The first identity with a name.
    pub fn get(&self, fingerprint: &str) -> (r: Option<&VaultEntry>)
        ensures
            match r {
                Some(entry) => has_name(self.entries(), fingerprint@) && entry@
                    == self.entries()[index_of(self.entries(), fingerprint@)],
                None => !has_name(self.entries(), fingerprint@),
            },
    {
        let i: usize = self.position(fingerprint);
        if i < self.entries.len() {
            Some(&self.entries[i])
        } else {
            None
        }
    }

    /// Adds an identity and returns its name. One already present is not
    /// duplicated.
    pub fn add(&mut self, identity: Identity, nickname: &str, label: &str) -> (name: String)
        ensures
            name@ == identity::fingerprint_text(crypto::sha256_of(identity.public_key())),
            has_name(old(self).entries(), name@) ==> final(self).entries() == old(self).entries(),
            !has_name(old(self).entries(), name@) ==> final(self).entries()
                == old(self).entries().push(
                EntryView {
                    secret: identity.secret(),
                    counter: identity.witness(),
                    nickname: nickname@,
                    label: label@,
                },
            ),
            has_name(final(self).entries(), name@),
            final(self).active_name() == old(self).active_name(),
            final(self).same_file(old(self)),
            old(self).wf() ==> final(self).wf(),
    {
        let name: String = identity.fingerprint().to_string();
        let i: usize = self.position(name.as_str());
        if i == self.entries.len() {
            let ghost before = self.entries@;
            self.entries.push(
                VaultEntry {
                    identity,
                    nickname: String::from_str(nickname),
                    label: String::from_str(label),
                },
            );
            proof {
                let n = before.len() as int;
                assert(views(self.entries@) =~= views(before).push(self.entries@[n]@));
                assert(name_of(self.entries()[n]) == name@);
                if has_name(views(before), self.active@) {
                    let k = choose|k: int|
                        0 <= k < views(before).len() && name_of(#[trigger] views(before)[k])
                            == self.active@;
                    assert(self.entries()[k] == views(before)[k]);
                }
            }
        }
        name
    }

    /// Records improved proof of work. The key, and so the name, is unchanged.
    pub fn set_counter(&mut self, fingerprint: &str, counter: u64) -> (r: Result<(), VaultError>)
        ensures
            has_name(old(self).entries(), fingerprint@) ==> r == Ok::<(), VaultError>(())
                && final(self).entries() == old(self).entries().update(
                index_of(old(self).entries(), fingerprint@),
                EntryView {
                    counter,
                    ..old(self).entries()[index_of(old(self).entries(), fingerprint@)]
                },
            ),
            !has_name(old(self).entries(), fingerprint@) ==> (r matches Err(
                VaultError::NotFound(f),
            ) && f@ == fingerprint@) && final(self).entries() == old(self).entries(),
            final(self).active_name() == old(self).active_name(),
            final(self).same_file(old(self)),
            old(self).wf() ==> final(self).wf(),
    {
        let i: usize = self.position(fingerprint);
        if i == self.entries.len() {
            return Err(VaultError::NotFound(String::from_str(fingerprint)));
        }
        let ghost before = self.entries@;
        let secret: [u8; 32] = self.entries[i].identity.secret_bytes();
        self.entries[i].identity = Identity::from_secret_bytes(&secret, counter);
        proof {
            lemma_updated(before, self.entries@, i as int, self.active@);
        }
        Ok(())
    }

    /// Renames an identity, as others see it.
    pub fn set_nickname(&mut self, fingerprint: &str, nickname: &str) -> (r: Result<(), VaultError>)
        ensures
            has_name(old(self).entries(), fingerprint@) ==> r == Ok::<(), VaultError>(())
                && final(self).entries() == old(self).entries().update(
                index_of(old(self).entries(), fingerprint@),
                EntryView {
                    nickname: nickname@,
                    ..old(self).entries()[index_of(old(self).entries(), fingerprint@)]
                },
            ),
            !has_name(old(self).entries(), fingerprint@) ==> (r matches Err(
                VaultError::NotFound(f),
            ) && f@ == fingerprint@) && final(self).entries() == old(self).entries(),
            final(self).active_name() == old(self).active_name(),
            final(self).same_file(old(self)),
            old(self).wf() ==> final(self).wf(),
    {
        let i: usize = self.position(fingerprint);
        if i == self.entries.len() {
            return Err(VaultError::NotFound(String::from_str(fingerprint)));
        }
        let ghost before = self.entries@;
        self.entries[i].nickname = String::from_str(nickname);
        proof {
            lemma_updated(before, self.entries@, i as int, self.active@);
        }
        Ok(())
    }

    /// Changes the private note on an identity.
    pub fn set_label(&mut self, fingerprint: &str, label: &str) -> (r: Result<(), VaultError>)
        ensures
            has_name(old(self).entries(), fingerprint@) ==> r == Ok::<(), VaultError>(())
                && final(self).entries() == old(self).entries().update(
                index_of(old(self).entries(), fingerprint@),
                EntryView {
                    label: label@,
                    ..old(self).entries()[index_of(old(self).entries(), fingerprint@)]
                },
            ),
            !has_name(old(self).entries(), fingerprint@) ==> (r matches Err(
                VaultError::NotFound(f),
            ) && f@ == fingerprint@) && final(self).entries() == old(self).entries(),
            final(self).active_name() == old(self).active_name(),
            final(self).same_file(old(self)),
            old(self).wf() ==> final(self).wf(),
    {
        let i: usize = self.position(fingerprint);
        if i == self.entries.len() {
            return Err(VaultError::NotFound(String::from_str(fingerprint)));
        }
        let ghost before = self.entries@;
        self.entries[i].label = String::from_str(label);
        proof {
            lemma_updated(before, self.entries@, i as int, self.active@);
        }
        Ok(())
    }

    /// Selects an identity.
    pub fn set_active(&mut self, fingerprint: &str) -> (r: Result<(), VaultError>)
        ensures
            has_name(old(self).entries(), fingerprint@) ==> r == Ok::<(), VaultError>(())
                && final(self).active_name() == fingerprint@ && final(self).wf(),
            !has_name(old(self).entries(), fingerprint@) ==> (r matches Err(
                VaultError::NotFound(f),
            ) && f@ == fingerprint@) && final(self).active_name() == old(self).active_name(),
            final(self).entries() == old(self).entries(),
            final(self).same_file(old(self)),
            old(self).wf() ==> final(self).wf(),
    {
        let i: usize = self.position(fingerprint);
        if i == self.entries.len() {
            return Err(VaultError::NotFound(String::from_str(fingerprint)));
        }
        self.active = String::from_str(fingerprint);
        Ok(())
    }

    /// Removes an identity.
    ///
    /// Removing the only one is refused: there is nothing to do without an
    /// identity to sign with. Removing the active one moves the selection to
    /// the first that remains.
    pub fn remove(&mut self, fingerprint: &str) -> (r: Result<(), VaultError>)
        requires
            old(self).wf(),
        ensures
            !has_name(old(self).entries(), fingerprint@) ==> (r matches Err(
                VaultError::NotFound(f),
            ) && f@ == fingerprint@),
            has_name(old(self).entries(), fingerprint@) && without(
                old(self).entries(),
                fingerprint@,
            ).len() == 0 ==> r == Err::<(), VaultError>(VaultError::WouldEmpty),
            has_name(old(self).entries(), fingerprint@) && without(
                old(self).entries(),
                fingerprint@,
            ).len() > 0 ==> {
                &&& r == Ok::<(), VaultError>(())
                &&& final(self).entries() == without(old(self).entries(), fingerprint@)
                &&& final(self).active_name() == if old(self).active_name() == fingerprint@ {
                    name_of(final(self).entries()[0])
                } else {
                    old(self).active_name()
                }
            },
            r is Err ==> final(self).entries() == old(self).entries() && final(self).active_name()
                == old(self).active_name(),
            final(self).same_file(old(self)),
            final(self).wf(),
    {
        let i: usize = self.position(fingerprint);
        if i == self.entries.len() {
            return Err(VaultError::NotFound(String::from_str(fingerprint)));
        }
        let ghost before = self.entries();
        let mut others: usize = 0;
        let mut k: usize = 0;
        while k < self.entries.len()
            invariant
                k <= self.entries@.len(),
                self.entries() == views(self.entries@),
                others == without(self.entries().take(k as int), fingerprint@).len(),
                others <= k,
            decreases self.entries@.len() - k,
        {
            let here: String = self.entries[k].identity.fingerprint().to_string();
            assert(self.entries().take(k + 1).drop_last() =~= self.entries().take(k as int));
            assert(here@ == name_of(self.entries().take(k + 1).last()));
            if !text::same(here.as_str(), fingerprint) {
                others += 1;
            }
            k += 1;
        }
        assert(before.take(k as int) =~= before);
        if others == 0 {
            return Err(VaultError::WouldEmpty);
        }
        let mut all: Vec<VaultEntry> = Vec::new();
        std::mem::swap(&mut all, &mut self.entries);
        let ghost whole = all@;
        let mut j: usize = all.len();
        let mut kept: Vec<VaultEntry> = Vec::new();
        assert(whole.take(j as int) =~= whole);
        while j > 0
            invariant
                j <= whole.len(),
                all@ == whole.take(j as int),
                without(views(whole), fingerprint@) == without(
                    views(whole.take(j as int)),
                    fingerprint@,
                ) + views(kept@.reverse()),
            decreases j,
        {
            let entry: VaultEntry = all.pop().unwrap();
            j -= 1;
            let here: String = entry.identity.fingerprint().to_string();
            proof {
                let now = views(whole.take(j + 1));
                assert(now.drop_last() =~= views(whole.take(j as int)));
                assert(now.last() == entry@);
                assert(all@ =~= whole.take(j as int));
            }
            if !text::same(here.as_str(), fingerprint) {
                let ghost earlier = kept@;
                kept.push(entry);
                proof {
                    let head = without(views(whole.take(j as int)), fingerprint@);
                    assert(views(kept@.reverse()) =~= seq![entry@] + views(earlier.reverse()));
                    assert(head.push(entry@) + views(earlier.reverse()) =~= head + views(
                        kept@.reverse(),
                    ));
                }
            }
        }
        let ghost backwards = kept@;
        let mut entries: Vec<VaultEntry> = Vec::new();
        let mut n: usize = kept.len();
        assert(backwards.take(n as int) =~= backwards);
        while n > 0
            invariant
                n <= backwards.len(),
                kept@ == backwards.take(n as int),
                entries@ == backwards.skip(n as int).reverse(),
            decreases n,
        {
            entries.push(kept.pop().unwrap());
            n -= 1;
            proof {
                assert(kept@ =~= backwards.take(n as int));
                assert(entries@ =~= backwards.skip(n as int).reverse());
            }
        }
        proof {
            assert(backwards.skip(0) =~= backwards);
            assert(views(whole.take(0)) =~= Seq::<EntryView>::empty());
            assert(without(views(whole), fingerprint@) =~= views(entries@));
            lemma_without(before, fingerprint@, self.active@);
        }
        self.entries = entries;
        if text::same(self.active.as_str(), fingerprint) {
            self.active = self.entries[0].identity.fingerprint().to_string();
            assert(name_of(self.entries()[0]) == self.active@);
        }
        Ok(())
    }
}

/// What comes of turning a stored document into a vault.
pub enum Restored {
    /// Entries and the name of the active one.
    Vault(Seq<EntryView>, Seq<char>),
    /// Some stored key is not one.
    BadKey,
    /// There are no entries.
    Empty,
}

/// The vault that a stored document makes.
pub open spec fn restored(stored: StoredVault) -> Restored {
    if !keys_are_good(stored.identities@) {
        Restored::BadKey
    } else if stored.identities@.len() == 0 {
        Restored::Empty
    } else {
        Restored::Vault(restored_entries(stored.identities@), restored_active(stored))
    }
}

/// Whether a result is the vault that a stored document makes, or the error
/// that says why it makes none.
pub open spec fn is_restored(
    stored: StoredVault,
    path: Seq<char>,
    protection: Protection,
    r: Result<Vault, VaultError>,
) -> bool {
    match restored(stored) {
        Restored::Vault(entries, active) => r matches Ok(vault) && vault.location() == path
            && vault.entries() == entries && vault.active_name() == active && vault.protection()
            == protection && vault.wf(),
        Restored::BadKey => r matches Err(VaultError::BadKey(p)) && p@ == path,
        Restored::Empty => r matches Err(VaultError::Malformed(p)) && p@ == path,
    }
}

/// Whether a result is the refusal of another version.
pub open spec fn is_unsupported(
    path: Seq<char>,
    found: u32,
    r: Result<Vault, VaultError>,
) -> bool {
    r matches Err(VaultError::UnsupportedVersion { path: p, found: f, expected }) && p@ == path && f
        == found && expected == VAULT_VERSION
}

/// Whether a result is what an opened plaintext leads to, given the document
/// that its octets turned out to be.
pub open spec fn is_unsealed(
    document: Option<StoredVault>,
    path: Seq<char>,
    key: VaultKey,
    r: Result<Vault, VaultError>,
) -> bool {
    match document {
        None => r matches Err(VaultError::Malformed(p)) && p@ == path,
        Some(stored) => {
            if stored.version != VAULT_VERSION {
                is_unsupported(path, stored.version, r)
            } else {
                is_restored(stored, path, Protection::Passphrase(Box::new(key)), r)
            }
        },
    }
}

/// Whether a result is a refusal to open, for a reason of this kind.
pub open spec fn is_locked(path: Seq<char>, why: SealError, r: Result<Vault, VaultError>) -> bool {
    r matches Err(VaultError::Locked { path: p, source }) && p@ == path && source == why
}

/// Whether a result is what an envelope leads to. `read` says which documents
/// the plaintext may turn out to be.
pub open spec fn opens_envelope(
    envelope: SealedVault,
    path: Seq<char>,
    passphrase: Option<Seq<char>>,
    read: spec_fn(Seq<u8>, Option<StoredVault>) -> bool,
    r: Result<Vault, VaultError>,
) -> bool {
    match passphrase {
        None => r matches Err(VaultError::PassphraseRequired(p)) && p@ == path,
        Some(words) => match sealed::derivation(words, envelope.kdf) {
            sealed::Derivation::UnsupportedKdf => is_locked(
                path,
                SealError::UnsupportedKdf(envelope.kdf.algorithm),
                r,
            ),
            sealed::Derivation::BadEncoding => is_locked(path, SealError::BadEncoding, r),
            sealed::Derivation::BadParams(what) => r matches Err(
                VaultError::Locked { path: p, source: SealError::BadParams(s) },
            ) && p@ == path && s@ == what,
            sealed::Derivation::Key(octets) => match sealed::opening(octets, envelope) {
                sealed::Opening::UnsupportedCipher => is_locked(
                    path,
                    SealError::UnsupportedCipher(envelope.cipher),
                    r,
                ),
                sealed::Opening::BadEncoding => is_locked(path, SealError::BadEncoding, r),
                sealed::Opening::Unauthentic => is_locked(path, SealError::Unauthentic, r),
                sealed::Opening::Plaintext(plaintext) => exists|
                    document: Option<StoredVault>,
                    key: VaultKey,
                |
                    read(plaintext, document) && key.octets() == octets && key.kdf()
                        == envelope.kdf && #[trigger] is_unsealed(document, path, key, r),
            },
        },
    }
}

/// Whether a stored document is what a vault stores.
pub open spec fn is_stored(stored: StoredVault, vault: Vault) -> bool {
    &&& stored.version == VAULT_VERSION
    &&& stored.active@ == vault.active_name()
    &&& keys_are_good(stored.identities@)
    &&& restored_entries(stored.identities@) == vault.entries()
}

/// A passphrase as text.
pub open spec fn words_of(passphrase: Option<&str>) -> Option<Seq<char>> {
    match passphrase {
        Some(words) => Some(words@),
        None => None,
    }
}

impl Vault {
    /// Builds a vault from a stored document.
    pub fn restore(path: &str, stored: StoredVault, protection: Protection) -> (r: Result<
        Vault,
        VaultError,
    >)
        ensures
            is_restored(stored, path@, protection, r),
    {
        let mut entries: Vec<VaultEntry> = Vec::new();
        let mut i: usize = 0;
        while i < stored.identities.len()
            invariant
                i <= stored.identities@.len(),
                entries@.len() == i,
                keys_are_good(stored.identities@.take(i as int)),
                views(entries@) == restored_entries(stored.identities@.take(i as int)),
            decreases stored.identities@.len() - i,
        {
            let entry: &StoredEntry = &stored.identities[i];
            match decode_secret(entry.secret_key.as_str()) {
                Some(secret) => {
                    let ghost earlier = entries@;
                    entries.push(
                        VaultEntry {
                            identity: Identity::from_secret_bytes(&secret, entry.counter),
                            nickname: entry.nickname.clone(),
                            label: entry.label.clone(),
                        },
                    );
                    proof {
                        let now = stored.identities@.take(i + 1);
                        assert(now =~= stored.identities@.take(i as int).push(
                            stored.identities@[i as int],
                        ));
                        assert(entries@[i as int]@ =~= restored_entry(now[i as int]));
                        assert(views(entries@) =~= views(earlier).push(entries@[i as int]@));
                        assert(views(entries@) =~= restored_entries(now));
                        assert forall|k: int| 0 <= k < now.len() implies keystore::stored_secret(
                            (#[trigger] now[k]).secret_key@,
                        ) is Some by {
                            if k < i {
                                assert(now[k] == stored.identities@.take(i as int)[k]);
                            }
                        }
                    }
                },
                None => {
                    return Err(VaultError::BadKey(String::from_str(path)));
                },
            }
            i += 1;
        }
        assert(stored.identities@.take(i as int) =~= stored.identities@);
        if entries.len() == 0 {
            return Err(VaultError::Malformed(String::from_str(path)));
        }
        let ghost all = views(entries@);
        let mut vault: Vault = Vault {
            path: String::from_str(path),
            entries,
            active: stored.active,
            protection,
        };
        let at: usize = vault.position(vault.active.as_str());
        if at == vault.entries.len() {
            vault.active = vault.entries[0].identity.fingerprint().to_string();
            assert(name_of(vault.entries()[0]) == vault.active@);
        }
        Ok(vault)
    }

    /// Decrypts an envelope into the document that a plain vault holds.
    /// `read` turns octets into a document, where they are one.
    pub fn unseal<F: Fn(Vec<u8>) -> Option<StoredVault>>(
        path: &str,
        envelope: &SealedVault,
        passphrase: Option<&str>,
        read: F,
    ) -> (r: Result<Vault, VaultError>)
        requires
            forall|octets: Vec<u8>| #[trigger] call_requires(read, (octets,)),
        ensures
            opens_envelope(
                *envelope,
                path@,
                words_of(passphrase),
                |plaintext: Seq<u8>, document: Option<StoredVault>|
                    exists|octets: Vec<u8>|
                        octets@ == plaintext && #[trigger] call_ensures(read, (octets,), document),
                r,
            ),
    {
        let words: &str = match passphrase {
            Some(words) => words,
            None => {
                return Err(VaultError::PassphraseRequired(String::from_str(path)));
            },
        };
        let key: VaultKey = match VaultKey::derive(words, &envelope.kdf) {
            Ok(key) => key,
            Err(source) => {
                return Err(VaultError::Locked { path: String::from_str(path), source });
            },
        };
        let plaintext: Vec<u8> = match key.open(envelope) {
            Ok(plaintext) => plaintext,
            Err(source) => {
                return Err(VaultError::Locked { path: String::from_str(path), source });
            },
        };
        let ghost octets = plaintext;
        let document: Option<StoredVault> = read(plaintext);
        let ghost found = document;
        let ghost opened_with = key;
        let r: Result<Vault, VaultError> = match document {
            Some(stored) => {
                if stored.version != VAULT_VERSION {
                    Err(
                        VaultError::UnsupportedVersion {
                            path: String::from_str(path),
                            found: stored.version,
                            expected: VAULT_VERSION,
                        },
                    )
                } else {
                    Vault::restore(path, stored, Protection::Passphrase(Box::new(key)))
                }
            },
            None => Err(VaultError::Malformed(String::from_str(path))),
        };
        proof {
            assert(call_ensures(read, (octets,), found));
            assert(is_unsealed(found, path@, opened_with, r));
        }
        r
    }

    /// Turns a vault file into a vault.
    pub fn parse<F: Fn(Vec<u8>) -> Option<StoredVault>>(
        path: &str,
        document: VaultDocument,
        passphrase: Option<&str>,
        read: F,
    ) -> (r: Result<Vault, VaultError>)
        requires
            forall|octets: Vec<u8>| #[trigger] call_requires(read, (octets,)),
        ensures
            match document {
                VaultDocument::Plain(Some(stored)) => is_restored(
                    stored,
                    path@,
                    Protection::Plain,
                    r,
                ),
                VaultDocument::Sealed(Some(envelope)) => opens_envelope(
                    envelope,
                    path@,
                    words_of(passphrase),
                    |plaintext: Seq<u8>, document: Option<StoredVault>|
                        exists|octets: Vec<u8>|
                            octets@ == plaintext && #[trigger] call_ensures(
                                read,
                                (octets,),
                                document,
                            ),
                    r,
                ),
                VaultDocument::Other(found) => is_unsupported(path@, found, r),
                _ => r matches Err(VaultError::Malformed(p)) && p@ == path@,
            },
    {
        match document {
            VaultDocument::Plain(Some(stored)) => Vault::restore(path, stored, Protection::Plain),
            VaultDocument::Sealed(Some(envelope)) => Vault::unseal(
                path,
                &envelope,
                passphrase,
                read,
            ),
            VaultDocument::Other(found) => Err(
                VaultError::UnsupportedVersion {
                    path: String::from_str(path),
                    found,
                    expected: VAULT_VERSION,
                },
            ),
            _ => Err(VaultError::Malformed(String::from_str(path))),
        }
    }

    /// Opens the vault that a file holds. `None` means that there is no file
    /// yet and a vault has to be made. A passphrase is ignored where the file
    /// is not encrypted, and never turns encryption on.
    pub fn open_with_passphrase<F: Fn(Vec<u8>) -> Option<StoredVault>>(
        path: &str,
        file: FileRead<VaultDocument>,
        passphrase: Option<&str>,
        read: F,
    ) -> (r: Result<Option<Vault>, VaultError>)
        requires
            forall|octets: Vec<u8>| #[trigger] call_requires(read, (octets,)),
        ensures
            match file {
                FileRead::Missing(_) => r matches Ok(None),
                FileRead::Failed(e) => r matches Err(VaultError::Io { path: p, source }) && p@
                    == path@ && source == e,
                FileRead::Unchecked(e) => r matches Err(VaultError::Io { path: p, source }) && p@
                    == path@ && source == e,
                FileRead::Read { mode, document } => {
                    if mode is Some && keystore::too_open(mode->0) {
                        r matches Err(VaultError::PermissionsTooOpen { path: p, mode: m }) && p@
                            == path@ && m == mode->0 & 0o777
                    } else {
                        match document {
                            None => r matches Err(VaultError::Malformed(p)) && p@ == path@,
                            Some(document) => {
                                let opened = match r {
                                    Ok(Some(vault)) => Ok::<Vault, VaultError>(vault),
                                    Ok(None) => arbitrary(),
                                    Err(e) => Err::<Vault, VaultError>(e),
                                };
                                &&& !(r matches Ok(None))
                                &&& match document {
                                    VaultDocument::Plain(Some(stored)) => is_restored(
                                        stored,
                                        path@,
                                        Protection::Plain,
                                        opened,
                                    ),
                                    VaultDocument::Sealed(Some(envelope)) => opens_envelope(
                                        envelope,
                                        path@,
                                        words_of(passphrase),
                                        |plaintext: Seq<u8>, found: Option<StoredVault>|
                                            exists|octets: Vec<u8>|
                                                octets@ == plaintext && #[trigger] call_ensures(
                                                    read,
                                                    (octets,),
                                                    found,
                                                ),
                                        opened,
                                    ),
                                    VaultDocument::Other(found) => is_unsupported(
                                        path@,
                                        found,
                                        opened,
                                    ),
                                    _ => r matches Err(VaultError::Malformed(p)) && p@ == path@,
                                }
                            },
                        }
                    }
                },
            },
    {
        match file {
            FileRead::Missing(_) => Ok(None),
            FileRead::Failed(source) => Err(VaultError::Io { path: String::from_str(path), source }),
            FileRead::Unchecked(source) => Err(
                VaultError::Io { path: String::from_str(path), source },
            ),
            FileRead::Read { mode, document } => {
                if let Some(mode) = mode {
                    match check_permissions(path, mode) {
                        Ok(()) => {},
                        Err(e) => {
                            return Err(permissions_error(path, e));
                        },
                    }
                }
                match document {
                    Some(document) => match Vault::parse(path, document, passphrase, read) {
                        Ok(vault) => Ok(Some(vault)),
                        Err(e) => Err(e),
                    },
                    None => Err(VaultError::Malformed(String::from_str(path))),
                }
            },
        }
    }

    /// Whether opening will ask for a passphrase, by the file's version alone.
    /// A vault that does not exist yet is about to be made without one.
    pub fn needs_passphrase(path: &str, version: FileRead<u32>) -> (r: Result<bool, VaultError>)
        ensures
            match version {
                FileRead::Missing(_) => r == Ok::<bool, VaultError>(false),
                FileRead::Failed(e) => r matches Err(VaultError::Io { path: p, source }) && p@
                    == path@ && source == e,
                FileRead::Unchecked(e) => r matches Err(VaultError::Io { path: p, source }) && p@
                    == path@ && source == e,
                FileRead::Read { mode: _, document: None } => r matches Err(
                    VaultError::Malformed(p),
                ) && p@ == path@,
                FileRead::Read { mode: _, document: Some(v) } => r == Ok::<bool, VaultError>(
                    v == SEALED_VERSION,
                ),
            },
    {
        match version {
            FileRead::Missing(_) => Ok(false),
            FileRead::Failed(source) => Err(VaultError::Io { path: String::from_str(path), source }),
            FileRead::Unchecked(source) => Err(
                VaultError::Io { path: String::from_str(path), source },
            ),
            FileRead::Read { mode: _, document } => match document {
                Some(v) => Ok(v == SEALED_VERSION),
                None => Err(VaultError::Malformed(String::from_str(path))),
            },
        }
    }

    /// Makes a vault where none exists: from the older single-identity file if
    /// there is one, and otherwise from a fresh identity. The flag says that
    /// the older file was taken over. One that exists but will not load is
    /// reported: a new key would strand every permission of the old one.
    pub fn create(
        path: &str,
        legacy_path: &str,
        legacy: Result<LoadedIdentity, KeystoreError>,
        default_nickname: &str,
        passphrase: Option<&str>,
    ) -> (r: Result<(Vault, bool), VaultError>)
        ensures
            match legacy {
                Err(e) if !(e matches KeystoreError::Io { path: _, source: _, not_found: true })
                    => r matches Err(VaultError::Migration { from, source }) && from@
                    == legacy_path@ && source == e,
                _ => {
                    &&& r is Ok <==> passphrase is None || !sealed::is_too_long(passphrase->0@)
                    &&& r matches Err(e) ==> (e matches VaultError::Locked {
                        path: p,
                        source: SealError::BadParams(what),
                    } && p@ == path@ && what@ == "password is too long"@)
                    &&& r matches Ok((vault, migrated)) ==> {
                        &&& vault.wf()
                        &&& vault.location() == path@
                        &&& vault.entries().len() == 1
                        &&& vault.entries()[0].label == Seq::<char>::empty()
                        &&& vault.active_name() == name_of(vault.entries()[0])
                        &&& migrated == (legacy is Ok)
                        &&& match legacy {
                            Ok(loaded) => vault.entries()[0].secret == loaded.identity.secret()
                                && vault.entries()[0].counter == loaded.identity.witness()
                                && vault.entries()[0].nickname == loaded.nickname@,
                            Err(_) => vault.entries()[0].counter == 0
                                && vault.entries()[0].nickname == default_nickname@,
                        }
                        &&& match passphrase {
                            None => vault.protection() is Plain,
                            Some(words) => vault.protection() matches Protection::Passphrase(key)
                                && sealed::is_fresh(words@, *key),
                        }
                    }
                },
            },
    {
        let migrated: bool = legacy.is_ok();
        let loaded: LoadedIdentity = match legacy {
            Ok(loaded) => loaded,
            Err(KeystoreError::Io { path: _, source: _, not_found: true }) => LoadedIdentity {
                identity: Identity::generate(),
                nickname: String::from_str(default_nickname),
            },
            Err(other) => {
                return Err(
                    VaultError::Migration { from: String::from_str(legacy_path), source: other },
                );
            },
        };
        let protection: Protection = match passphrase {
            Some(words) => match VaultKey::fresh(words) {
                Ok(key) => Protection::Passphrase(Box::new(key)),
                Err(source) => {
                    return Err(VaultError::Locked { path: String::from_str(path), source });
                },
            },
            None => Protection::Plain,
        };
        let active: String = loaded.identity.fingerprint().to_string();
        let mut entries: Vec<VaultEntry> = Vec::new();
        entries.push(
            VaultEntry {
                identity: loaded.identity,
                nickname: loaded.nickname,
                label: String::new(),
            },
        );
        let vault: Vault = Vault { path: String::from_str(path), entries, active, protection };
        assert(name_of(vault.entries()[0]) == vault.active_name());
        Ok((vault, migrated))
    }

    /// The document to store. Restoring it gives the same identities and the
    /// same selection.
    pub fn stored(&self) -> (r: StoredVault)
        requires
            self.wf(),
        ensures
            is_stored(r, *self),
            restored(r) == Restored::Vault(self.entries(), self.active_name()),
    {
        let mut identities: Vec<StoredEntry> = Vec::new();
        let mut i: usize = 0;
        while i < self.entries.len()
            invariant
                i <= self.entries@.len(),
                identities@.len() == i,
                self.entries() == views(self.entries@),
                keys_are_good(identities@),
                restored_entries(identities@) == self.entries().take(i as int),
            decreases self.entries@.len() - i,
        {
            let entry: &VaultEntry = &self.entries[i];
            let secret: [u8; 32] = entry.identity.secret_bytes();
            let ghost earlier = identities@;
            identities.push(
                StoredEntry {
                    secret_key: crypto::encode_base64(&secret),
                    counter: entry.identity.counter(),
                    nickname: entry.nickname.clone(),
                    label: entry.label.clone(),
                },
            );
            proof {
                assert forall|k: int| 0 <= k < identities@.len() implies keystore::stored_secret(
                    (#[trigger] identities@[k]).secret_key@,
                ) is Some by {
                    if k < i {
                        assert(identities@[k] == earlier[k]);
                    }
                }
                assert(restored_entry(identities@[i as int]) =~= self.entries()[i as int]);
                assert(restored_entries(identities@) =~= restored_entries(earlier).push(
                    self.entries()[i as int],
                ));
                assert(self.entries().take(i + 1) =~= self.entries().take(i as int).push(
                    self.entries()[i as int],
                ));
            }
            i += 1;
        }
        assert(self.entries().take(i as int) =~= self.entries());
        StoredVault { version: VAULT_VERSION, active: self.active.clone(), identities }
    }

    /// The exact octets of the file, under a given protection: the document,
    /// or the envelope around it, and a line end. `render` and
    /// `render_envelope` turn the two into text.
    pub fn encode<F: Fn(StoredVault) -> Vec<u8>, G: Fn(SealedVault) -> Vec<u8>>(
        &self,
        protection: &Protection,
        render: F,
        render_envelope: G,
    ) -> (r: Result<Vec<u8>, VaultError>)
        requires
            self.wf(),
            forall|stored: StoredVault| #[trigger] call_requires(render, (stored,)),
            forall|envelope: SealedVault| #[trigger] call_requires(render_envelope, (envelope,)),
        ensures
            exists|stored: StoredVault, body: Vec<u8>|
                is_stored(stored, *self) && restored(stored) == Restored::Vault(
                    self.entries(),
                    self.active_name(),
                ) && #[trigger] call_ensures(render, (stored,), body) && match *protection {
                    Protection::Plain => r matches Ok(out) && out@ == body@.push(10u8),
                    Protection::Passphrase(key) => {
                        if !sealed::sealable(body@.len()) {
                            r matches Err(VaultError::Locked { path: p, source }) && p@
                                == self.location() && source is Unauthentic
                        } else {
                            r is Ok && exists|envelope: SealedVault, text: Vec<u8>|
                                envelope.version == SEALED_VERSION && envelope.kdf == key.kdf()
                                    && sealed::opening(key.octets(), envelope)
                                    == sealed::Opening::Plaintext(body@) && #[trigger] call_ensures(
                                    render_envelope,
                                    (envelope,),
                                    text,
                                ) && r->Ok_0@ == text@.push(10u8)
                        }
                    },
                },
    {
        let document: StoredVault = self.stored();
        let ghost kept = document;
        let mut body: Vec<u8> = render(document);
        let ghost rendered = body;
        assert(call_ensures(render, (kept,), rendered));
        match protection {
            Protection::Plain => {
                let mut out: Vec<u8> = body;
                out.push(10u8);
                Ok(out)
            },
            Protection::Passphrase(key) => {
                let locked = key.seal(&body);
                // The document holds every secret key in readable form.
                crypto::wipe(&mut body);
                match locked {
                    Ok(envelope) => {
                        let ghost sent = envelope;
                        let mut out: Vec<u8> = render_envelope(envelope);
                        let ghost text = out;
                        assert(call_ensures(render_envelope, (sent,), text));
                        out.push(10u8);
                        Ok(out)
                    },
                    Err(source) => Err(VaultError::Locked { path: self.path.clone(), source }),
                }
            },
        }
    }

    /// Whether two vaults hold the same keys, witnesses, names and selection.
    pub fn holds_the_same_identities_as(&self, other: &Self) -> (r: bool)
        ensures
            r == (self.active_name() == other.active_name() && self.entries() == other.entries()),
    {
        if !text::same(self.active.as_str(), other.active.as_str()) {
            return false;
        }
        if self.entries.len() != other.entries.len() {
            assert(self.entries().len() != other.entries().len());
            return false;
        }
        let mut i: usize = 0;
        while i < self.entries.len()
            invariant
                i <= self.entries@.len() == other.entries@.len(),
                self.entries() == views(self.entries@),
                other.entries() == views(other.entries@),
                forall|k: int| 0 <= k < i ==> self.entries()[k] == other.entries()[k],
            decreases self.entries@.len() - i,
        {
            let a: &VaultEntry = &self.entries[i];
            let b: &VaultEntry = &other.entries[i];
            let same: bool = octets::same32(&a.identity.secret_bytes(), &b.identity.secret_bytes())
                && a.identity.counter() == b.identity.counter()
                && text::same(a.nickname.as_str(), b.nickname.as_str()) && text::same(
                a.label.as_str(),
                b.label.as_str(),
            );
            if !same {
                assert(a@ != b@);
                assert(self.entries()[i as int] != other.entries()[i as int]);
                return false;
            }
            assert(a@ =~= b@);
            i += 1;
        }
        assert(self.entries() =~= other.entries());
        true
    }

    /// The protection that a new passphrase gives. No current one is asked
    /// for: holding an unlocked vault already required it.
    pub fn passphrase_protection(&self, passphrase: &str) -> (r: Result<Protection, VaultError>)
        ensures
            match r {
                Ok(protection) => !sealed::is_too_long(passphrase@) && (protection matches
                    Protection::Passphrase(key) && sealed::is_fresh(passphrase@, *key)),
                Err(e) => sealed::is_too_long(passphrase@) && (e matches VaultError::Locked {
                    path: p,
                    source: SealError::BadParams(what),
                } && p@ == self.location() && what@ == "password is too long"@),
            },
    {
        match VaultKey::fresh(passphrase) {
            Ok(key) => Ok(Protection::Passphrase(Box::new(key))),
            Err(source) => Err(VaultError::Locked { path: self.path.clone(), source }),
        }
    }

    /// Whether a file rewritten under another protection may replace the
    /// original: only once it has been read back, from where it was written,
    /// as this very vault.
    pub fn verify_rewrite(&self, reopened: Result<Vault, VaultError>) -> (r: Result<(), VaultError>)
        ensures
            match reopened {
                Ok(vault) => if vault.active_name() == self.active_name() && vault.entries()
                    == self.entries() {
                    r == Ok::<(), VaultError>(())
                } else {
                    r matches Err(VaultError::VerificationFailed(p)) && p@ == self.location()
                },
                Err(e) => r == Err::<(), VaultError>(e),
            },
    {
        match reopened {
            Ok(vault) => {
                if vault.holds_the_same_identities_as(self) {
                    Ok(())
                } else {
                    Err(VaultError::VerificationFailed(self.path.clone()))
                }
            },
            Err(e) => Err(e),
        }
    }

    /// Takes on the protection that the file now has.
    pub fn adopt_protection(&mut self, protection: Protection)
        ensures
            final(self).protection() == protection,
            final(self).location() == old(self).location(),
            final(self).entries() == old(self).entries(),
            final(self).active_name() == old(self).active_name(),
            old(self).wf() ==> final(self).wf(),
    {
        self.protection = protection;
    }
}

/// A complaint about permissions, naming the file that the user is looking at.
pub fn permissions_error(path: &str, error: KeystoreError) -> (r: VaultError)
    ensures
        match error {
            KeystoreError::PermissionsTooOpen { path: _, mode } => r matches
                VaultError::PermissionsTooOpen { path: p, mode: m } && p@ == path@ && m == mode,
            KeystoreError::Io { path: _, source, not_found: _ } => r matches
                VaultError::Io { path: p, source: s } && p@ == path@ && s == source,
            other => r matches VaultError::Migration { from, source } && from@ == path@ && source
                == other,
        },
{
    match error {
        KeystoreError::PermissionsTooOpen { path: _, mode } => VaultError::PermissionsTooOpen {
            path: String::from_str(path),
            mode,
        },
        KeystoreError::Io { path: _, source, not_found: _ } => VaultError::Io {
            path: String::from_str(path),
            source,
        },
        other => VaultError::Migration { from: String::from_str(path), source: other },
    }
}

proof fn lemma_updated(
    before: Seq<VaultEntry>,
    after: Seq<VaultEntry>,
    i: int,
    active: Seq<char>,
)
    requires
        0 <= i < before.len(),
        after == before.update(i, after[i]),
        name_of(after[i]@) == name_of(before[i]@),
    ensures
        views(after) == views(before).update(i, after[i]@),
        has_name(views(before), active) ==> has_name(views(after), active),
{
    assert(views(after) =~= views(before).update(i, after[i]@));
    if has_name(views(before), active) {
        let k = choose|k: int|
            0 <= k < views(before).len() && name_of(#[trigger] views(before)[k]) == active;
        assert(name_of(views(after)[k]) == active);
    }
}

/// What a vault stores restores to the same identities, in the same order,
/// with the same one active.
pub proof fn law_stored_vault_comes_back(vault: Vault, stored: StoredVault)
    requires
        vault.wf(),
        is_stored(stored, vault),
    ensures
        restored(stored) == Restored::Vault(vault.entries(), vault.active_name()),
{
}

/// Encrypting and reopening preserves every identity exactly: the passphrase
/// that made the key opens the envelope, and a reader that reads the document
/// back gives the same identities and the same selection, still encrypted.
pub proof fn law_encrypted_vault_comes_back(
    vault: Vault,
    key: VaultKey,
    words: Seq<char>,
    envelope: SealedVault,
    stored: StoredVault,
    body: Seq<u8>,
    path: Seq<char>,
    read: spec_fn(Seq<u8>, Option<StoredVault>) -> bool,
    r: Result<Vault, VaultError>,
)
    requires
        vault.wf(),
        is_stored(stored, vault),
        sealed::derivation(words, key.kdf()) == sealed::Derivation::Key(key.octets()),
        envelope.kdf == key.kdf(),
        sealed::opening(key.octets(), envelope) == sealed::Opening::Plaintext(body),
        forall|document: Option<StoredVault>|
            #[trigger] read(body, document) ==> document == Some(stored),
        opens_envelope(envelope, path, Some(words), read, r),
    ensures
        r matches Ok(again) && again.entries() == vault.entries() && again.active_name()
            == vault.active_name() && again.protection() is Passphrase && again.wf(),
{
    let (document, opened_with) = choose|document: Option<StoredVault>, k: VaultKey|
        read(body, document) && k.octets() == key.octets() && k.kdf() == envelope.kdf
            && #[trigger] is_unsealed(document, path, k, r);
    assert(is_unsealed(document, path, opened_with, r));
}

/// An envelope never opens without a passphrase, and one that does not
/// authenticate never yields a key.
pub proof fn law_no_vault_without_the_passphrase(
    envelope: SealedVault,
    path: Seq<char>,
    passphrase: Option<Seq<char>>,
    read: spec_fn(Seq<u8>, Option<StoredVault>) -> bool,
    r: Result<Vault, VaultError>,
)
    requires
        opens_envelope(envelope, path, passphrase, read, r),
        passphrase is None || !(sealed::derivation(passphrase->0, envelope.kdf) matches
            sealed::Derivation::Key(octets) && sealed::opening(octets, envelope) is Plaintext),
    ensures
        r is Err,
{
}

/// Mining and renaming never change whose key it is: the name depends on the
/// secret key alone.
pub proof fn law_profile_edits_keep_the_name(e: EntryView, counter: u64, text: Seq<char>)
    ensures
        name_of(EntryView { counter, ..e }) == name_of(e),
        name_of(EntryView { nickname: text, ..e }) == name_of(e),
        name_of(EntryView { label: text, ..e }) == name_of(e),
{
}

/// Removing an identity leaves none of that name and keeps every other name.
pub proof fn law_removal_keeps_the_others(
    entries: Seq<EntryView>,
    gone: Seq<char>,
    other: Seq<char>,
)
    ensures
        !has_name(without(entries, gone), gone),
        other != gone ==> has_name(without(entries, gone), other) == has_name(entries, other),
{
    lemma_without(entries, gone, other);
}

/// An entry is found by its name: the first that has it, and none where there is
/// no such entry.
pub proof fn law_an_entry_is_found_by_its_name(entries: Seq<EntryView>, name: Seq<char>)
    ensures
        0 <= index_of(entries, name) <= entries.len(),
        forall|k: int|
            0 <= k < index_of(entries, name) ==> name_of(#[trigger] entries[k]) != name,
        index_of(entries, name) < entries.len() ==> name_of(entries[index_of(entries, name)])
            == name,
        index_of(entries, name) < entries.len() <==> has_name(entries, name),
    decreases entries.len(),
{
    if entries.len() > 0 && name_of(entries[0]) != name {
        let rest = entries.skip(1);
        law_an_entry_is_found_by_its_name(rest, name);
        assert forall|k: int| 0 <= k < index_of(entries, name) implies name_of(
            #[trigger] entries[k],
        ) != name by {
            if k > 0 {
                assert(rest[k - 1] == entries[k]);
            }
        }
        if has_name(entries, name) {
            let i = choose|i: int| 0 <= i < entries.len() && name_of(#[trigger] entries[i]) == name;
            assert(0 <= i < entries.len() && name_of(entries[i]) == name);
            assert(rest[i - 1] == entries[i]);
            assert(has_name(rest, name));
        }
        if has_name(rest, name) {
            let i = choose|i: int| 0 <= i < rest.len() && name_of(#[trigger] rest[i]) == name;
            assert(entries[i + 1] == rest[i]);
            assert(has_name(entries, name));
        }
    } else if entries.len() > 0 {
        assert(has_name(entries, name));
    }
}

/// Removing an identity takes out exactly the entries of that name; the others
/// stay as they are and in their order.
pub proof fn law_removal_is_of_that_name_alone(entries: Seq<EntryView>, name: Seq<char>)
    ensures
        without(entries, name) == entries.filter(|e: EntryView| name_of(e) != name),
    decreases entries.len(),
{
    reveal(Seq::filter);
    if entries.len() > 0 {
        law_removal_is_of_that_name_alone(entries.drop_last(), name);
    }
}

/// An entry is named by the fingerprint of its public key.
pub proof fn law_an_entry_is_named_by_its_key(a: EntryView, b: EntryView)
    ensures
        crypto::sha256_of(crypto::public_key_of(a.secret)) == crypto::sha256_of(
            crypto::public_key_of(b.secret),
        ) ==> name_of(a) == name_of(b),
        name_of(a) == identity::fingerprint_text(
            crypto::sha256_of(crypto::public_key_of(a.secret)),
        ),
{
}

/// A stored document makes a vault exactly when it has entries and all their
/// keys are keys. Every entry comes back in its place with its key, witness,
/// nickname and label; the one selected is the one stored, and the first where
/// that is not among them.
pub proof fn law_what_a_stored_document_makes(stored: StoredVault, i: int)
    requires
        0 <= i < stored.identities@.len(),
    ensures
        restored(stored) is Vault <==> forall|k: int|
            0 <= k < stored.identities@.len() ==> keystore::stored_secret(
                (#[trigger] stored.identities@[k]).secret_key@,
            ) is Some,
        restored(stored) is BadKey || restored(stored) is Vault,
        restored(stored) matches Restored::Vault(entries, active) ==> {
            let e = stored.identities@[i];
            &&& entries.len() == stored.identities@.len()
            &&& Some(entries[i].secret) == keystore::stored_secret(e.secret_key@)
            &&& entries[i].counter == e.counter
            &&& entries[i].nickname == e.nickname@
            &&& entries[i].label == e.label@
            &&& has_name(entries, stored.active@) ==> active == stored.active@
            &&& !has_name(entries, stored.active@) ==> active == name_of(entries[0])
        },
{
}

/// A document without entries makes no vault.
pub proof fn law_an_empty_document_makes_no_vault(stored: StoredVault)
    requires
        stored.identities@.len() == 0,
    ensures
        restored(stored) is Empty,
{
}

/// What is restored is kept where it was read from and as it was protected; a
/// document that makes no vault says why, and for which file.
pub proof fn law_a_restored_vault_is_the_stored_one(
    stored: StoredVault,
    path: Seq<char>,
    protection: Protection,
    r: Result<Vault, VaultError>,
)
    requires
        is_restored(stored, path, protection, r),
    ensures
        r is Ok <==> restored(stored) is Vault,
        r matches Ok(vault) ==> restored(stored) == Restored::Vault(
            vault.entries(),
            vault.active_name(),
        ) && vault.location() == path && vault.protection() == protection && has_name(
            vault.entries(),
            vault.active_name(),
        ),
        restored(stored) is BadKey ==> (r matches Err(VaultError::BadKey(p)) && p@ == path),
        restored(stored) is Empty ==> (r matches Err(VaultError::Malformed(p)) && p@ == path),
{
}

/// A vault that comes out of an envelope was opened with the key that the
/// passphrase gives under the envelope's own parameters, stays protected by that
/// key, and is what the document inside makes.
pub proof fn law_an_opened_vault_stays_protected(
    envelope: SealedVault,
    path: Seq<char>,
    passphrase: Option<Seq<char>>,
    read: spec_fn(Seq<u8>, Option<StoredVault>) -> bool,
    r: Result<Vault, VaultError>,
)
    requires
        opens_envelope(envelope, path, passphrase, read, r),
        r is Ok,
    ensures
        passphrase is Some,
        ({
            let d = sealed::derivation(passphrase->0, envelope.kdf);
            let o = sealed::opening(d->Key_0, envelope);
            let vault = r->Ok_0;
            &&& d is Key
            &&& o is Plaintext
            &&& vault.location() == path
            &&& vault.protection() matches Protection::Passphrase(key) && key.octets() == d->Key_0
                && key.kdf() == envelope.kdf
            &&& exists|stored: StoredVault| #[trigger]
                read(o->Plaintext_0, Some(stored)) && stored.version == 2 && restored(stored)
                    == Restored::Vault(vault.entries(), vault.active_name())
        }),
{
    let octets = sealed::derivation(passphrase->0, envelope.kdf)->Key_0;
    let plaintext = sealed::opening(octets, envelope)->Plaintext_0;
    let (document, key) = choose|document: Option<StoredVault>, key: VaultKey|
        read(plaintext, document) && key.octets() == octets && key.kdf() == envelope.kdf
            && #[trigger] is_unsealed(document, path, key, r);
    assert(is_unsealed(document, path, key, r));
    assert(read(plaintext, Some(document->0)));
}

/// An envelope that does not open says why: a passphrase is wanted, or the
/// reason for which the key or the body was refused.
pub proof fn law_a_closed_vault_says_why(
    envelope: SealedVault,
    path: Seq<char>,
    passphrase: Option<Seq<char>>,
    read: spec_fn(Seq<u8>, Option<StoredVault>) -> bool,
    r: Result<Vault, VaultError>,
)
    requires
        opens_envelope(envelope, path, passphrase, read, r),
    ensures
        passphrase is None ==> (r matches Err(VaultError::PassphraseRequired(p)) && p@ == path),
        passphrase matches Some(words) ==> match sealed::derivation(words, envelope.kdf) {
            sealed::Derivation::UnsupportedKdf => r matches Err(
                VaultError::Locked { path: _, source: SealError::UnsupportedKdf(name) },
            ) && name == envelope.kdf.algorithm,
            sealed::Derivation::BadEncoding => r matches Err(
                VaultError::Locked { path: _, source: SealError::BadEncoding },
            ),
            sealed::Derivation::BadParams(_) => r matches Err(
                VaultError::Locked { path: _, source: SealError::BadParams(_) },
            ),
            sealed::Derivation::Key(octets) => match sealed::opening(octets, envelope) {
                sealed::Opening::UnsupportedCipher => r matches Err(
                    VaultError::Locked { path: _, source: SealError::UnsupportedCipher(name) },
                ) && name == envelope.cipher,
                sealed::Opening::BadEncoding => r matches Err(
                    VaultError::Locked { path: _, source: SealError::BadEncoding },
                ),
                sealed::Opening::Unauthentic => r matches Err(
                    VaultError::Locked { path: _, source: SealError::Unauthentic },
                ),
                sealed::Opening::Plaintext(_) => !(r matches Err(
                    VaultError::Locked { path: _, source: _ },
                )),
            },
        },
{
}


/// What is wrong with a vault is said of its file; the version found comes before
/// the one understood, and a cause is given in its own words.
pub proof fn law_a_vault_failure_is_put_in_words(e: VaultError)
    ensures
        ({
            let s = e.sentence();
            match e {
                VaultError::Io { path, source } => {
                    &&& text::holds(s, "reading vault "@ + path@)
                    &&& text::holds(s, ": "@ + source@)
                },
                VaultError::Malformed(path) => text::begins_with(s, "vault "@ + path@),
                VaultError::UnsupportedVersion { path, found, expected } => {
                    &&& text::begins_with(s, "vault "@ + path@)
                    &&& text::holds(s, " has version "@ + text::digits(found as nat))
                    &&& text::holds(
                        s,
                        ", but this build understands "@ + text::digits(expected as nat),
                    )
                },
                VaultError::BadKey(path) => text::begins_with(s, "vault "@ + path@),
                VaultError::PermissionsTooOpen { path, mode } => text::begins_with(
                    s,
                    "vault "@ + path@,
                ) && text::holds(s, "(mode "@ + text::octal_digits(mode as nat)),
                VaultError::NotFound(fingerprint) => s == "no identity with fingerprint "@
                    + fingerprint@,
                VaultError::WouldEmpty => s
                    == "this is the only identity you have; add another before removing it"@,
                VaultError::Migration { from, source } => {
                    &&& text::holds(s, "migrating "@ + from@)
                    &&& text::finishes_with(s, source.sentence())
                },
                VaultError::PassphraseRequired(path) => text::begins_with(s, "vault "@ + path@),
                VaultError::Locked { path, source } => {
                    &&& text::holds(s, "could not open vault "@ + path@)
                    &&& text::finishes_with(s, source.sentence())
                },
                VaultError::VerificationFailed(path) => text::holds(s, path@),
            }
        }),
{
    let s = e.sentence();
    let none = Seq::<char>::empty();
    match e {
        VaultError::Io { path, source } => {
            let one = "reading vault "@ + path@;
            text::lemma_holds(s, none, one, ": "@ + source@);
            text::lemma_holds(s, one, ": "@ + source@, none);
        },
        VaultError::Malformed(path) => {
            let one = "vault "@ + path@;
            assert(s.take(one.len() as int) =~= one);
        },
        VaultError::UnsupportedVersion { path, found, expected } => {
            let one = "vault "@ + path@;
            let two = " has version "@ + text::digits(found as nat);
            let three = ", but this build understands "@ + text::digits(expected as nat);
            let end = " (unencrypted) and 3 (passphrase-encrypted)"@;
            assert(s.take(one.len() as int) =~= one);
            text::lemma_holds(s, one, two, three + end);
            text::lemma_holds(s, one + two, three, end);
        },
        VaultError::BadKey(path) => {
            let one = "vault "@ + path@;
            assert(s.take(one.len() as int) =~= one);
        },
        VaultError::PermissionsTooOpen { path, mode } => {
            keystore::law_an_open_file_is_named_with_its_mode("vault "@, path@, mode);
        },
        VaultError::Migration { from, source } => {
            let last = source.sentence();
            text::lemma_holds(s, none, "migrating "@ + from@, ": "@ + last);
            assert(s.skip(s.len() - last.len()) =~= last);
        },
        VaultError::PassphraseRequired(path) => {
            let one = "vault "@ + path@;
            assert(s.take(one.len() as int) =~= one);
        },
        VaultError::Locked { path, source } => {
            let last = source.sentence();
            text::lemma_holds(s, none, "could not open vault "@ + path@, ": "@ + last);
            assert(s.skip(s.len() - last.len()) =~= last);
        },
        VaultError::VerificationFailed(path) => {
            text::lemma_holds(
                s,
                "the re-encrypted vault did not read back correctly, so "@,
                path@,
                " was left unchanged; your identities are safe and nothing was written"@,
            );
        },
        _ => {},
    }
}

/// Vaults of the same file agree on where it is and on how it is protected.
pub proof fn law_the_same_file_is_in_one_place_and_protected_alike(a: Vault, b: Vault)
    ensures
        a.same_file(&b) <==> a.location() == b.location() && a.protection() == b.protection(),
        a.same_file(&b) == b.same_file(&a),
{
}

/// A vault that stays locked says of which file, and exactly why.
pub proof fn law_a_locked_vault_keeps_its_reason(
    path: Seq<char>,
    why: SealError,
    r: Result<Vault, VaultError>,
)
    requires
        is_locked(path, why, r),
    ensures
        r matches Err(VaultError::Locked { path: p, source }) && p@ == path && source == why,
{
}

/// A version that is not understood is refused with that version, beside the one
/// that is.
pub proof fn law_another_version_is_refused(path: Seq<char>, found: u32, r: Result<Vault, VaultError>)
    requires
        is_unsupported(path, found, r),
    ensures
        r matches Err(VaultError::UnsupportedVersion { path: p, found: f, expected }) && p@ == path
            && f == found && expected == 2,
{
}
} // verus!
