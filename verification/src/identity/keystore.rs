//! What a single stored identity says.
//!
//! The file holds an unencrypted secret key, so it must be private to its
//! owner: it is refused if the permissions have been widened.

use crate::identity::{crypto, Identity};
use crate::octets;
use crate::text;
use vstd::prelude::*;

verus! {

/// The only version of the file there is.
pub const KEYSTORE_VERSION: u32 = 1;

/// Why a stored identity could not be loaded or saved.
#[derive(Debug, Clone)]
pub enum KeystoreError {
    /// Reading or writing failed, perhaps because there is no such file.
    Io { path: String, source: String, not_found: bool },
    Malformed(String),
    UnsupportedVersion { path: String, found: u32, expected: u32 },
    BadKey(String),
    PermissionsTooOpen { path: String, mode: u32 },
}

/// The warning about a file that others can read.
pub open spec fn too_open_sentence(kind: Seq<char>, path: Seq<char>, mode: u32) -> Seq<char> {
    kind + path + " is readable by other users (mode "@ + text::octal_digits(mode as nat)
        + "); run `chmod 600 "@ + path + "` before using it"@
}

/// Builds the warning about a file that others can read.
pub fn too_open_message(kind: &str, path: &str, mode: u32) -> (s: String)
    ensures
        s@ == too_open_sentence(kind@, path@, mode),
{
    let mut s: String = text::join(kind, path);
    s.append(" is readable by other users (mode ");
    s.append(text::octal(mode).as_str());
    s.append("); run `chmod 600 ");
    s.append(path);
    s.append("` before using it");
    s
}

impl KeystoreError {
    /// The sentence for this error.
    pub open spec fn sentence(&self) -> Seq<char> {
        match self {
            KeystoreError::Io { path, source, not_found: _ } => "reading keystore "@ + path@
                + ": "@ + source@,
            KeystoreError::Malformed(path) => "keystore "@ + path@ + " is not valid JSON"@,
            KeystoreError::UnsupportedVersion { path, found, expected } => "keystore "@ + path@
                + " has version "@ + text::digits(*found as nat) + ", but this build understands "@
                + text::digits(*expected as nat),
            KeystoreError::BadKey(path) => "keystore "@ + path@
                + " does not contain a valid Ed25519 secret key"@,
            KeystoreError::PermissionsTooOpen { path, mode } => too_open_sentence(
                "keystore "@,
                path@,
                *mode,
            ),
        }
    }

    /// The error as a sentence.
    pub fn message(&self) -> (s: String)
        ensures
            s@ == self.sentence(),
    {
        match self {
            KeystoreError::Io { path, source, not_found: _ } => {
                let mut s: String = text::join("reading keystore ", path.as_str());
                s.append(": ");
                s.append(source.as_str());
                s
            },
            KeystoreError::Malformed(path) => {
                let mut s: String = text::join("keystore ", path.as_str());
                s.append(" is not valid JSON");
                s
            },
            KeystoreError::UnsupportedVersion { path, found, expected } => {
                let mut s: String = text::join("keystore ", path.as_str());
                s.append(" has version ");
                s.append(text::decimal(*found as u64).as_str());
                s.append(", but this build understands ");
                s.append(text::decimal(*expected as u64).as_str());
                s
            },
            KeystoreError::BadKey(path) => {
                let mut s: String = text::join("keystore ", path.as_str());
                s.append(" does not contain a valid Ed25519 secret key");
                s
            },
            KeystoreError::PermissionsTooOpen { path, mode } => too_open_message(
                "keystore ",
                path.as_str(),
                *mode,
            ),
        }
    }
}

/// An identity and the profile attached to it.
pub struct LoadedIdentity {
    pub identity: Identity,
    pub nickname: String,
}

/// An identity as it appears in the file.
#[derive(Clone)]
pub struct StoredIdentity {
    pub version: u32,
    /// Base64 of the 32-octet secret key.
    pub secret_key: String,
    /// Proof-of-work witness.
    pub counter: u64,
    pub nickname: String,
}

/// What came of reading a file.
pub enum FileRead<T> {
    /// There is no such file; carries the system's complaint.
    Missing(String),
    /// It could not be read; carries the system's complaint.
    Failed(String),
    /// Its permissions could not be looked up; carries the complaint.
    Unchecked(String),
    /// It was read. The mode is there where the system has one, the document
    /// where the contents are one.
    Read { mode: Option<u32>, document: Option<T> },
}

/// The secret key that a stored text spells, if it spells one.
pub open spec fn stored_secret(text: Seq<char>) -> Option<Seq<u8>> {
    match crypto::base64_decoded(text) {
        Some(secret) if secret.len() == 32 => Some(secret),
        _ => None,
    }
}

/// Reads a stored secret key, and wipes what it decoded on the way.
pub fn decode_secret(stored: &str) -> (r: Option<[u8; 32]>)
    ensures
        match r {
            Some(secret) => stored_secret(stored@) == Some(secret@),
            None => stored_secret(stored@) is None,
        },
{
    match crypto::decode_base64(stored) {
        Some(mut decoded) => {
            let secret: Option<[u8; 32]> = octets::to_array32(&decoded);
            crypto::wipe(&mut decoded);
            secret
        },
        None => None,
    }
}

/// Whether permission bits let anyone but the owner in.
pub open spec fn too_open(mode: u32) -> bool {
    mode & 0o777 & 0o077 != 0
}

/// Refuses a file that anyone but its owner may touch.
pub fn check_permissions(path: &str, mode: u32) -> (r: Result<(), KeystoreError>)
    ensures
        too_open(mode) ==> (r matches Err(KeystoreError::PermissionsTooOpen { path: p, mode: m })
            && p@ == path@ && m == mode & 0o777),
        !too_open(mode) ==> r == Ok::<(), KeystoreError>(()),
{
    let bits: u32 = mode & 0o777;
    if bits & 0o077 != 0 {
        return Err(
            KeystoreError::PermissionsTooOpen { path: String::from_str(path), mode: bits },
        );
    }
    Ok(())
}

/// What loading comes to: permissions are judged before contents, and the
/// version before the key.
pub open spec fn loads(
    path: Seq<char>,
    file: FileRead<StoredIdentity>,
    r: Result<LoadedIdentity, KeystoreError>,
) -> bool {
    match file {
        FileRead::Missing(e) => r matches Err(
            KeystoreError::Io { path: p, source, not_found },
        ) && p@ == path && source == e && not_found,
        FileRead::Failed(e) => r matches Err(
            KeystoreError::Io { path: p, source, not_found },
        ) && p@ == path && source == e && !not_found,
        FileRead::Unchecked(e) => r matches Err(
            KeystoreError::Io { path: p, source, not_found },
        ) && p@ == path && source == e && !not_found,
        FileRead::Read { mode, document } => {
            if mode is Some && too_open(mode->0) {
                r matches Err(KeystoreError::PermissionsTooOpen { path: p, mode: m }) && p@
                    == path && m == mode->0 & 0o777
            } else {
                match document {
                    None => r matches Err(KeystoreError::Malformed(p)) && p@ == path,
                    Some(stored) => {
                        if stored.version != KEYSTORE_VERSION {
                            r matches Err(
                                KeystoreError::UnsupportedVersion {
                                    path: p,
                                    found,
                                    expected,
                                },
                            ) && p@ == path && found == stored.version && expected
                                == KEYSTORE_VERSION
                        } else {
                            match stored_secret(stored.secret_key@) {
                                Some(secret) => r is Ok && r->Ok_0.identity.secret()
                                    == secret && r->Ok_0.identity.witness()
                                    == stored.counter && r->Ok_0.nickname
                                    == stored.nickname,
                                None => r matches Err(KeystoreError::BadKey(p)) && p@
                                    == path,
                            }
                        }
                    },
                }
            }
        },
    }
}

/// Whether this is what is written for an identity.
pub open spec fn records(stored: StoredIdentity, identity: Identity, nickname: Seq<char>) -> bool {
    &&& stored.version == KEYSTORE_VERSION
    &&& stored.secret_key@ == crypto::base64_of(identity.secret())
    &&& stored_secret(stored.secret_key@) == Some(identity.secret())
    &&& stored.counter == identity.witness()
    &&& stored.nickname@ == nickname
}

/// Access to a stored identity.
pub struct Keystore;

impl Keystore {
    /// Judges what was read: permissions before contents, version before key.
    pub fn load(path: &str, file: FileRead<StoredIdentity>) -> (r: Result<
        LoadedIdentity,
        KeystoreError,
    >)
        ensures
            loads(path@, file, r),
    {
        match file {
            FileRead::Missing(source) => Err(
                KeystoreError::Io { path: String::from_str(path), source, not_found: true },
            ),
            FileRead::Failed(source) => Err(
                KeystoreError::Io { path: String::from_str(path), source, not_found: false },
            ),
            FileRead::Unchecked(source) => Err(
                KeystoreError::Io { path: String::from_str(path), source, not_found: false },
            ),
            FileRead::Read { mode, document } => {
                if let Some(mode) = mode {
                    match check_permissions(path, mode) {
                        Ok(()) => {},
                        Err(e) => {
                            return Err(e);
                        },
                    }
                }
                let stored: StoredIdentity = match document {
                    Some(stored) => stored,
                    None => {
                        return Err(KeystoreError::Malformed(String::from_str(path)));
                    },
                };
                if stored.version != KEYSTORE_VERSION {
                    return Err(
                        KeystoreError::UnsupportedVersion {
                            path: String::from_str(path),
                            found: stored.version,
                            expected: KEYSTORE_VERSION,
                        },
                    );
                }
                match decode_secret(stored.secret_key.as_str()) {
                    Some(secret) => Ok(
                        LoadedIdentity {
                            identity: Identity::from_secret_bytes(&secret, stored.counter),
                            nickname: stored.nickname,
                        },
                    ),
                    None => Err(KeystoreError::BadKey(String::from_str(path))),
                }
            },
        }
    }

    /// Uses what was loaded, or a fresh identity where there was no file. The
    /// flag says that the identity is new and has to be saved. Any other
    /// failure is reported: a new identity would strand the permissions of the
    /// old one.
    pub fn load_or_create(
        loaded: Result<LoadedIdentity, KeystoreError>,
        default_nickname: &str,
    ) -> (r: Result<(LoadedIdentity, bool), KeystoreError>)
        ensures
            match loaded {
                Ok(found) => r == Ok::<(LoadedIdentity, bool), KeystoreError>((found, false)),
                Err(KeystoreError::Io { path: _, source: _, not_found: true }) => r matches Ok(
                    (made, fresh),
                ) && fresh && made.identity.witness() == 0 && made.nickname@ == default_nickname@,
                Err(e) => r == Err::<(LoadedIdentity, bool), KeystoreError>(e),
            },
    {
        match loaded {
            Ok(found) => Ok((found, false)),
            Err(KeystoreError::Io { path: _, source: _, not_found: true }) => Ok(
                (
                    LoadedIdentity {
                        identity: Identity::generate(),
                        nickname: String::from_str(default_nickname),
                    },
                    true,
                ),
            ),
            Err(e) => Err(e),
        }
    }

    /// What to write for an identity. Loading it gives the identity back.
    pub fn stored(identity: &Identity, nickname: &str) -> (r: StoredIdentity)
        ensures
            records(r, *identity, nickname@),
    {
        let secret: [u8; 32] = identity.secret_bytes();
        StoredIdentity {
            version: KEYSTORE_VERSION,
            secret_key: crypto::encode_base64(&secret),
            counter: identity.counter(),
            nickname: String::from_str(nickname),
        }
    }
}

/// What is written for an identity, read back from a private file, is the same
/// key with the same witness and nickname.
pub proof fn law_saved_identity_comes_back(
    path: Seq<char>,
    stored: StoredIdentity,
    identity: Identity,
    nickname: Seq<char>,
    mode: Option<u32>,
    r: Result<LoadedIdentity, KeystoreError>,
)
    requires
        records(stored, identity, nickname),
        mode is None || !too_open(mode->0),
        loads(path, FileRead::Read { mode, document: Some(stored) }, r),
    ensures
        r matches Ok(found) && found.identity.secret() == identity.secret()
            && found.identity.witness() == identity.witness() && found.nickname@ == nickname,
{
}

/// A file that other accounts can reach is refused whatever it holds.
pub proof fn law_an_open_file_is_refused(
    path: Seq<char>,
    mode: u32,
    document: Option<StoredIdentity>,
    r: Result<LoadedIdentity, KeystoreError>,
)
    requires
        too_open(mode),
        loads(path, FileRead::Read { mode: Some(mode), document }, r),
    ensures
        r is Err,
{
}

/// A file is too open as soon as its group or anyone else has any permission,
/// whatever its owner has.
pub proof fn law_only_the_owner_may_touch_the_file(mode: u32)
    ensures
        too_open(mode) <==> mode % 64 != 0,
{
    assert(mode & 0o777 & 0o077 != 0 <==> mode % 64 != 0) by (bit_vector);
}

/// A stored key is one exactly when it is the base64 of 32 octets.
pub proof fn law_a_stored_key_has_32_octets(text: Seq<char>)
    ensures
        stored_secret(text) matches Some(secret) ==> secret.len() == 32 && crypto::base64_decoded(
            text,
        ) == Some(secret),
        stored_secret(text) is None <==> crypto::base64_decoded(text) is None
            || crypto::base64_decoded(text)->0.len() != 32,
{
}

/// An identity loads exactly when its file was read, is private, is a document
/// of this version and holds a key; then it has what the document says. A file
/// that is not there is told apart from every other failure.
pub proof fn law_when_an_identity_loads(
    path: Seq<char>,
    file: FileRead<StoredIdentity>,
    r: Result<LoadedIdentity, KeystoreError>,
)
    requires
        loads(path, file, r),
    ensures
        r is Ok <==> (file matches FileRead::Read { mode, document: Some(stored) } && (mode is None
            || mode->0 % 64 == 0) && stored.version == 1 && stored_secret(stored.secret_key@)
            is Some),
        r matches Ok(loaded) ==> {
            let stored = file->document->0;
            &&& Some(loaded.identity.secret()) == stored_secret(stored.secret_key@)
            &&& loaded.identity.witness() == stored.counter
            &&& loaded.nickname@ == stored.nickname@
        },
        (r matches Err(KeystoreError::Io { path: _, source: _, not_found: true })) <==> file
            is Missing,
        file is Failed || file is Unchecked ==> (r matches Err(
            KeystoreError::Io { path: _, source: _, not_found: false },
        )),
{
    if let FileRead::Read { mode: Some(mode), document: _ } = file {
        law_only_the_owner_may_touch_the_file(mode);
    }
}

/// What is written for an identity is its key, its witness and its nickname, in
/// this version.
pub proof fn law_what_is_written_for_an_identity(
    stored: StoredIdentity,
    identity: Identity,
    nickname: Seq<char>,
)
    requires
        records(stored, identity, nickname),
    ensures
        stored.version == 1,
        stored_secret(stored.secret_key@) == Some(identity.secret()),
        stored.counter == identity.witness(),
        stored.nickname@ == nickname,
{
}


/// A file that others can read is named, its mode is given in octal, and so is
/// the command that mends it.
pub proof fn law_an_open_file_is_named_with_its_mode(kind: Seq<char>, path: Seq<char>, mode: u32)
    ensures
        ({
            let s = too_open_sentence(kind, path, mode);
            &&& text::begins_with(s, kind + path)
            &&& text::holds(s, "(mode "@ + text::octal_digits(mode as nat))
            &&& text::holds(s, "); run `chmod 600 "@ + path)
        }),
{
    reveal_strlit(" is readable by other users (mode ");
    reveal_strlit("(mode ");
    let s = too_open_sentence(kind, path, mode);
    let digits = text::octal_digits(mode as nat);
    let mid = " is readable by other users (mode "@;
    let head = mid.take(mid.len() - 6);
    let fix = "); run `chmod 600 "@ + path;
    let end = "` before using it"@;
    assert(mid =~= head + "(mode "@);
    assert(s.take((kind + path).len() as int) =~= kind + path);
    text::lemma_holds(s, kind + path + head, "(mode "@ + digits, fix + end);
    text::lemma_holds(s, kind + path + mid + digits, fix, end);
}

/// What is wrong with a keystore is said of its file; the version found comes
/// before the one understood.
pub proof fn law_a_keystore_failure_is_put_in_words(e: KeystoreError)
    ensures
        ({
            let s = e.sentence();
            match e {
                KeystoreError::Io { path, source, not_found: _ } => {
                    &&& text::holds(s, "reading keystore "@ + path@)
                    &&& text::holds(s, ": "@ + source@)
                },
                KeystoreError::Malformed(path) => text::begins_with(s, "keystore "@ + path@),
                KeystoreError::UnsupportedVersion { path, found, expected } => {
                    &&& text::begins_with(s, "keystore "@ + path@)
                    &&& text::holds(s, " has version "@ + text::digits(found as nat))
                    &&& text::holds(
                        s,
                        ", but this build understands "@ + text::digits(expected as nat),
                    )
                },
                KeystoreError::BadKey(path) => text::begins_with(s, "keystore "@ + path@),
                KeystoreError::PermissionsTooOpen { path, mode } => text::begins_with(
                    s,
                    "keystore "@ + path@,
                ) && text::holds(s, "(mode "@ + text::octal_digits(mode as nat)),
            }
        }),
{
    let s = e.sentence();
    let none = Seq::<char>::empty();
    match e {
        KeystoreError::Io { path, source, not_found: _ } => {
            let one = "reading keystore "@ + path@;
            text::lemma_holds(s, none, one, ": "@ + source@);
            text::lemma_holds(s, one, ": "@ + source@, none);
        },
        KeystoreError::Malformed(path) => {
            let one = "keystore "@ + path@;
            assert(s.take(one.len() as int) =~= one);
        },
        KeystoreError::UnsupportedVersion { path, found, expected } => {
            let one = "keystore "@ + path@;
            let two = " has version "@ + text::digits(found as nat);
            let three = ", but this build understands "@ + text::digits(expected as nat);
            assert(s.take(one.len() as int) =~= one);
            text::lemma_holds(s, one, two, three);
            text::lemma_holds(s, one + two, three, none);
        },
        KeystoreError::BadKey(path) => {
            let one = "keystore "@ + path@;
            assert(s.take(one.len() as int) =~= one);
        },
        KeystoreError::PermissionsTooOpen { path, mode } => {
            law_an_open_file_is_named_with_its_mode("keystore "@, path@, mode);
        },
    }
}
} // verus!
