//! Passphrase encryption for the identity vault.
//!
//! A memory-hard key-derivation function over the passphrase, into an
//! authenticated cipher over the whole vault document. The parameters live in
//! the file, so raising the cost later cannot orphan a vault written earlier.
//! Nothing in a sealed file is secret without the passphrase.

use crate::identity::crypto;
use crate::octets;
use crate::text;
use vstd::prelude::*;

verus! {

/// Version of the encrypted envelope, continuing the vault's own numbering.
pub const SEALED_VERSION: u32 = 3;

/// Octets of salt drawn for a new vault.
pub const SALT_LEN: usize = 16;

/// The least salt that the key-derivation function takes.
pub const MIN_SALT_LEN: usize = 8;

/// The Argon2 version in use.
pub const ARGON2_VERSION: u32 = 19;

/// Refuse a memory cost above 1 GiB: the parameters come from a file that may
/// be damaged, and no honest one is near this.
pub const MAX_MEMORY_KIB: u32 = 1024 * 1024;

/// The most lanes whose eight blocks each can still be counted in 32 bits.
pub const MAX_PARALLELISM: u32 = 0x1fff_ffff;

/// The cost written into new files.
pub const DEFAULT_MEMORY_KIB: u32 = 19 * 1024;

pub const DEFAULT_ITERATIONS: u32 = 2;

pub const DEFAULT_PARALLELISM: u32 = 1;

/// Why a vault could not be sealed or opened.
#[derive(Debug, Clone)]
pub enum SealError {
    /// The tag did not verify. A wrong passphrase and a damaged file are the
    /// same event: telling them apart would mean trusting something that was
    /// not authenticated.
    Unauthentic,
    UnsupportedKdf(String),
    UnsupportedCipher(String),
    BadParams(String),
    BadEncoding,
}

impl SealError {
    /// The sentence for this error.
    pub open spec fn sentence(&self) -> Seq<char> {
        match self {
            SealError::Unauthentic => "the passphrase is wrong, or the file has been damaged"@,
            SealError::UnsupportedKdf(name) => "unknown key-derivation function "@
                + text::quoted_text(name@),
            SealError::UnsupportedCipher(name) => "unknown cipher "@ + text::quoted_text(name@),
            SealError::BadParams(what) => "key-derivation parameters are out of range: "@ + what@,
            SealError::BadEncoding => "the encrypted body is malformed"@,
        }
    }

    /// The error as a sentence.
    pub fn message(&self) -> (s: String)
        ensures
            s@ == self.sentence(),
    {
        match self {
            SealError::Unauthentic => String::from_str(
                "the passphrase is wrong, or the file has been damaged",
            ),
            SealError::UnsupportedKdf(name) => text::join(
                "unknown key-derivation function ",
                text::quoted(name.as_str()).as_str(),
            ),
            SealError::UnsupportedCipher(name) => text::join(
                "unknown cipher ",
                text::quoted(name.as_str()).as_str(),
            ),
            SealError::BadParams(what) => text::join(
                "key-derivation parameters are out of range: ",
                what.as_str(),
            ),
            SealError::BadEncoding => String::from_str("the encrypted body is malformed"),
        }
    }
}

/// How the key was derived, recorded alongside the ciphertext it protects.
#[derive(Debug, PartialEq, Eq)]
pub struct KdfHeader {
    /// Named rather than implied.
    pub algorithm: String,
    pub version: u32,
    pub memory_kib: u32,
    pub iterations: u32,
    pub parallelism: u32,
    /// Base64, drawn per file, so a precomputed table is useless against it.
    pub salt: String,
}

impl Clone for KdfHeader {
    fn clone(&self) -> (r: Self)
        ensures
            r == *self,
    {
        KdfHeader {
            algorithm: self.algorithm.clone(),
            version: self.version,
            memory_kib: self.memory_kib,
            iterations: self.iterations,
            parallelism: self.parallelism,
            salt: self.salt.clone(),
        }
    }
}

/// The encrypted vault as it sits on disk. The plaintext inside is the
/// document that an unencrypted vault stores.
#[derive(Debug, Clone, PartialEq, Eq)]
pub struct SealedVault {
    pub version: u32,
    pub kdf: KdfHeader,
    pub cipher: String,
    pub nonce: String,
    pub ciphertext: String,
}

/// A text behind its length in octets.
pub open spec fn prefixed(value: Seq<char>) -> Seq<u8> {
    let octets = vstd::utf8::encode_utf8(value);
    octets::le_bytes(octets.len(), 8) + octets
}

/// Keeps these octets apart from anything else that is authenticated.
pub open spec fn seal_context() -> Seq<u8> {
    vstd::utf8::encode_utf8("pickle-vault-seal-v1"@)
}

/// What is authenticated but not encrypted: every field of the header, each of
/// variable length behind its length.
pub open spec fn header_octets(version: u32, kdf: KdfHeader, cipher: Seq<char>) -> Seq<u8> {
    seal_context() + octets::le_bytes(version as nat, 4) + prefixed(kdf.algorithm@)
        + octets::le_bytes(kdf.version as nat, 4) + octets::le_bytes(kdf.memory_kib as nat, 4)
        + octets::le_bytes(kdf.iterations as nat, 4) + octets::le_bytes(kdf.parallelism as nat, 4)
        + prefixed(kdf.salt@) + prefixed(cipher)
}

/// Appends a text behind its length.
pub fn push_str(buf: &mut Vec<u8>, value: &str)
    ensures
        final(buf)@ == old(buf)@ + prefixed(value@),
{
    let ghost before = buf@;
    let bytes: &[u8] = value.as_bytes();
    let len: [u8; 8] = octets::u64_to_le(bytes.len() as u64);
    octets::append(buf, &len);
    octets::append(buf, bytes);
    assert(buf@ =~= before + prefixed(value@));
}

fn push_u32(buf: &mut Vec<u8>, value: u32)
    ensures
        final(buf)@ == old(buf)@ + octets::le_bytes(value as nat, 4),
{
    let bytes: [u8; 4] = octets::u32_to_le(value);
    octets::append(buf, &bytes);
}

/// Builds the octets that the cipher authenticates but does not encrypt.
pub fn associated_data(version: u32, kdf: &KdfHeader, cipher: &str) -> (buf: Vec<u8>)
    ensures
        buf@ == header_octets(version, *kdf, cipher@),
{
    let mut buf: Vec<u8> = Vec::new();
    octets::append(&mut buf, "pickle-vault-seal-v1".as_bytes());
    push_u32(&mut buf, version);
    push_str(&mut buf, kdf.algorithm.as_str());
    push_u32(&mut buf, kdf.version);
    push_u32(&mut buf, kdf.memory_kib);
    push_u32(&mut buf, kdf.iterations);
    push_u32(&mut buf, kdf.parallelism);
    push_str(&mut buf, kdf.salt.as_str());
    push_str(&mut buf, cipher);
    assert(buf@ =~= header_octets(version, *kdf, cipher@));
    buf
}

/// What comes of deriving a key.
pub enum Derivation {
    /// The key.
    Key(Seq<u8>),
    UnsupportedKdf,
    BadEncoding,
    /// Parameters out of range, with this complaint.
    BadParams(Seq<char>),
}

/// The key that a passphrase gives under a file's parameters.
pub open spec fn derivation(passphrase: Seq<char>, header: KdfHeader) -> Derivation {
    if header.algorithm@ != "argon2id"@ {
        Derivation::UnsupportedKdf
    } else if header.version != ARGON2_VERSION {
        Derivation::BadParams("argon2 version "@ + text::digits(header.version as nat))
    } else if header.memory_kib > MAX_MEMORY_KIB {
        Derivation::BadParams(
            text::digits(header.memory_kib as nat) + " KiB of memory is beyond the "@
                + text::digits(MAX_MEMORY_KIB as nat) + " KiB this build will allocate"@,
        )
    } else {
        match crypto::base64_decoded(header.salt@) {
            None => Derivation::BadEncoding,
            Some(salt) => {
                if salt.len() < MIN_SALT_LEN {
                    Derivation::BadParams(
                        "a "@ + text::digits(salt.len()) + "-byte salt is too short"@,
                    )
                } else {
                    let words = vstd::utf8::encode_utf8(passphrase);
                    let (m, t, p) = (header.memory_kib, header.iterations, header.parallelism);
                    if crypto::argon2id_takes(m, t, p, words.len(), salt.len()) {
                        Derivation::Key(crypto::argon2id_key(m, t, p, words, salt))
                    } else {
                        Derivation::BadParams(
                            crypto::argon2id_complaint(m, t, p, words.len(), salt.len()),
                        )
                    }
                }
            },
        }
    }
}

/// What comes of opening a sealed vault.
pub enum Opening {
    Plaintext(Seq<u8>),
    UnsupportedCipher,
    BadEncoding,
    Unauthentic,
}

/// The plaintext of a sealed vault under a key.
pub open spec fn opening(key: Seq<u8>, sealed: SealedVault) -> Opening {
    if sealed.cipher@ != "xchacha20poly1305"@ {
        Opening::UnsupportedCipher
    } else {
        match (crypto::base64_decoded(sealed.nonce@), crypto::base64_decoded(sealed.ciphertext@)) {
            (Some(nonce), Some(ciphertext)) if nonce.len() == crypto::NONCE_LEN => {
                if ciphertext.len() > crypto::MAX_MESSAGE_LEN + crypto::TAG_LEN {
                    Opening::Unauthentic
                } else {
                    match crypto::xchacha_opened(
                        key,
                        nonce,
                        header_octets(sealed.version, sealed.kdf, sealed.cipher@),
                        ciphertext,
                    ) {
                        Some(plaintext) => Opening::Plaintext(plaintext),
                        None => Opening::Unauthentic,
                    }
                }
            },
            _ => Opening::BadEncoding,
        }
    }
}

/// The most that can be sealed: what the text encoding takes, tag included,
/// and no more than the cipher's longest message.
pub open spec fn sealable(len: nat) -> bool {
    len + crypto::TAG_LEN <= usize::MAX / 512 && len <= crypto::MAX_MESSAGE_LEN
}

/// Whether a key was derived from a passphrase at the cost written into new
/// files, with a salt of full length.
pub open spec fn is_fresh(passphrase: Seq<char>, key: VaultKey) -> bool {
    &&& derivation(passphrase, key.kdf()) == Derivation::Key(key.octets())
    &&& key.kdf().algorithm@ == "argon2id"@
    &&& key.kdf().version == ARGON2_VERSION
    &&& key.kdf().memory_kib == DEFAULT_MEMORY_KIB
    &&& key.kdf().iterations == DEFAULT_ITERATIONS
    &&& key.kdf().parallelism == DEFAULT_PARALLELISM
    &&& exists|salt: Seq<u8>|
        salt.len() == SALT_LEN && key.kdf().salt@ == #[trigger] crypto::base64_of(salt)
}

/// Whether a passphrase is longer than the key-derivation function takes.
pub open spec fn is_too_long(passphrase: Seq<char>) -> bool {
    vstd::utf8::encode_utf8(passphrase).len() > u32::MAX
}

/// A derived key, kept while the vault is unlocked, so that saving neither
/// asks for the passphrase again nor repeats the slow derivation. The salt is
/// reused across saves; the nonce never is.
pub struct VaultKey {
    key: [u8; 32],
    header: KdfHeader,
}

impl VaultKey {
    /// The derived octets.
    pub closed spec fn octets(&self) -> Seq<u8> {
        self.key@
    }

    /// How they were derived.
    pub closed spec fn kdf(&self) -> KdfHeader {
        self.header
    }

    /// How the key was derived.
    pub fn header(&self) -> (r: &KdfHeader)
        ensures
            *r == self.kdf(),
    {
        &self.header
    }

    /// Derives from a passphrase with this salt and the default cost.
    pub fn with_salt(passphrase: &str, salt: &[u8]) -> (r: Result<Self, SealError>)
        requires
            salt@.len() == SALT_LEN,
        ensures
            match r {
                Ok(key) => !is_too_long(passphrase@) && is_fresh(passphrase@, key)
                    && key.kdf().salt@ == crypto::base64_of(salt@),
                Err(e) => is_too_long(passphrase@) && (e matches SealError::BadParams(what)
                    && what@ == "password is too long"@),
            },
    {
        let header: KdfHeader = KdfHeader {
            algorithm: String::from_str("argon2id"),
            version: ARGON2_VERSION,
            memory_kib: DEFAULT_MEMORY_KIB,
            iterations: DEFAULT_ITERATIONS,
            parallelism: DEFAULT_PARALLELISM,
            salt: crypto::encode_base64(salt),
        };
        VaultKey::derive(passphrase, &header)
    }

    /// Derives from a passphrase with a salt drawn at random and the default
    /// cost.
    pub fn fresh(passphrase: &str) -> (r: Result<Self, SealError>)
        ensures
            match r {
                Ok(key) => !is_too_long(passphrase@) && is_fresh(passphrase@, key),
                Err(e) => is_too_long(passphrase@) && (e matches SealError::BadParams(what)
                    && what@ == "password is too long"@),
            },
    {
        let salt: Vec<u8> = crypto::random_octets(SALT_LEN);
        VaultKey::with_salt(passphrase, &salt)
    }

    /// Derives again, using the parameters that a file recorded.
    pub fn derive(passphrase: &str, header: &KdfHeader) -> (r: Result<Self, SealError>)
        ensures
            match derivation(passphrase@, *header) {
                Derivation::Key(key) => r is Ok && r->Ok_0.octets() == key && r->Ok_0.kdf()
                    == *header,
                Derivation::UnsupportedKdf => r == Err::<Self, SealError>(
                    SealError::UnsupportedKdf(header.algorithm),
                ),
                Derivation::BadEncoding => r == Err::<Self, SealError>(SealError::BadEncoding),
                Derivation::BadParams(what) => r matches Err(SealError::BadParams(s)) && s@
                    == what,
            },
    {
        if !text::same(header.algorithm.as_str(), "argon2id") {
            return Err(SealError::UnsupportedKdf(header.algorithm.clone()));
        }
        if header.version != ARGON2_VERSION {
            return Err(
                SealError::BadParams(
                    text::join("argon2 version ", text::decimal(header.version as u64).as_str()),
                ),
            );
        }
        if header.memory_kib > MAX_MEMORY_KIB {
            let mut s: String = text::decimal(header.memory_kib as u64);
            s.append(" KiB of memory is beyond the ");
            s.append(text::decimal(MAX_MEMORY_KIB as u64).as_str());
            s.append(" KiB this build will allocate");
            return Err(SealError::BadParams(s));
        }
        let salt: Vec<u8> = match crypto::decode_base64(header.salt.as_str()) {
            Some(salt) => salt,
            None => {
                return Err(SealError::BadEncoding);
            },
        };
        if salt.len() < MIN_SALT_LEN {
            let mut s: String = text::join("a ", text::decimal(salt.len() as u64).as_str());
            s.append("-byte salt is too short");
            return Err(SealError::BadParams(s));
        }
        if header.parallelism > MAX_PARALLELISM {
            return Err(SealError::BadParams(String::from_str("memory cost is too small")));
        }
        match crypto::argon2id(
            header.memory_kib,
            header.iterations,
            header.parallelism,
            passphrase.as_bytes(),
            &salt,
        ) {
            Ok(key) => Ok(VaultKey { key, header: header.clone() }),
            Err(why) => Err(SealError::BadParams(why)),
        }
    }

    /// Encrypts a vault document under a given nonce.
    pub fn seal_with_nonce(&self, plaintext: &[u8], nonce: &[u8]) -> (r: Result<
        SealedVault,
        SealError,
    >)
        requires
            nonce@.len() == crypto::NONCE_LEN,
        ensures
            !sealable(plaintext@.len()) ==> r == Err::<SealedVault, SealError>(
                SealError::Unauthentic,
            ),
            sealable(plaintext@.len()) ==> r is Ok,
            r matches Ok(sealed) ==> {
                &&& sealed.version == SEALED_VERSION
                &&& sealed.kdf == self.kdf()
                &&& sealed.cipher@ == "xchacha20poly1305"@
                &&& sealed.nonce@ == crypto::base64_of(nonce@)
                &&& sealed.ciphertext@ == crypto::base64_of(
                    crypto::xchacha_sealed(
                        self.octets(),
                        nonce@,
                        header_octets(SEALED_VERSION, self.kdf(), "xchacha20poly1305"@),
                        plaintext@,
                    ),
                )
                &&& opening(self.octets(), sealed) == Opening::Plaintext(plaintext@)
            },
    {
        if plaintext.len() > usize::MAX / 512 - crypto::TAG_LEN || plaintext.len() as u64
            > crypto::MAX_MESSAGE_LEN {
            return Err(SealError::Unauthentic);
        }
        let aad: Vec<u8> = associated_data(SEALED_VERSION, &self.header, "xchacha20poly1305");
        match crypto::xchacha_encrypt(&self.key, nonce, &aad, plaintext) {
            Ok(ciphertext) => Ok(
                SealedVault {
                    version: SEALED_VERSION,
                    kdf: self.header.clone(),
                    cipher: String::from_str("xchacha20poly1305"),
                    nonce: crypto::encode_base64(nonce),
                    ciphertext: crypto::encode_base64(&ciphertext),
                },
            ),
            Err(_) => Err(SealError::Unauthentic),
        }
    }

    /// Encrypts a vault document under a nonce drawn at random. Opening the
    /// result with the same key gives the document back.
    pub fn seal(&self, plaintext: &[u8]) -> (r: Result<SealedVault, SealError>)
        ensures
            !sealable(plaintext@.len()) ==> r == Err::<SealedVault, SealError>(
                SealError::Unauthentic,
            ),
            sealable(plaintext@.len()) ==> r is Ok,
            r matches Ok(sealed) ==> {
                &&& sealed.version == SEALED_VERSION
                &&& sealed.kdf == self.kdf()
                &&& sealed.cipher@ == "xchacha20poly1305"@
                &&& opening(self.octets(), sealed) == Opening::Plaintext(plaintext@)
            },
    {
        let nonce: Vec<u8> = crypto::random_octets(crypto::NONCE_LEN);
        self.seal_with_nonce(plaintext, &nonce)
    }

    /// Decrypts, or says why not. The header is authenticated, not merely
    /// read.
    pub fn open(&self, sealed: &SealedVault) -> (r: Result<Vec<u8>, SealError>)
        ensures
            match opening(self.octets(), *sealed) {
                Opening::Plaintext(plaintext) => r is Ok && r->Ok_0@ == plaintext,
                Opening::UnsupportedCipher => r == Err::<Vec<u8>, SealError>(
                    SealError::UnsupportedCipher(sealed.cipher),
                ),
                Opening::BadEncoding => r == Err::<Vec<u8>, SealError>(SealError::BadEncoding),
                Opening::Unauthentic => r == Err::<Vec<u8>, SealError>(SealError::Unauthentic),
            },
    {
        if !text::same(sealed.cipher.as_str(), "xchacha20poly1305") {
            return Err(SealError::UnsupportedCipher(sealed.cipher.clone()));
        }
        let nonce: Vec<u8> = match crypto::decode_base64(sealed.nonce.as_str()) {
            Some(nonce) => nonce,
            None => {
                return Err(SealError::BadEncoding);
            },
        };
        if nonce.len() != crypto::NONCE_LEN {
            return Err(SealError::BadEncoding);
        }
        let ciphertext: Vec<u8> = match crypto::decode_base64(sealed.ciphertext.as_str()) {
            Some(ciphertext) => ciphertext,
            None => {
                return Err(SealError::BadEncoding);
            },
        };
        if ciphertext.len() as u64 > crypto::MAX_MESSAGE_LEN + crypto::TAG_LEN as u64 {
            return Err(SealError::Unauthentic);
        }
        let aad: Vec<u8> = associated_data(sealed.version, &sealed.kdf, sealed.cipher.as_str());
        match crypto::xchacha_decrypt(&self.key, &nonce, &aad, &ciphertext) {
            Ok(plaintext) => Ok(plaintext),
            Err(_) => Err(SealError::Unauthentic),
        }
    }
}

proof fn lemma_prefixed_splits(a: Seq<char>, x: Seq<u8>, b: Seq<char>, y: Seq<u8>)
    requires
        vstd::utf8::encode_utf8(a).len() < 0x1_0000_0000_0000_0000,
        vstd::utf8::encode_utf8(b).len() < 0x1_0000_0000_0000_0000,
        prefixed(a) + x == prefixed(b) + y,
    ensures
        a == b,
        x == y,
{
    let ea = vstd::utf8::encode_utf8(a);
    let eb = vstd::utf8::encode_utf8(b);
    let l = prefixed(a) + x;
    let r = prefixed(b) + y;
    octets::lemma_le_limits();
    octets::lemma_le_bytes_len(ea.len(), 8);
    octets::lemma_le_bytes_len(eb.len(), 8);
    octets::lemma_le_round_trip(ea.len(), 8);
    octets::lemma_le_round_trip(eb.len(), 8);
    assert(l.take(8) =~= octets::le_bytes(ea.len(), 8));
    assert(r.take(8) =~= octets::le_bytes(eb.len(), 8));
    let n = ea.len() as int;
    assert(l.subrange(8, 8 + n) =~= ea);
    assert(r.subrange(8, 8 + n) =~= eb);
    assert(l.skip(8 + n) =~= x);
    assert(r.skip(8 + n) =~= y);
    vstd::utf8::encode_utf8_decode_utf8(a);
    vstd::utf8::encode_utf8_decode_utf8(b);
}

proof fn lemma_u32_splits(a: u32, x: Seq<u8>, b: u32, y: Seq<u8>)
    requires
        octets::le_bytes(a as nat, 4) + x == octets::le_bytes(b as nat, 4) + y,
    ensures
        a == b,
        x == y,
{
    let l = octets::le_bytes(a as nat, 4) + x;
    let r = octets::le_bytes(b as nat, 4) + y;
    octets::lemma_le_limits();
    octets::lemma_le_bytes_len(a as nat, 4);
    octets::lemma_le_bytes_len(b as nat, 4);
    octets::lemma_le_round_trip(a as nat, 4);
    octets::lemma_le_round_trip(b as nat, 4);
    assert(l.take(4) =~= octets::le_bytes(a as nat, 4));
    assert(r.take(4) =~= octets::le_bytes(b as nat, 4));
    assert(l.skip(4) =~= x);
    assert(r.skip(4) =~= y);
}

/// Whether every text of a header fits in memory.
pub open spec fn fits_in_memory(kdf: KdfHeader, cipher: Seq<char>) -> bool {
    &&& vstd::utf8::encode_utf8(kdf.algorithm@).len() < 0x1_0000_0000_0000_0000
    &&& vstd::utf8::encode_utf8(kdf.salt@).len() < 0x1_0000_0000_0000_0000
    &&& vstd::utf8::encode_utf8(cipher).len() < 0x1_0000_0000_0000_0000
}

proof fn lemma_same_head(head: Seq<u8>, x: Seq<u8>, y: Seq<u8>)
    requires
        head + x == head + y,
    ensures
        x == y,
{
    let k = head.len() as int;
    assert((head + x).skip(k) =~= x);
    assert((head + y).skip(k) =~= y);
}

proof fn lemma_regrouped(
    a: Seq<u8>,
    b: Seq<u8>,
    c: Seq<u8>,
    d: Seq<u8>,
    e: Seq<u8>,
    f: Seq<u8>,
    g: Seq<u8>,
    h: Seq<u8>,
    i: Seq<u8>,
)
    ensures
        a + b + c + d + e + f + g + h + i == a + (b + (c + (d + (e + (f + (g + (h + (i
            + Seq::<u8>::empty())))))))),
{
    assert(a + b + c + d + e + f + g + h + i =~= a + (b + (c + (d + (e + (f + (g + (h + (i
        + Seq::<u8>::empty())))))))));
}

proof fn lemma_header_regrouped(v: u32, h: KdfHeader, c: Seq<char>)
    ensures
        header_octets(v, h, c) == seal_context() + (octets::le_bytes(v as nat, 4) + (prefixed(
            h.algorithm@,
        ) + (octets::le_bytes(h.version as nat, 4) + (octets::le_bytes(h.memory_kib as nat, 4) + (
        octets::le_bytes(h.iterations as nat, 4) + (octets::le_bytes(h.parallelism as nat, 4) + (
        prefixed(h.salt@) + (prefixed(c) + Seq::<u8>::empty())))))))),
{
    lemma_regrouped(
        seal_context(),
        octets::le_bytes(v as nat, 4),
        prefixed(h.algorithm@),
        octets::le_bytes(h.version as nat, 4),
        octets::le_bytes(h.memory_kib as nat, 4),
        octets::le_bytes(h.iterations as nat, 4),
        octets::le_bytes(h.parallelism as nat, 4),
        prefixed(h.salt@),
        prefixed(c),
    );
}

/// No two headers are authenticated as the same octets: a longer algorithm
/// name cannot make up for a shorter salt, and editing any field changes what
/// the tag covers.
pub proof fn law_header_is_bound(
    v1: u32,
    h1: KdfHeader,
    c1: Seq<char>,
    v2: u32,
    h2: KdfHeader,
    c2: Seq<char>,
)
    requires
        fits_in_memory(h1, c1),
        fits_in_memory(h2, c2),
        header_octets(v1, h1, c1) == header_octets(v2, h2, c2),
    ensures
        v1 == v2,
        h1.algorithm@ == h2.algorithm@,
        h1.version == h2.version,
        h1.memory_kib == h2.memory_kib,
        h1.iterations == h2.iterations,
        h1.parallelism == h2.parallelism,
        h1.salt@ == h2.salt@,
        c1 == c2,
{
    let e = Seq::<u8>::empty();
    let r7a = prefixed(c1) + e;
    let r7b = prefixed(c2) + e;
    let r6a = prefixed(h1.salt@) + r7a;
    let r6b = prefixed(h2.salt@) + r7b;
    let r5a = octets::le_bytes(h1.parallelism as nat, 4) + r6a;
    let r5b = octets::le_bytes(h2.parallelism as nat, 4) + r6b;
    let r4a = octets::le_bytes(h1.iterations as nat, 4) + r5a;
    let r4b = octets::le_bytes(h2.iterations as nat, 4) + r5b;
    let r3a = octets::le_bytes(h1.memory_kib as nat, 4) + r4a;
    let r3b = octets::le_bytes(h2.memory_kib as nat, 4) + r4b;
    let r2a = octets::le_bytes(h1.version as nat, 4) + r3a;
    let r2b = octets::le_bytes(h2.version as nat, 4) + r3b;
    let r1a = prefixed(h1.algorithm@) + r2a;
    let r1b = prefixed(h2.algorithm@) + r2b;
    let r0a = octets::le_bytes(v1 as nat, 4) + r1a;
    let r0b = octets::le_bytes(v2 as nat, 4) + r1b;
    lemma_header_regrouped(v1, h1, c1);
    lemma_header_regrouped(v2, h2, c2);
    lemma_same_head(seal_context(), r0a, r0b);
    lemma_u32_splits(v1, r1a, v2, r1b);
    lemma_prefixed_splits(h1.algorithm@, r2a, h2.algorithm@, r2b);
    lemma_u32_splits(h1.version, r3a, h2.version, r3b);
    lemma_u32_splits(h1.memory_kib, r4a, h2.memory_kib, r4b);
    lemma_u32_splits(h1.iterations, r5a, h2.iterations, r5b);
    lemma_u32_splits(h1.parallelism, r6a, h2.parallelism, r6b);
    lemma_prefixed_splits(h1.salt@, r7a, h2.salt@, r7b);
    lemma_prefixed_splits(c1, e, c2, e);
}

/// A sealed document comes back under the passphrase it was sealed with: the
/// key derived again from the file's own header opens it.
pub proof fn law_sealed_document_comes_back(
    passphrase: Seq<char>,
    key: VaultKey,
    sealed: SealedVault,
    document: Seq<u8>,
)
    requires
        derivation(passphrase, key.kdf()) == Derivation::Key(key.octets()),
        sealed.kdf == key.kdf(),
        opening(key.octets(), sealed) == Opening::Plaintext(document),
    ensures
        derivation(passphrase, sealed.kdf) matches Derivation::Key(again) && opening(again, sealed)
            == Opening::Plaintext(document),
{
}

/// A text of variable length stands behind its length in eight octets.
pub proof fn law_a_text_stands_behind_its_length(value: Seq<char>)
    requires
        vstd::utf8::encode_utf8(value).len() < 0x1_0000_0000_0000_0000,
    ensures
        prefixed(value).len() == 8 + vstd::utf8::encode_utf8(value).len(),
        octets::le_value(prefixed(value).take(8)) == vstd::utf8::encode_utf8(value).len(),
        prefixed(value).skip(8) == vstd::utf8::encode_utf8(value),
{
    let octets = vstd::utf8::encode_utf8(value);
    octets::lemma_le_bytes_len(octets.len(), 8);
    octets::lemma_le_limits();
    octets::lemma_le_round_trip(octets.len(), 8);
    assert(prefixed(value).take(8) =~= octets::le_bytes(octets.len(), 8));
    assert(prefixed(value).skip(8) =~= octets);
}

/// The header as it is authenticated: its context, the version, the name of the
/// derivation, its version and its three costs, then the salt and the cipher.
pub proof fn law_the_header_octet_by_octet(version: u32, kdf: KdfHeader, cipher: Seq<char>)
    requires
        fits_in_memory(kdf, cipher),
    ensures
        ({
            let h = header_octets(version, kdf, cipher);
            let a = prefixed(kdf.algorithm@);
            let s = prefixed(kdf.salt@);
            let at = 24 + a.len() as int;
            &&& h.len() == 40 + a.len() + s.len() + prefixed(cipher).len()
            &&& h.take(20) == vstd::utf8::encode_utf8("pickle-vault-seal-v1"@)
            &&& octets::number_of_four(h, 20) == version
            &&& h.subrange(24, at) == a
            &&& octets::number_of_four(h, at) == kdf.version
            &&& octets::number_of_four(h, at + 4) == kdf.memory_kib
            &&& octets::number_of_four(h, at + 8) == kdf.iterations
            &&& octets::number_of_four(h, at + 12) == kdf.parallelism
            &&& h.subrange(at + 16, at + 16 + s.len()) == s
            &&& h.skip(at + 16 + s.len()) == prefixed(cipher)
        }),
{
    reveal_strlit("pickle-vault-seal-v1");
    vstd::utf8::is_ascii_chars_encode_utf8("pickle-vault-seal-v1"@);
    let h = header_octets(version, kdf, cipher);
    let a = prefixed(kdf.algorithm@);
    let s = prefixed(kdf.salt@);
    let at = 24 + a.len() as int;
    let e = Seq::<u8>::empty();
    octets::law_numbers_are_little_endian(version, e);
    octets::law_numbers_are_little_endian(kdf.version, e);
    octets::law_numbers_are_little_endian(kdf.memory_kib, e);
    octets::law_numbers_are_little_endian(kdf.iterations, e);
    octets::law_numbers_are_little_endian(kdf.parallelism, e);
    assert(h.take(20) =~= vstd::utf8::encode_utf8("pickle-vault-seal-v1"@));
    assert(h.subrange(20, 24) =~= octets::le_bytes(version as nat, 4));
    lemma_four_at(h, 20, version);
    assert(h.subrange(24, at) =~= a);
    assert(h.subrange(at, at + 4) =~= octets::le_bytes(kdf.version as nat, 4));
    lemma_four_at(h, at, kdf.version);
    assert(h.subrange(at + 4, at + 8) =~= octets::le_bytes(kdf.memory_kib as nat, 4));
    lemma_four_at(h, at + 4, kdf.memory_kib);
    assert(h.subrange(at + 8, at + 12) =~= octets::le_bytes(kdf.iterations as nat, 4));
    lemma_four_at(h, at + 8, kdf.iterations);
    assert(h.subrange(at + 12, at + 16) =~= octets::le_bytes(kdf.parallelism as nat, 4));
    lemma_four_at(h, at + 12, kdf.parallelism);
    assert(h.subrange(at + 16, at + 16 + s.len()) =~= s);
    assert(h.skip(at + 16 + s.len()) =~= prefixed(cipher));
}

proof fn lemma_four_at(h: Seq<u8>, at: int, x: u32)
    requires
        0 <= at,
        at + 4 <= h.len(),
        h.subrange(at, at + 4) == octets::le_bytes(x as nat, 4),
    ensures
        octets::number_of_four(h, at) == x,
{
    octets::law_numbers_are_little_endian(x, h);
    let b = octets::le_bytes(x as nat, 4);
    let t = h.subrange(at, at + 4);
    assert(t[0] == h[at] && t[1] == h[at + 1] && t[2] == h[at + 2] && t[3] == h[at + 3]);
    assert(t == b);
}

/// A key comes of a passphrase exactly under argon2id, version 19, at no more
/// than a gigabyte of memory, with a salt that decodes to eight octets or more
/// and costs that the derivation takes; and it is what the derivation makes of
/// this very passphrase, salt and cost.
pub proof fn law_when_a_passphrase_gives_a_key(passphrase: Seq<char>, header: KdfHeader)
    ensures
        ({
            let words = vstd::utf8::encode_utf8(passphrase);
            let salt = crypto::base64_decoded(header.salt@);
            let (m, t, p) = (header.memory_kib, header.iterations, header.parallelism);
            let d = derivation(passphrase, header);
            &&& d is Key <==> header.algorithm@ == "argon2id"@ && header.version == 19 && m
                <= 1048576 && salt is Some && salt->0.len() >= 8 && crypto::argon2id_takes(
                m,
                t,
                p,
                words.len(),
                salt->0.len(),
            )
            &&& d matches Derivation::Key(octets) ==> octets == crypto::argon2id_key(
                m,
                t,
                p,
                words,
                salt->0,
            )
            &&& d is UnsupportedKdf <==> header.algorithm@ != "argon2id"@
            &&& d is BadEncoding <==> header.algorithm@ == "argon2id"@ && header.version == 19 && m
                <= 1048576 && salt is None
        }),
{
}

/// An envelope opens exactly when its cipher is known, its nonce has 24 octets,
/// its body decodes, and the tag binds both to the header; what comes out is
/// what the cipher gives under this key, nonce and header.
pub proof fn law_when_an_envelope_opens(key: Seq<u8>, sealed: SealedVault)
    ensures
        ({
            let nonce = crypto::base64_decoded(sealed.nonce@);
            let body = crypto::base64_decoded(sealed.ciphertext@);
            let header = header_octets(sealed.version, sealed.kdf, sealed.cipher@);
            let o = opening(key, sealed);
            let known = sealed.cipher@ == "xchacha20poly1305"@;
            let encoded = nonce is Some && nonce->0.len() == 24 && body is Some;
            &&& o is UnsupportedCipher <==> !known
            &&& o is BadEncoding <==> known && !encoded
            &&& o is Plaintext || o is Unauthentic <==> known && encoded
            &&& o matches Opening::Plaintext(p) ==> crypto::xchacha_opened(
                key,
                nonce->0,
                header,
                body->0,
            ) == Some(p)
            &&& known && encoded && body->0.len() <= 274877906832 ==> (o is Unauthentic
                <==> crypto::xchacha_opened(key, nonce->0, header, body->0) is None)
        }),
{
}

/// A fresh key was derived at the cost written into new files: 19 MiB, two
/// passes, one lane, and a salt of sixteen octets.
pub proof fn law_what_a_fresh_key_costs(passphrase: Seq<char>, key: VaultKey)
    requires
        is_fresh(passphrase, key),
    ensures
        key.kdf().algorithm@ == "argon2id"@,
        key.kdf().version == 19,
        key.kdf().memory_kib == 19456,
        key.kdf().iterations == 2,
        key.kdf().parallelism == 1,
        derivation(passphrase, key.kdf()) == Derivation::Key(key.octets()),
        exists|salt: Seq<u8>|
            salt.len() == 16 && key.kdf().salt@ == #[trigger] crypto::base64_of(salt),
{
}


/// Why a vault stays sealed is put in words that carry what was not understood.
pub proof fn law_a_seal_failure_is_put_in_words(e: SealError)
    ensures
        ({
            let s = e.sentence();
            match e {
                SealError::Unauthentic => s
                    == "the passphrase is wrong, or the file has been damaged"@,
                SealError::UnsupportedKdf(name) => s == "unknown key-derivation function "@
                    + text::quoted_text(name@),
                SealError::UnsupportedCipher(name) => s == "unknown cipher "@ + text::quoted_text(
                    name@,
                ),
                SealError::BadParams(what) => text::finishes_with(s, what@),
                SealError::BadEncoding => s == "the encrypted body is malformed"@,
            }
        }),
{
    let s = e.sentence();
    if let SealError::BadParams(what) = e {
        assert(s.skip(s.len() - what@.len()) =~= what@);
    }
}

/// A passphrase is refused only from four gibioctets on.
pub proof fn law_which_passphrase_is_too_long(passphrase: Seq<char>)
    ensures
        is_too_long(passphrase) <==> vstd::utf8::encode_utf8(passphrase).len() >= 0x1_0000_0000,
{
}
} // verus!
