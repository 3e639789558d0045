//! Cryptographic identity.
//!
//! There are no accounts and no login server. A user is an Ed25519 keypair
//! that lives on their machine; servers recognise returning users by public
//! key, and permissions are granted to a key rather than to a name. Nicknames
//! are cosmetic, and the fingerprint is what distinguishes two people.
//!
//! Because keypairs are free to make, an identity also carries a security
//! level, a proof of work over the public key. See [`pow`].

pub mod crypto;
pub mod keystore;
pub mod pow;
pub mod sealed;
pub mod vault;

use crate::identity::pow::{MineProgress, MineReport};
use crate::octets;
use crate::text;
use vstd::prelude::*;

verus! {

/// What can be wrong with identity material.
#[derive(Debug, Clone, Copy, PartialEq, Eq, Structural)]
pub enum IdentityError {
    /// Not the encoding of a public key.
    MalformedKey,
    /// Not the encoding of a signature.
    MalformedSignature,
    /// The signature does not match the key and the challenge.
    BadSignature,
    /// Not the text of a fingerprint.
    BadFingerprint,
}

impl IdentityError {
    /// The error as a sentence.
    pub fn message(&self) -> (s: &'static str)
        ensures
            s@ == match self {
                IdentityError::MalformedKey => "malformed public key"@,
                IdentityError::MalformedSignature => "malformed signature"@,
                IdentityError::BadSignature => "signature verification failed"@,
                IdentityError::BadFingerprint => "fingerprint is not valid base32"@,
            },
    {
        match self {
            IdentityError::MalformedKey => "malformed public key",
            IdentityError::MalformedSignature => "malformed signature",
            IdentityError::BadSignature => "signature verification failed",
            IdentityError::BadFingerprint => "fingerprint is not valid base32",
        }
    }
}

/// A stable, human-shareable name for a public key: its SHA-256 digest.
///
/// Rendered as unpadded base32 in hyphenated groups, so it can be read aloud
/// or compared by eye.
#[derive(Debug, Clone, Copy, Hash, PartialOrd, Ord)]
pub struct Fingerprint(pub [u8; 32]);

impl PartialEq for Fingerprint {
    fn eq(&self, other: &Self) -> (r: bool) {
        proof {
            if self.0@ == other.0@ {
                assert(self.0 =~= other.0);
            }
        }
        octets::same32(&self.0, &other.0)
    }
}

impl Eq for Fingerprint {

}

impl vstd::std_specs::cmp::PartialEqSpecImpl for Fingerprint {
    open spec fn obeys_eq_spec() -> bool {
        true
    }

    open spec fn eq_spec(&self, other: &Self) -> bool {
        *self == *other
    }
}

/// The fingerprint with this digest.
pub open spec fn fingerprint_with(digest: Seq<u8>) -> Fingerprint {
    choose|f: Fingerprint| f.0@ == digest
}

/// A digest belongs to one fingerprint.
pub proof fn lemma_fingerprint_with(f: Fingerprint)
    ensures
        fingerprint_with(f.0@) == f,
{
    let g = fingerprint_with(f.0@);
    assert(g.0@ == f.0@);
    assert(g.0 =~= f.0);
}

/// The symbols of a fingerprint: its digest in small base32 letters.
pub open spec fn fingerprint_symbols(digest: Seq<u8>) -> Seq<char> {
    text::ascii_lowered(crypto::base32_of(digest))
}

/// The full text of a fingerprint: its symbols in hyphenated fours.
pub open spec fn fingerprint_text(digest: Seq<u8>) -> Seq<char> {
    text::grouped(fingerprint_symbols(digest), 4, '-')
}

/// The abbreviated text: the first twelve symbols in hyphenated fours.
pub open spec fn fingerprint_short(digest: Seq<u8>) -> Seq<char> {
    text::grouped(fingerprint_symbols(digest).take(12), 4, '-')
}

/// Whether a character only spaces a fingerprint out.
pub open spec fn is_filler(c: char) -> bool {
    text::is_white_space(c) || c == '-'
}

/// The text without white space and hyphens.
pub open spec fn without_filler(s: Seq<char>) -> Seq<char>
    decreases s.len(),
{
    if s.len() == 0 {
        Seq::empty()
    } else if is_filler(s.last()) {
        without_filler(s.drop_last())
    } else {
        without_filler(s.drop_last()).push(s.last())
    }
}

/// How many base32 symbols a fingerprint has.
pub const FINGERPRINT_SYMBOLS: usize = 52;

/// The letters of a fingerprint text: filler dropped, ASCII letters raised.
pub open spec fn fingerprint_letters(s: Seq<char>) -> Seq<char> {
    text::ascii_uppered(without_filler(s))
}

/// The digest that a text names, if it is the text of a fingerprint: filler
/// dropped and letters raised, 52 symbols of base32 for 32 octets.
pub open spec fn parsed_fingerprint(s: Seq<char>) -> Option<Seq<u8>> {
    let symbols = vstd::utf8::encode_utf8(text::uppered(fingerprint_letters(s)));
    if symbols.len() != FINGERPRINT_SYMBOLS {
        None
    } else {
        match crypto::base32_octets(symbols) {
            Some(digest) if digest.len() == 32 => Some(digest),
            _ => None,
        }
    }
}

proof fn lemma_filter_append(a: Seq<char>, b: Seq<char>)
    ensures
        without_filler(a + b) == without_filler(a) + without_filler(b),
    decreases b.len(),
{
    if b.len() == 0 {
        assert(a + b =~= a);
        assert(without_filler(a) + without_filler(b) =~= without_filler(a));
    } else {
        lemma_filter_append(a, b.drop_last());
        assert((a + b).drop_last() =~= a + b.drop_last());
        assert(without_filler(a + b) =~= without_filler(a) + without_filler(b));
    }
}

proof fn lemma_filler_free(s: Seq<char>)
    requires
        forall|i: int| 0 <= i < s.len() ==> !is_filler(#[trigger] s[i]),
    ensures
        without_filler(s) == s,
    decreases s.len(),
{
    if s.len() > 0 {
        lemma_filler_free(s.drop_last());
        assert(s.drop_last().push(s.last()) =~= s);
    }
}

proof fn lemma_all_filler(s: Seq<char>)
    requires
        forall|i: int| 0 <= i < s.len() ==> is_filler(#[trigger] s[i]),
    ensures
        without_filler(s) == Seq::<char>::empty(),
    decreases s.len(),
{
    if s.len() > 0 {
        lemma_all_filler(s.drop_last());
    }
}

proof fn lemma_grouping_is_filler(s: Seq<char>)
    requires
        forall|i: int| 0 <= i < s.len() ==> !is_filler(#[trigger] s[i]),
    ensures
        without_filler(text::grouped(s, 4, '-')) == s,
    decreases s.len(),
{
    if s.len() <= 4 {
        lemma_filler_free(s);
    } else {
        let head = s.take(4);
        let rest = text::grouped(s.skip(4), 4, '-');
        lemma_grouping_is_filler(s.skip(4));
        lemma_filler_free(head);
        assert(head.push('-').drop_last() =~= head);
        assert(without_filler(head.push('-')) == head);
        lemma_filter_append(head.push('-'), rest);
        assert(head + s.skip(4) =~= s);
    }
}

proof fn lemma_fingerprint_text_parses(digest: Seq<u8>)
    requires
        digest.len() == 32,
        crypto::base32_of(digest).len() == FINGERPRINT_SYMBOLS,
        forall|i: int|
            0 <= i < FINGERPRINT_SYMBOLS ==> crypto::is_base32_symbol(
                #[trigger] crypto::base32_of(digest)[i],
            ),
        crypto::base32_octets(vstd::utf8::encode_utf8(crypto::base32_of(digest))) == Some(digest),
    ensures
        parsed_fingerprint(fingerprint_text(digest)) == Some(digest),
{
    let upper = crypto::base32_of(digest);
    let lower = fingerprint_symbols(digest);
    lemma_grouping_is_filler(lower);
    assert(text::is_ascii(lower));
    assert(text::ascii_uppered(lower) =~= upper);
    assert(text::ascii_uppered(upper) =~= upper);
    assert(text::is_ascii(upper));
    vstd::utf8::is_ascii_chars_encode_utf8(upper);
}

impl Fingerprint {
    /// The fingerprint of a public key.
    pub fn of(key: &[u8; 32]) -> (r: Self)
        ensures
            r.0@ == crypto::sha256_of(key@),
            r == fingerprint_with(crypto::sha256_of(key@)),
    {
        let r: Fingerprint = Fingerprint(crypto::sha256(key));
        proof {
            lemma_fingerprint_with(r);
        }
        r
    }

    /// The symbols in small letters.
    fn symbols(&self) -> (v: Vec<char>)
        ensures
            v@ == fingerprint_symbols(self.0@),
            v@.len() == FINGERPRINT_SYMBOLS,
            parsed_fingerprint(fingerprint_text(self.0@)) == Some(self.0@),
    {
        let upper: String = crypto::base32_encode(&self.0);
        proof {
            lemma_fingerprint_text_parses(self.0@);
        }
        let lower: String = text::to_ascii_lower(upper.as_str());
        text::chars_of(lower.as_str())
    }

    /// The first twelve symbols, grouped: enough for lists and logs, never
    /// enough to authenticate against.
    pub fn short(&self) -> (s: String)
        ensures
            s@ == fingerprint_short(self.0@),
    {
        let symbols: Vec<char> = self.symbols();
        let head: &[char] = vstd::slice::slice_subrange(symbols.as_slice(), 0, 12);
        assert(head@ =~= symbols@.take(12));
        let grouped: Vec<char> = text::group(head, 4, '-');
        text::string_of(&grouped)
    }

    /// The full text. Parsing it gives the fingerprint back.
    pub fn to_string(&self) -> (s: String)
        ensures
            s@ == fingerprint_text(self.0@),
            parsed_fingerprint(s@) == Some(self.0@),
    {
        let symbols: Vec<char> = self.symbols();
        let grouped: Vec<char> = text::group(&symbols, 4, '-');
        text::string_of(&grouped)
    }

    /// Reads a fingerprint, however it is spaced and in either case.
    pub fn parse(s: &str) -> (r: Result<Self, IdentityError>)
        ensures
            match parsed_fingerprint(s@) {
                Some(digest) => r is Ok && r->Ok_0.0@ == digest && r->Ok_0 == fingerprint_with(
                    digest,
                ),
                None => r == Err::<Self, IdentityError>(IdentityError::BadFingerprint),
            },
    {
        let all: Vec<char> = text::chars_of(s);
        let mut kept: Vec<char> = Vec::new();
        let mut i: usize = 0;
        while i < all.len()
            invariant
                i <= all@.len(),
                kept@ == fingerprint_letters(all@.take(i as int)),
            decreases all@.len() - i,
        {
            let c: char = all[i];
            proof {
                assert(all@.take(i + 1).drop_last() =~= all@.take(i as int));
            }
            if !text::white_space(c) && c != '-' {
                kept.push(text::to_upper_char(c));
            }
            proof {
                assert(kept@ =~= fingerprint_letters(all@.take(i + 1)));
            }
            i += 1;
        }
        assert(all@.take(i as int) =~= all@);
        let cleaned: String = text::to_upper(text::string_of(&kept).as_str());
        let symbols: &[u8] = cleaned.as_str().as_bytes();
        if symbols.len() != FINGERPRINT_SYMBOLS {
            return Err(IdentityError::BadFingerprint);
        }
        match crypto::base32_decode(symbols) {
            Ok(digest) => match octets::to_array32(&digest) {
                Some(array) => {
                    let r: Fingerprint = Fingerprint(array);
                    proof {
                        lemma_fingerprint_with(r);
                    }
                    Ok(r)
                },
                None => Err(IdentityError::BadFingerprint),
            },
            Err(_) => Err(IdentityError::BadFingerprint),
        }
    }
}

/// Neither filler, wherever it stands, nor the case of letters changes what a
/// text names: two texts that agree but for these name the same fingerprint.
pub proof fn law_filler_and_case_are_ignored(a: Seq<char>, b: Seq<char>)
    requires
        text::ascii_uppered(without_filler(a)) == text::ascii_uppered(without_filler(b)),
    ensures
        parsed_fingerprint(a) == parsed_fingerprint(b),
{
}

/// Filler put in at any place of a text leaves the fingerprint that it names.
pub proof fn law_filler_is_ignored(before: Seq<char>, filler: Seq<char>, after: Seq<char>)
    requires
        forall|i: int| 0 <= i < filler.len() ==> is_filler(#[trigger] filler[i]),
    ensures
        parsed_fingerprint(before + filler + after) == parsed_fingerprint(before + after),
{
    lemma_all_filler(filler);
    lemma_filter_append(before, filler);
    lemma_filter_append(before + filler, after);
    lemma_filter_append(before, after);
    assert(without_filler(before + filler + after) =~= without_filler(before + after));
}

/// A text in small or in capital letters names the same fingerprint.
pub proof fn law_case_is_ignored(s: Seq<char>)
    ensures
        parsed_fingerprint(text::ascii_uppered(s)) == parsed_fingerprint(s),
        parsed_fingerprint(text::ascii_lowered(s)) == parsed_fingerprint(s),
{
    lemma_case_of_letters(s);
}

proof fn lemma_letters_of_last(s: Seq<char>)
    requires
        s.len() > 0,
    ensures
        fingerprint_letters(s) == if is_filler(s.last()) {
            fingerprint_letters(s.drop_last())
        } else {
            fingerprint_letters(s.drop_last()).push(text::upper_char(s.last()))
        },
{
    assert(!is_filler(s.last()) ==> fingerprint_letters(s) =~= fingerprint_letters(
        s.drop_last(),
    ).push(text::upper_char(s.last())));
}

proof fn lemma_case_of_letters(s: Seq<char>)
    ensures
        fingerprint_letters(text::ascii_uppered(s)) == fingerprint_letters(s),
        fingerprint_letters(text::ascii_lowered(s)) == fingerprint_letters(s),
    decreases s.len(),
{
    if s.len() > 0 {
        let front = s.drop_last();
        lemma_case_of_letters(front);
        assert(text::ascii_uppered(s).drop_last() =~= text::ascii_uppered(front));
        assert(text::ascii_lowered(s).drop_last() =~= text::ascii_lowered(front));
        let c = s.last();
        let (raised, lowered) = (text::upper_char(c), text::lower_char(c));
        assert(text::ascii_uppered(s).last() == raised);
        assert(text::ascii_lowered(s).last() == lowered);
        assert(text::upper_char(raised) == raised);
        assert(text::upper_char(lowered) == raised);
        assert(is_filler(raised) == is_filler(c));
        assert(is_filler(lowered) == is_filler(c));
        lemma_letters_of_last(s);
        lemma_letters_of_last(text::ascii_uppered(s));
        lemma_letters_of_last(text::ascii_lowered(s));
    }
}

/// Keeps login signatures apart from any other signature of the same key.
pub open spec fn auth_context() -> Seq<u8> {
    vstd::utf8::encode_utf8("pickle-auth-v1"@)
}

/// Keeps server attestations apart from any other signature of the same key.
pub open spec fn server_hello_context() -> Seq<u8> {
    vstd::utf8::encode_utf8("pickle-server-hello-v1"@)
}

/// What a client signs to log in: the server's nonce and the hash of the
/// certificate of the very connection the login is for.
pub open spec fn auth_message(nonce: Seq<u8>, server_cert_hash: Seq<u8>) -> Seq<u8> {
    auth_context() + nonce + server_cert_hash
}

/// What a server signs to attest itself: nonce, certificate hash, and its
/// name behind the name's length in octets.
pub open spec fn server_hello_message(
    nonce: Seq<u8>,
    server_cert_hash: Seq<u8>,
    server_name: Seq<char>,
) -> Seq<u8> {
    let name = vstd::utf8::encode_utf8(server_name);
    server_hello_context() + nonce + server_cert_hash + octets::le_bytes(name.len(), 8) + name
}

/// Builds the login challenge.
pub fn auth_challenge(nonce: &[u8; 32], server_cert_hash: &[u8; 32]) -> (buf: Vec<u8>)
    ensures
        buf@ == auth_message(nonce@, server_cert_hash@),
{
    let mut buf: Vec<u8> = Vec::new();
    octets::append(&mut buf, "pickle-auth-v1".as_bytes());
    octets::append(&mut buf, nonce);
    octets::append(&mut buf, server_cert_hash);
    assert(buf@ =~= auth_message(nonce@, server_cert_hash@));
    buf
}

/// Builds the server's attestation challenge. The name is length-prefixed, so
/// it cannot be shifted into the adjacent field.
pub fn server_hello_challenge(
    nonce: &[u8; 32],
    server_cert_hash: &[u8; 32],
    server_name: &str,
) -> (buf: Vec<u8>)
    ensures
        buf@ == server_hello_message(nonce@, server_cert_hash@, server_name@),
{
    let name: &[u8] = server_name.as_bytes();
    let name_len: [u8; 8] = octets::u64_to_le(name.len() as u64);
    let mut buf: Vec<u8> = Vec::new();
    octets::append(&mut buf, "pickle-server-hello-v1".as_bytes());
    octets::append(&mut buf, nonce);
    octets::append(&mut buf, server_cert_hash);
    octets::append(&mut buf, &name_len);
    octets::append(&mut buf, name);
    assert(buf@ =~= server_hello_message(nonce@, server_cert_hash@, server_name@));
    buf
}

/// The public half of an identity, as it travels on the wire.
///
/// `counter` is the proof-of-work witness: with `key` it lets anyone recompute
/// the security level without trusting the sender's claim.
#[derive(Debug, Clone, Copy, PartialEq, Eq)]
pub struct PublicIdentity {
    /// The encoded Ed25519 public key.
    pub key: [u8; 32],
    pub counter: u64,
}

impl PublicIdentity {
    /// The identity of a key received from elsewhere, refused unless the
    /// octets encode a key.
    pub fn from_key_bytes(key: &[u8; 32], counter: u64) -> (r: Result<Self, IdentityError>)
        ensures
            crypto::is_public_key(key@) ==> r == Ok::<Self, IdentityError>(
                PublicIdentity { key: *key, counter },
            ),
            !crypto::is_public_key(key@) ==> r == Err::<Self, IdentityError>(
                IdentityError::MalformedKey,
            ),
    {
        match crypto::ed25519_check_key(key) {
            Ok(()) => Ok(PublicIdentity { key: *key, counter }),
            Err(_) => Err(IdentityError::MalformedKey),
        }
    }

    /// The fingerprint of the key.
    pub fn fingerprint(&self) -> (r: Fingerprint)
        ensures
            r.0@ == crypto::sha256_of(self.key@),
            r == fingerprint_with(crypto::sha256_of(self.key@)),
    {
        Fingerprint::of(&self.key)
    }

    /// Recomputes the proof of work.
    pub fn security_level(&self) -> (level: u32)
        ensures
            level as nat == pow::level_of(self.key@, self.counter),
    {
        pow::security_level(&self.key, self.counter)
    }

    /// Checks a login: the signature must cover this nonce and this
    /// certificate.
    pub fn verify_auth(
        &self,
        nonce: &[u8; 32],
        server_cert_hash: &[u8; 32],
        signature: &[u8; 64],
    ) -> (r: Result<(), IdentityError>)
        ensures
            r == if crypto::signature_holds(
                self.key@,
                auth_message(nonce@, server_cert_hash@),
                signature@,
            ) {
                Ok::<(), IdentityError>(())
            } else {
                Err::<(), IdentityError>(IdentityError::BadSignature)
            },
    {
        let challenge: Vec<u8> = auth_challenge(nonce, server_cert_hash);
        match crypto::ed25519_verify(&self.key, &challenge, signature) {
            Ok(()) => Ok(()),
            Err(_) => Err(IdentityError::BadSignature),
        }
    }

    /// Checks a server's attestation: the signature must cover this nonce,
    /// this certificate and this name.
    pub fn verify_server_hello(
        &self,
        nonce: &[u8; 32],
        server_cert_hash: &[u8; 32],
        server_name: &str,
        signature: &[u8; 64],
    ) -> (r: Result<(), IdentityError>)
        ensures
            r == if crypto::signature_holds(
                self.key@,
                server_hello_message(nonce@, server_cert_hash@, server_name@),
                signature@,
            ) {
                Ok::<(), IdentityError>(())
            } else {
                Err::<(), IdentityError>(IdentityError::BadSignature)
            },
    {
        let challenge: Vec<u8> = server_hello_challenge(nonce, server_cert_hash, server_name);
        match crypto::ed25519_verify(&self.key, &challenge, signature) {
            Ok(()) => Ok(()),
            Err(_) => Err(IdentityError::BadSignature),
        }
    }
}

/// A full identity, private key included. A server has the same kind of
/// identity as a user, which lets a client pin a server across certificate
/// rotations.
pub struct Identity {
    secret: [u8; 32],
    counter: u64,
}

impl Identity {
    /// The private key.
    pub closed spec fn secret(&self) -> Seq<u8> {
        self.secret@
    }

    /// The public key.
    pub open spec fn public_key(&self) -> Seq<u8> {
        crypto::public_key_of(self.secret())
    }

    /// The proof-of-work witness.
    pub closed spec fn witness(&self) -> u64 {
        self.counter
    }

    /// A fresh identity at counter zero. Its key comes from the operating
    /// system's randomness.
    pub fn generate() -> (r: Self)
        ensures
            r.witness() == 0,
            r.secret().len() == 32,
    {
        Identity { secret: crypto::ed25519_generate(), counter: 0 }
    }

    /// The identity of a stored private key.
    pub fn from_secret_bytes(secret: &[u8; 32], counter: u64) -> (r: Self)
        ensures
            r.secret() == secret@,
            r.witness() == counter,
    {
        Identity { secret: *secret, counter }
    }

    /// The private key, for storing.
    pub fn secret_bytes(&self) -> (secret: [u8; 32])
        ensures
            secret@ == self.secret(),
    {
        self.secret
    }

    /// The public half.
    pub fn public(&self) -> (r: PublicIdentity)
        ensures
            r.key@ == self.public_key(),
            r.counter == self.witness(),
            crypto::is_public_key(r.key@),
    {
        PublicIdentity { key: crypto::ed25519_public_key(&self.secret), counter: self.counter }
    }

    /// The fingerprint of the public key.
    pub fn fingerprint(&self) -> (r: Fingerprint)
        ensures
            r.0@ == crypto::sha256_of(self.public_key()),
            r == fingerprint_with(crypto::sha256_of(self.public_key())),
    {
        Fingerprint::of(&crypto::ed25519_public_key(&self.secret))
    }

    /// The proof-of-work witness.
    pub fn counter(&self) -> (r: u64)
        ensures
            r == self.witness(),
    {
        self.counter
    }

    /// The level that the witness earns.
    pub fn security_level(&self) -> (level: u32)
        ensures
            level as nat == pow::level_of(self.public_key(), self.witness()),
    {
        pow::security_level(&crypto::ed25519_public_key(&self.secret), self.counter)
    }

    /// Searches for a counter reaching `target_level`, keeping the result.
    ///
    /// The keypair is unchanged, so the fingerprint survives and only the
    /// witness improves: permissions that servers granted are kept.
    pub fn mine<F: FnMut(MineProgress) -> bool>(
        &mut self,
        target_level: u32,
        progress: &mut F,
    ) -> (report: MineReport)
        requires
            forall|p: MineProgress| #[trigger] call_requires(*old(progress), (p,)),
        ensures
            pow::is_report(old(self).public_key(), old(self).witness(), target_level, report),
            pow::was_asked(
                old(self).public_key(),
                old(self).witness(),
                target_level,
                *old(progress),
                report,
            ),
            final(self).secret() == old(self).secret(),
            final(self).witness() == if report.level > pow::level_of(
                old(self).public_key(),
                old(self).witness(),
            ) {
                report.counter
            } else {
                old(self).witness()
            },
    {
        let key: [u8; 32] = crypto::ed25519_public_key(&self.secret);
        let report: MineReport = pow::mine(&key, self.counter, target_level, progress);
        if report.level > self.security_level() {
            self.counter = report.counter;
        }
        report
    }

    /// Signs a server's login challenge.
    ///
    /// The certificate hash is mixed in, so the signature is only good for the
    /// connection it was made on; otherwise a server could relay a client's
    /// answer to a third server and log in as them.
    pub fn sign_auth(&self, nonce: &[u8; 32], server_cert_hash: &[u8; 32]) -> (signature: [u8; 64])
        ensures
            signature@ == crypto::signature_of(
                self.secret(),
                auth_message(nonce@, server_cert_hash@),
            ),
            crypto::signature_holds(
                self.public_key(),
                auth_message(nonce@, server_cert_hash@),
                signature@,
            ),
    {
        let challenge: Vec<u8> = auth_challenge(nonce, server_cert_hash);
        crypto::ed25519_sign(&self.secret, &challenge)
    }

    /// Signs a server's own attestation.
    pub fn sign_server_hello(
        &self,
        nonce: &[u8; 32],
        server_cert_hash: &[u8; 32],
        server_name: &str,
    ) -> (signature: [u8; 64])
        ensures
            signature@ == crypto::signature_of(
                self.secret(),
                server_hello_message(nonce@, server_cert_hash@, server_name@),
            ),
            crypto::signature_holds(
                self.public_key(),
                server_hello_message(nonce@, server_cert_hash@, server_name@),
                signature@,
            ),
    {
        let challenge: Vec<u8> = server_hello_challenge(nonce, server_cert_hash, server_name);
        crypto::ed25519_sign(&self.secret, &challenge)
    }
}

/// A login challenge belongs to one nonce and one certificate: no other pair
/// makes the same octets, so a signature made for one connection is a
/// signature over nothing else.
pub proof fn law_auth_challenge_is_bound(n1: Seq<u8>, c1: Seq<u8>, n2: Seq<u8>, c2: Seq<u8>)
    requires
        n1.len() == 32,
        c1.len() == 32,
        n2.len() == 32,
        c2.len() == 32,
        auth_message(n1, c1) == auth_message(n2, c2),
    ensures
        n1 == n2,
        c1 == c2,
{
    let k = auth_context().len() as int;
    let a = auth_message(n1, c1);
    let b = auth_message(n2, c2);
    assert(a.subrange(k, k + 32) =~= n1);
    assert(b.subrange(k, k + 32) =~= n2);
    assert(a.subrange(k + 32, k + 64) =~= c1);
    assert(b.subrange(k + 32, k + 64) =~= c2);
}

/// An attestation challenge belongs to one nonce, one certificate and one
/// server name.
pub proof fn law_server_hello_challenge_is_bound(
    n1: Seq<u8>,
    c1: Seq<u8>,
    s1: Seq<char>,
    n2: Seq<u8>,
    c2: Seq<u8>,
    s2: Seq<char>,
)
    requires
        n1.len() == 32,
        c1.len() == 32,
        n2.len() == 32,
        c2.len() == 32,
        server_hello_message(n1, c1, s1) == server_hello_message(n2, c2, s2),
    ensures
        n1 == n2,
        c1 == c2,
        s1 == s2,
{
    let k = server_hello_context().len() as int;
    let a = server_hello_message(n1, c1, s1);
    let b = server_hello_message(n2, c2, s2);
    octets::lemma_le_bytes_len(vstd::utf8::encode_utf8(s1).len(), 8);
    octets::lemma_le_bytes_len(vstd::utf8::encode_utf8(s2).len(), 8);
    assert(a.subrange(k, k + 32) =~= n1);
    assert(b.subrange(k, k + 32) =~= n2);
    assert(a.subrange(k + 32, k + 64) =~= c1);
    assert(b.subrange(k + 32, k + 64) =~= c2);
    assert(a.skip(k + 72) =~= vstd::utf8::encode_utf8(s1));
    assert(b.skip(k + 72) =~= vstd::utf8::encode_utf8(s2));
    vstd::utf8::encode_utf8_decode_utf8(s1);
    vstd::utf8::encode_utf8_decode_utf8(s2);
}

/// A login signature is never an attestation: the two challenges differ for
/// every nonce, certificate and name.
pub proof fn law_contexts_are_distinct(
    n1: Seq<u8>,
    c1: Seq<u8>,
    n2: Seq<u8>,
    c2: Seq<u8>,
    name: Seq<char>,
)
    requires
        n1.len() == 32,
        c1.len() == 32,
    ensures
        auth_message(n1, c1) != server_hello_message(n2, c2, name),
{
    reveal_strlit("pickle-auth-v1");
    reveal_strlit("pickle-server-hello-v1");
    vstd::utf8::is_ascii_chars_encode_utf8("pickle-auth-v1"@);
    vstd::utf8::is_ascii_chars_encode_utf8("pickle-server-hello-v1"@);
    let a = auth_message(n1, c1);
    let b = server_hello_message(n2, c2, name);
    assert(a[7] == 'a' as u8);
    assert(b[7] == 's' as u8);
}

/// What a client signs to log in: its context, the nonce and the certificate
/// hash, 78 octets and nothing else.
pub proof fn law_a_login_challenge_octet_by_octet(nonce: Seq<u8>, cert_hash: Seq<u8>)
    requires
        nonce.len() == 32,
        cert_hash.len() == 32,
    ensures
        ({
            let m = auth_message(nonce, cert_hash);
            &&& m.len() == 78
            &&& m.take(14) == vstd::utf8::encode_utf8("pickle-auth-v1"@)
            &&& m.subrange(14, 46) == nonce
            &&& m.skip(46) == cert_hash
        }),
{
    reveal_strlit("pickle-auth-v1");
    vstd::utf8::is_ascii_chars_encode_utf8("pickle-auth-v1"@);
    let m = auth_message(nonce, cert_hash);
    assert(m.take(14) =~= vstd::utf8::encode_utf8("pickle-auth-v1"@));
    assert(m.subrange(14, 46) =~= nonce);
    assert(m.skip(46) =~= cert_hash);
}

/// What a server signs to attest itself: its context, the nonce, the certificate
/// hash, and its name behind the length of the name in eight octets.
pub proof fn law_an_attestation_octet_by_octet(
    nonce: Seq<u8>,
    cert_hash: Seq<u8>,
    name: Seq<char>,
)
    requires
        nonce.len() == 32,
        cert_hash.len() == 32,
        vstd::utf8::encode_utf8(name).len() < 0x1_0000_0000_0000_0000,
    ensures
        ({
            let m = server_hello_message(nonce, cert_hash, name);
            let octets = vstd::utf8::encode_utf8(name);
            &&& m.len() == 94 + octets.len()
            &&& m.take(22) == vstd::utf8::encode_utf8("pickle-server-hello-v1"@)
            &&& m.subrange(22, 54) == nonce
            &&& m.subrange(54, 86) == cert_hash
            &&& octets::le_value(m.subrange(86, 94)) == octets.len()
            &&& m.skip(94) == octets
        }),
{
    reveal_strlit("pickle-server-hello-v1");
    vstd::utf8::is_ascii_chars_encode_utf8("pickle-server-hello-v1"@);
    let m = server_hello_message(nonce, cert_hash, name);
    let n = vstd::utf8::encode_utf8(name);
    octets::lemma_le_bytes_len(n.len(), 8);
    octets::lemma_le_limits();
    octets::lemma_le_round_trip(n.len(), 8);
    assert(m.take(22) =~= vstd::utf8::encode_utf8("pickle-server-hello-v1"@));
    assert(m.subrange(22, 54) =~= nonce);
    assert(m.subrange(54, 86) =~= cert_hash);
    assert(m.subrange(86, 94) =~= octets::le_bytes(n.len(), 8));
    assert(m.skip(94) =~= n);
}

/// Dropping filler keeps every other character, in order, and nothing else; and
/// what counts as filler is white space and the hyphen.
pub proof fn law_only_filler_is_dropped(s: Seq<char>)
    ensures
        without_filler(s) == s.filter(|c: char| !text::is_white_space(c) && c != '-'),
    decreases s.len(),
{
    reveal(Seq::filter);
    if s.len() > 0 {
        law_only_filler_is_dropped(s.drop_last());
    }
}

/// A fingerprint is shown as its symbols in small letters, a hyphen behind every
/// four; its short form is the first twelve symbols, shown so.
pub proof fn law_a_fingerprint_symbol_by_symbol(digest: Seq<u8>, i: int)
    requires
        crypto::base32_of(digest).len() == 52,
        0 <= i < 64,
    ensures
        fingerprint_text(digest).len() == 64,
        fingerprint_short(digest).len() == 14,
        fingerprint_text(digest)[i] == if i % 5 == 4 {
            '-'
        } else {
            text::lower_char(crypto::base32_of(digest)[i - i / 5])
        },
        i < 14 ==> fingerprint_short(digest)[i] == fingerprint_text(digest)[i],
{
    let s = fingerprint_symbols(digest);
    text::law_fours_are_hyphenated(s, '-', i);
    text::law_fours_are_hyphenated(s.take(12), '-', i);
}


/// A text names a digest exactly when what is left of it without filler, in
/// capitals, is 52 octets long and is base32 for 32 octets; it names those.
pub proof fn law_which_text_names_a_digest(s: Seq<char>)
    ensures
        ({
            let symbols = vstd::utf8::encode_utf8(
                text::uppered(text::ascii_uppered(without_filler(s))),
            );
            &&& parsed_fingerprint(s) is Some <==> symbols.len() == 52 && crypto::base32_octets(
                symbols,
            ) is Some && (crypto::base32_octets(symbols)->0).len() == 32
            &&& parsed_fingerprint(s) matches Some(digest) ==> digest.len() == 32
                && crypto::base32_octets(symbols) == Some(digest)
        }),
{
}
} // verus!
