//! The primitives that identities rest on, each named by what it computes.

use argon2::{Algorithm, Argon2, Params, Version};
use chacha20poly1305::aead::{Aead, Payload};
use chacha20poly1305::{Key, KeyInit, XChaCha20Poly1305, XNonce};
use data_encoding::{DecodeError, BASE32_NOPAD, BASE64};
use ed25519_dalek::{Signature, SignatureError, Signer, SigningKey, Verifier, VerifyingKey};
use rand::RngCore;
use sha2::{Digest, Sha256};
use vstd::prelude::*;
use zeroize::Zeroize;

verus! {

/// The error of a base32 or base64 decoder.
#[verifier::external_type_specification]
#[verifier::external_body]
pub struct ExDecodeError(DecodeError);

/// The error of an Ed25519 key or signature check.
#[verifier::external_type_specification]
#[verifier::external_body]
pub struct ExSignatureError(SignatureError);

/// The SHA-256 digest of these octets.
pub uninterp spec fn sha256_of(data: Seq<u8>) -> Seq<u8>;

/// The Ed25519 public key that belongs to a secret key.
pub uninterp spec fn public_key_of(secret: Seq<u8>) -> Seq<u8>;

/// The Ed25519 signature of a message under a secret key.
pub uninterp spec fn signature_of(secret: Seq<u8>, message: Seq<u8>) -> Seq<u8>;

/// Whether 32 octets are the encoding of an Ed25519 public key.
pub uninterp spec fn is_public_key(key: Seq<u8>) -> bool;

/// Whether a signature over a message is valid under a public key.
pub uninterp spec fn signature_holds(key: Seq<u8>, message: Seq<u8>, signature: Seq<u8>) -> bool;

/// The unpadded base32 text of these octets.
pub uninterp spec fn base32_of(data: Seq<u8>) -> Seq<char>;

/// The octets that an unpadded base32 text spells, if it spells any.
pub uninterp spec fn base32_octets(text: Seq<u8>) -> Option<Seq<u8>>;

/// The symbols of base32: `A` to `Z` and `2` to `7`.
pub open spec fn is_base32_symbol(c: char) -> bool {
    'A' <= c <= 'Z' || '2' <= c <= '7'
}

/// `Sha256::digest`: the digest of the whole input.
#[verifier::external_body]
pub(crate) fn sha256(data: &[u8]) -> (digest: [u8; 32])
    ensures
        digest@ == sha256_of(data@),
{
    Sha256::digest(data).into()
}

/// `SigningKey::verifying_key`: the public key of a secret key. Such a key
/// always decodes again.
#[verifier::external_body]
pub(crate) fn ed25519_public_key(secret: &[u8; 32]) -> (key: [u8; 32])
    ensures
        key@ == public_key_of(secret@),
        is_public_key(key@),
{
    SigningKey::from_bytes(secret).verifying_key().to_bytes()
}

/// `Signer::sign` on a `SigningKey`. Signing is deterministic, and what it
/// returns is valid under the matching public key.
#[verifier::external_body]
pub(crate) fn ed25519_sign(secret: &[u8; 32], message: &[u8]) -> (signature: [u8; 64])
    ensures
        signature@ == signature_of(secret@, message@),
        signature_holds(public_key_of(secret@), message@, signature@),
{
    SigningKey::from_bytes(secret).sign(message).to_bytes()
}

/// `VerifyingKey::from_bytes`: refuses octets that encode no curve point.
#[verifier::external_body]
pub(crate) fn ed25519_check_key(key: &[u8; 32]) -> (r: Result<(), SignatureError>)
    ensures
        r is Ok == is_public_key(key@),
{
    VerifyingKey::from_bytes(key).map(|_| ())
}

/// `Verifier::verify` on the key that these octets encode. Octets that encode
/// no key verify nothing.
#[verifier::external_body]
pub(crate) fn ed25519_verify(key: &[u8; 32], message: &[u8], signature: &[u8; 64]) -> (r: Result<
    (),
    SignatureError,
>)
    ensures
        r is Ok == signature_holds(key@, message@, signature@),
        !is_public_key(key@) ==> r is Err,
{
    VerifyingKey::from_bytes(key)?.verify(message, &Signature::from_bytes(signature))
}

/// `SigningKey::generate` from the operating system's randomness: any secret
/// may come back.
#[verifier::external_body]
pub(crate) fn ed25519_generate() -> [u8; 32] {
    SigningKey::generate(&mut rand::rngs::OsRng).to_bytes()
}

/// `BASE32_NOPAD.encode`: five bits a symbol, and decoding gives the octets
/// back. It panics on inputs that no memory holds, which `requires` leaves
/// out.
#[verifier::external_body]
pub(crate) fn base32_encode(data: &[u8]) -> (text: String)
    requires
        data@.len() <= usize::MAX / 512,
    ensures
        text@ == base32_of(data@),
        text@.len() == (data@.len() * 8 + 4) / 5,
        forall|i: int| 0 <= i < text@.len() ==> is_base32_symbol(#[trigger] text@[i]),
        base32_octets(vstd::utf8::encode_utf8(text@)) == Some(data@),
{
    BASE32_NOPAD.encode(data)
}

/// `BASE32_NOPAD.decode`: the octets, or an error for a symbol, a length or
/// trailing bits that no encoding has. It panics on inputs that no memory
/// holds, which `requires` leaves out.
#[verifier::external_body]
pub(crate) fn base32_decode(text: &[u8]) -> (r: Result<Vec<u8>, DecodeError>)
    requires
        text@.len() <= usize::MAX / 8,
    ensures
        match r {
            Ok(v) => base32_octets(text@) == Some(v@),
            Err(_) => base32_octets(text@) is None,
        },
{
    BASE32_NOPAD.decode(text)
}

/// The error of the authenticated cipher.
#[verifier::external_type_specification]
#[verifier::external_body]
pub struct ExAeadError(chacha20poly1305::Error);

/// The padded base64 text of these octets.
pub uninterp spec fn base64_of(data: Seq<u8>) -> Seq<char>;

/// The octets that a padded base64 text spells, if it spells any.
pub uninterp spec fn base64_octets(text: Seq<u8>) -> Option<Seq<u8>>;

/// The 32 octets that Argon2id (version 19) derives under parameters that it
/// takes.
pub uninterp spec fn argon2id_key(
    memory_kib: u32,
    iterations: u32,
    parallelism: u32,
    password: Seq<u8>,
    salt: Seq<u8>,
) -> Seq<u8>;

/// The XChaCha20-Poly1305 ciphertext, tag included.
pub uninterp spec fn xchacha_sealed(
    key: Seq<u8>,
    nonce: Seq<u8>,
    aad: Seq<u8>,
    plaintext: Seq<u8>,
) -> Seq<u8>;

/// The plaintext that a ciphertext authenticates to, if it does.
pub uninterp spec fn xchacha_opened(
    key: Seq<u8>,
    nonce: Seq<u8>,
    aad: Seq<u8>,
    ciphertext: Seq<u8>,
) -> Option<Seq<u8>>;

/// Whether Argon2id takes costs and lengths: eight blocks a lane, one pass, one
/// lane, and a password and a salt of an allowed length.
pub open spec fn argon2id_takes(
    memory_kib: u32,
    iterations: u32,
    parallelism: u32,
    password_len: nat,
    salt_len: nat,
) -> bool {
    &&& memory_kib >= 8
    &&& memory_kib >= 8 * parallelism
    &&& iterations >= 1
    &&& parallelism >= 1
    &&& password_len <= u32::MAX
    &&& 8 <= salt_len <= u32::MAX
}

/// Octets in an XChaCha20-Poly1305 nonce.
pub const NONCE_LEN: usize = 24;

/// The longest message of XChaCha20-Poly1305: 64 octets a block, and one block
/// of the key stream goes into the tag.
pub const MAX_MESSAGE_LEN: u64 = 274877906816;

/// Octets that the authentication tag adds.
pub const TAG_LEN: usize = 16;

/// `BASE64.encode`. Decoding gives the octets back, and the text is four
/// symbols for every three octets begun. It panics on inputs that no memory
/// holds, which `requires` leaves out.
#[verifier::external_body]
pub(crate) fn base64_encode(data: &[u8]) -> (text: String)
    requires
        data@.len() <= usize::MAX / 512,
    ensures
        text@ == base64_of(data@),
        base64_octets(vstd::utf8::encode_utf8(text@)) == Some(data@),
        vstd::utf8::encode_utf8(text@).len() == (data@.len() + 2) / 3 * 4,
{
    BASE64.encode(data)
}

/// `BASE64.decode`: the octets, or an error for a symbol, a length or padding
/// that no encoding has. It panics on inputs that no memory holds, which
/// `requires` leaves out.
#[verifier::external_body]
pub(crate) fn base64_decode(text: &[u8]) -> (r: Result<Vec<u8>, DecodeError>)
    requires
        text@.len() <= usize::MAX / 8,
    ensures
        match r {
            Ok(v) => base64_octets(text@) == Some(v@),
            Err(_) => base64_octets(text@) is None,
        },
{
    BASE64.decode(text)
}

/// What `argon2::Error` says of refused costs or lengths, in the order in which
/// they are looked at.
pub open spec fn argon2id_complaint(
    memory_kib: u32,
    iterations: u32,
    parallelism: u32,
    password_len: nat,
    salt_len: nat,
) -> Seq<char> {
    if memory_kib < 8 || memory_kib < 8 * parallelism {
        "memory cost is too small"@
    } else if iterations < 1 {
        "time cost is too small"@
    } else if parallelism < 1 {
        "not enough threads"@
    } else if password_len > u32::MAX {
        "password is too long"@
    } else if salt_len < 8 {
        "salt is too short"@
    } else {
        "salt is too long"@
    }
}

/// `Argon2::hash_password_into` for Argon2id, version 19 and 32 octets, with
/// parameters checked by `Params::new`. It takes every cost from one pass and
/// eight blocks a lane up, and every password and salt of an allowed length;
/// what it refuses it refuses with the `Display` text of its error. `requires`
/// leaves out what would overflow or exhaust the address space.
#[verifier::external_body]
pub(crate) fn argon2id(
    memory_kib: u32,
    iterations: u32,
    parallelism: u32,
    password: &[u8],
    salt: &[u8],
) -> (r: Result<[u8; 32], String>)
    requires
        memory_kib <= 0x10_0000,
        parallelism <= 0x1fff_ffff,
    ensures
        r is Ok == argon2id_takes(memory_kib, iterations, parallelism, password@.len(), salt@.len()),
        r matches Ok(key) ==> key@ == argon2id_key(
            memory_kib,
            iterations,
            parallelism,
            password@,
            salt@,
        ),
        r matches Err(why) ==> why@ == argon2id_complaint(
            memory_kib,
            iterations,
            parallelism,
            password@.len(),
            salt@.len(),
        ),
{
    let params = Params::new(memory_kib, iterations, parallelism, Some(32))
        .map_err(|e| e.to_string())?;
    let mut key = [0u8; 32];
    Argon2::new(Algorithm::Argon2id, Version::V0x13, params)
        .hash_password_into(password, salt, &mut key)
        .map_err(|e| e.to_string())?;
    Ok(key)
}

/// `Aead::encrypt` on `XChaCha20Poly1305`: the ciphertext is a tag longer than
/// the plaintext and decrypts to it. It panics on a nonce of another length,
/// past the end of the key stream and where no memory could hold the result,
/// which `requires` leaves out.
#[verifier::external_body]
pub(crate) fn xchacha_encrypt(key: &[u8; 32], nonce: &[u8], aad: &[u8], plaintext: &[u8]) -> (r:
    Result<Vec<u8>, chacha20poly1305::Error>)
    requires
        nonce@.len() == NONCE_LEN,
        plaintext@.len() <= MAX_MESSAGE_LEN,
        plaintext@.len() + TAG_LEN <= isize::MAX,
    ensures
        r is Ok,
        r matches Ok(c) ==> c@ == xchacha_sealed(key@, nonce@, aad@, plaintext@) && c@.len()
            == plaintext@.len() + TAG_LEN && xchacha_opened(key@, nonce@, aad@, c@) == Some(
            plaintext@,
        ),
{
    XChaCha20Poly1305::new(&Key::from(*key)).encrypt(
        XNonce::from_slice(nonce),
        Payload { msg: plaintext, aad },
    )
}

/// `Aead::decrypt` on `XChaCha20Poly1305`: the plaintext, or an error when the
/// tag does not match. It panics on a nonce of another length, and past the end
/// of the key stream, which `requires` leaves out.
#[verifier::external_body]
pub(crate) fn xchacha_decrypt(key: &[u8; 32], nonce: &[u8], aad: &[u8], ciphertext: &[u8]) -> (r:
    Result<Vec<u8>, chacha20poly1305::Error>)
    requires
        nonce@.len() == NONCE_LEN,
        ciphertext@.len() <= MAX_MESSAGE_LEN + TAG_LEN,
    ensures
        match r {
            Ok(p) => xchacha_opened(key@, nonce@, aad@, ciphertext@) == Some(p@),
            Err(_) => xchacha_opened(key@, nonce@, aad@, ciphertext@) is None,
        },
{
    XChaCha20Poly1305::new(&Key::from(*key)).decrypt(
        XNonce::from_slice(nonce),
        Payload { msg: ciphertext, aad },
    )
}

/// `Zeroize::zeroize` on a vector: its octets are overwritten with zeros, and it
/// is emptied. What the memory holds afterwards is not stated.
#[verifier::external_body]
pub(crate) fn wipe(octets: &mut Vec<u8>)
    ensures
        final(octets)@ == Seq::<u8>::empty(),
{
    octets.zeroize();
}

/// `OsRng::fill_bytes` over a new buffer: any octets may come back.
#[verifier::external_body]
pub(crate) fn random_octets(len: usize) -> (r: Vec<u8>)
    requires
        len <= isize::MAX,
    ensures
        r@.len() == len,
{
    let mut r = vec![0u8; len];
    rand::rngs::OsRng.fill_bytes(&mut r);
    r
}

/// The octets of a base64 text; none past what the decoder takes.
pub open spec fn base64_decoded(text: Seq<char>) -> Option<Seq<u8>> {
    let symbols = vstd::utf8::encode_utf8(text);
    if symbols.len() <= usize::MAX / 8 {
        base64_octets(symbols)
    } else {
        None
    }
}

/// Decodes a base64 text.
pub fn decode_base64(text: &str) -> (r: Option<Vec<u8>>)
    ensures
        match r {
            Some(v) => base64_decoded(text@) == Some(v@),
            None => base64_decoded(text@) is None,
        },
{
    let symbols: &[u8] = text.as_bytes();
    if symbols.len() > usize::MAX / 8 {
        return None;
    }
    match base64_decode(symbols) {
        Ok(v) => Some(v),
        Err(_) => None,
    }
}

/// Encodes octets as base64. Decoding gives them back.
pub fn encode_base64(data: &[u8]) -> (text: String)
    requires
        data@.len() <= usize::MAX / 512,
    ensures
        text@ == base64_of(data@),
        base64_decoded(text@) == Some(data@),
{
    base64_encode(data)
}

} // verus!
