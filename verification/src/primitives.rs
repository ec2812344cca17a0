//! The calls into the cipher, hashing and randomness crates.
//!
//! Nothing in this file is proved: each function states what the crate behind
//! it documents, and the rest of the library is verified against those
//! statements.
use vstd::prelude::*;
use vstd::bytes::spec_u128_from_le_bytes;

verus! {

/// What sealing with XChaCha20-Poly1305, as the last message of an LE31
/// stream, returns for a 32-byte key and a 20-byte stream nonce: the
/// ciphertext followed by its tag, or `None` where the cipher refuses.
pub uninterp spec fn xchacha20poly1305_seal(
    key: Seq<u8>,
    nonce: Seq<u8>,
    msg: Seq<u8>,
    aad: Seq<u8>,
) -> Option<Seq<u8>>;

/// What opening with XChaCha20-Poly1305, as the last message of an LE31
/// stream, returns: the plaintext, or `None` where authentication fails.
pub uninterp spec fn xchacha20poly1305_open(
    key: Seq<u8>,
    nonce: Seq<u8>,
    ciphertext: Seq<u8>,
    aad: Seq<u8>,
) -> Option<Seq<u8>>;

/// What sealing with AES-256-GCM-SIV returns for a 32-byte key and a 12-byte
/// nonce: the ciphertext followed by its tag, or `None` where the cipher
/// refuses.
pub uninterp spec fn aes256gcmsiv_seal(
    key: Seq<u8>,
    nonce: Seq<u8>,
    msg: Seq<u8>,
    aad: Seq<u8>,
) -> Option<Seq<u8>>;

/// What opening with AES-256-GCM-SIV returns: the plaintext, or `None` where
/// authentication fails.
pub uninterp spec fn aes256gcmsiv_open(
    key: Seq<u8>,
    nonce: Seq<u8>,
    ciphertext: Seq<u8>,
    aad: Seq<u8>,
) -> Option<Seq<u8>>;

/// The 32 bytes that BLAKE3's key derivation mode gives for a context string
/// and key material.
pub uninterp spec fn blake3_derive_key(context: Seq<char>, material: Seq<u8>) -> Seq<u8>;

/// The 32-byte Argon2id (version 0x13) hash of a password under a salt and
/// cost parameters, or `None` where the parameters or the salt are refused.
pub uninterp spec fn argon2id_hash(
    password: Seq<u8>,
    salt: Seq<u8>,
    m_cost: u32,
    t_cost: u32,
    p_cost: u32,
) -> Option<Seq<u8>>;

/// Calls `EncryptorLE31::<XChaCha20Poly1305>::new` and `encrypt_last` of the
/// `aead` stream module. Trusted: the result is the named sealing of the
/// arguments; it is the message's length and a 16-byte tag long; and what was
/// sealed opens again, under the same key, nonce and associated data, to the
/// message.
#[verifier::external_body]
pub(crate) fn xchacha_seal(key: &[u8], nonce: &[u8], msg: &[u8], aad: &[u8]) -> (r: Option<Vec<u8>>)
    requires
        key@.len() == 32,
        nonce@.len() == 20,
    ensures
        r matches Some(c) ==> xchacha20poly1305_seal(key@, nonce@, msg@, aad@) == Some(c@)
            && xchacha20poly1305_open(key@, nonce@, c@, aad@) == Some(msg@) && c@.len()
            == msg@.len() + 16,
        r is None ==> xchacha20poly1305_seal(key@, nonce@, msg@, aad@) is None,
{
    let k = aead::generic_array::GenericArray::from_slice(key);
    let n = aead::generic_array::GenericArray::from_slice(nonce);
    let stream = aead::stream::EncryptorLE31::<chacha20poly1305::XChaCha20Poly1305>::new(k, n);
    stream.encrypt_last(aead::Payload { msg, aad }).ok()
}

/// Calls `DecryptorLE31::<XChaCha20Poly1305>::new` and `decrypt_last` of the
/// `aead` stream module. Trusted: the result is the named opening of the
/// arguments, and a plaintext is the ciphertext's length less the 16-byte tag
/// long.
#[verifier::external_body]
pub(crate) fn xchacha_open(key: &[u8], nonce: &[u8], ciphertext: &[u8], aad: &[u8]) -> (r: Option<Vec<u8>>)
    requires
        key@.len() == 32,
        nonce@.len() == 20,
    ensures
        r matches Some(p) ==> xchacha20poly1305_open(key@, nonce@, ciphertext@, aad@) == Some(p@)
            && p@.len() + 16 == ciphertext@.len(),
        r is None ==> xchacha20poly1305_open(key@, nonce@, ciphertext@, aad@) is None,
{
    let k = aead::generic_array::GenericArray::from_slice(key);
    let n = aead::generic_array::GenericArray::from_slice(nonce);
    let stream = aead::stream::DecryptorLE31::<chacha20poly1305::XChaCha20Poly1305>::new(k, n);
    stream.decrypt_last(aead::Payload { msg: ciphertext, aad }).ok()
}

/// Calls `Aes256GcmSiv::new` and `Aead::encrypt` of `aes-gcm-siv`. Trusted:
/// the result is the named sealing of the arguments; it is the message's
/// length and a 16-byte tag long; and what was sealed opens again, under the
/// same key, nonce and associated data, to the message.
#[verifier::external_body]
pub(crate) fn aes_siv_seal(key: &[u8], nonce: &[u8], msg: &[u8], aad: &[u8]) -> (r: Option<Vec<u8>>)
    requires
        key@.len() == 32,
        nonce@.len() == 12,
    ensures
        r matches Some(c) ==> aes256gcmsiv_seal(key@, nonce@, msg@, aad@) == Some(c@)
            && aes256gcmsiv_open(key@, nonce@, c@, aad@) == Some(msg@) && c@.len() == msg@.len()
            + 16,
        r is None ==> aes256gcmsiv_seal(key@, nonce@, msg@, aad@) is None,
{
    let k = aead::generic_array::GenericArray::from_slice(key);
    let n = aead::generic_array::GenericArray::from_slice(nonce);
    let cipher = <aes_gcm_siv::Aes256GcmSiv as aead::KeyInit>::new(k);
    aead::Aead::encrypt(&cipher, n, aead::Payload { msg, aad }).ok()
}

/// Calls `Aes256GcmSiv::new` and `Aead::decrypt` of `aes-gcm-siv`. Trusted:
/// the result is the named opening of the arguments, and a plaintext is the
/// ciphertext's length less the 16-byte tag long.
#[verifier::external_body]
pub(crate) fn aes_siv_open(key: &[u8], nonce: &[u8], ciphertext: &[u8], aad: &[u8]) -> (r: Option<Vec<u8>>)
    requires
        key@.len() == 32,
        nonce@.len() == 12,
    ensures
        r matches Some(p) ==> aes256gcmsiv_open(key@, nonce@, ciphertext@, aad@) == Some(p@)
            && p@.len() + 16 == ciphertext@.len(),
        r is None ==> aes256gcmsiv_open(key@, nonce@, ciphertext@, aad@) is None,
{
    let k = aead::generic_array::GenericArray::from_slice(key);
    let n = aead::generic_array::GenericArray::from_slice(nonce);
    let cipher = <aes_gcm_siv::Aes256GcmSiv as aead::KeyInit>::new(k);
    aead::Aead::decrypt(&cipher, n, aead::Payload { msg: ciphertext, aad }).ok()
}

/// Calls `blake3::derive_key`. Trusted: the result is the named derivation of
/// the arguments, and it is 32 bytes long, as the function's return type says.
#[verifier::external_body]
pub(crate) fn blake3_derive(context: &str, material: &[u8]) -> (out: Vec<u8>)
    ensures
        out@ == blake3_derive_key(context@, material@),
        out@.len() == 32,
{
    blake3::derive_key(context, material).to_vec()
}

/// Calls `Argon2::hash_password_into` of `argon2` with Argon2id, version 0x13
/// and a 32-byte output. Trusted: the result is the named hash of the
/// arguments, and a hash that is returned fills the 32-byte buffer handed in.
#[verifier::external_body]
pub(crate) fn argon2id(password: &[u8], salt: &[u8], m_cost: u32, t_cost: u32, p_cost: u32) -> (r: Option<Vec<u8>>)
    requires
        p_cost <= 0xff_ffff,
    ensures
        r matches Some(h) ==> argon2id_hash(password@, salt@, m_cost, t_cost, p_cost) == Some(h@)
            && h@.len() == 32,
        r is None ==> argon2id_hash(password@, salt@, m_cost, t_cost, p_cost) is None,
{
    let params = argon2::Params::new(m_cost, t_cost, p_cost, Some(32)).ok()?;
    let hasher = argon2::Argon2::new(argon2::Algorithm::Argon2id, argon2::Version::V0x13, params);
    let mut out = vec![0u8; 32];
    hasher.hash_password_into(password, salt, &mut out).ok()?;
    Some(out)
}

/// Calls `RngCore::try_fill_bytes` on `rand::rngs::OsRng`. Trusted: bytes that
/// are returned are as many as were asked for. Nothing is said of their
/// values, and the operating system may refuse.
#[verifier::external_body]
pub(crate) fn random_bytes(n: usize) -> (r: Option<Vec<u8>>)
    ensures
        r matches Some(v) ==> v@.len() == n,
{
    let mut buf = vec![0u8; n];
    rand::RngCore::try_fill_bytes(&mut rand::rngs::OsRng, &mut buf).ok()?;
    Some(buf)
}

/// The identifier that 16 bytes give once the bits of version 4 and of the
/// RFC 4122 variant are set in them: the bytes read as one integer, the first
/// byte the most significant.
pub open spec fn spec_uuid_v4(bytes: Seq<u8>) -> u128 {
    let marked = bytes.update(6, (bytes[6] & 0x0f) | 0x40).update(8, (bytes[8] & 0x3f) | 0x80);
    spec_u128_from_le_bytes(marked.reverse())
}

/// Calls `Builder::from_random_bytes` of `uuid` and hands the identifier out
/// as an integer. Trusted: the result is the 16 bytes with the version and
/// variant bits set, read as a big-endian integer.
#[verifier::external_body]
pub(crate) fn uuid_from_random_bytes(bytes: &[u8]) -> (id: u128)
    requires
        bytes@.len() == 16,
    ensures
        id == spec_uuid_v4(bytes@),
{
    let mut raw = [0u8; 16];
    raw.copy_from_slice(bytes);
    uuid::Builder::from_random_bytes(raw).into_uuid().as_u128()
}

/// Calls `Zeroize::zeroize` of `zeroize` on a vector: every byte of it,
/// spare capacity included, is overwritten with zero, and the vector is
/// emptied. Trusted: the vector is empty afterwards, and the call does not
/// unwind.
#[verifier::external_body]
pub(crate) fn wipe(bytes: &mut Vec<u8>)
    ensures
        final(bytes)@.len() == 0,
    opens_invariants none
    no_unwind
{
    zeroize::Zeroize::zeroize(bytes);
}

/// Calls `ConstantTimeEq::ct_eq` of `subtle` on two byte slices. Trusted: the
/// answer is whether the two hold the same bytes. For slices of one length
/// the time taken does not depend on what they hold.
#[verifier::external_body]
pub(crate) fn constant_time_eq(a: &[u8], b: &[u8]) -> (r: bool)
    ensures
        r == (a@ == b@),
{
    subtle::ConstantTimeEq::ct_eq(a, b).into()
}

} // verus!
