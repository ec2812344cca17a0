//! The algorithm-agile encryptor and decryptor.
use vstd::prelude::*;
use crate::primitives::{
    aes256gcmsiv_open, aes256gcmsiv_seal, aes_siv_open, aes_siv_seal, xchacha20poly1305_open,
    xchacha20poly1305_seal, xchacha_open, xchacha_seal,
};
use crate::types::{Algorithm, Error, Key, Nonce, Protected};

verus! {

/// What sealing under a cipher returns: ciphertext and tag, or `None` where
/// the cipher refuses.
pub open spec fn aead_seal(
    algorithm: Algorithm,
    key: Seq<u8>,
    nonce: Seq<u8>,
    msg: Seq<u8>,
    aad: Seq<u8>,
) -> Option<Seq<u8>> {
    match algorithm {
        Algorithm::XChaCha20Poly1305 => xchacha20poly1305_seal(key, nonce, msg, aad),
        Algorithm::Aes256GcmSiv => aes256gcmsiv_seal(key, nonce, msg, aad),
    }
}

/// What opening under a cipher returns: the plaintext, or `None` where
/// authentication fails.
pub open spec fn aead_open(
    algorithm: Algorithm,
    key: Seq<u8>,
    nonce: Seq<u8>,
    ciphertext: Seq<u8>,
    aad: Seq<u8>,
) -> Option<Seq<u8>> {
    match algorithm {
        Algorithm::XChaCha20Poly1305 => xchacha20poly1305_open(key, nonce, ciphertext, aad),
        Algorithm::Aes256GcmSiv => aes256gcmsiv_open(key, nonce, ciphertext, aad),
    }
}

/// Seals `bytes` under `key` and `nonce`, bound to `aad`. Whatever is
/// returned is 16 bytes longer than `bytes`, and opens again to `bytes` under
/// the same key, nonce and `aad`.
pub fn encrypt_bytes(
    key: &Key,
    nonce: &Nonce,
    algorithm: Algorithm,
    bytes: &[u8],
    aad: &[u8],
) -> (r: Result<Vec<u8>, Error>)
    requires
        key.wf(),
        nonce.wf(algorithm),
    ensures
        match aead_seal(algorithm, key@, nonce@, bytes@, aad@) {
            Some(c) => r matches Ok(v) && v@ == c && c.len() == bytes@.len() + 16 && aead_open(
                algorithm,
                key@,
                nonce@,
                c,
                aad@,
            ) == Some(bytes@),
            None => r matches Err(Error::Encrypt),
        },
{
    let sealed = match algorithm {
        Algorithm::XChaCha20Poly1305 => xchacha_seal(
            key.bytes.as_slice(),
            nonce.bytes.as_slice(),
            bytes,
            aad,
        ),
        Algorithm::Aes256GcmSiv => aes_siv_seal(
            key.bytes.as_slice(),
            nonce.bytes.as_slice(),
            bytes,
            aad,
        ),
    };
    match sealed {
        Some(v) => Ok(v),
        None => Err(Error::Encrypt),
    }
}

/// Opens `bytes` under `key` and `nonce`, bound to `aad`. A plaintext is 16
/// bytes shorter than `bytes`.
pub fn decrypt_bytes(
    key: &Key,
    nonce: &Nonce,
    algorithm: Algorithm,
    bytes: &[u8],
    aad: &[u8],
) -> (r: Result<Protected, Error>)
    requires
        key.wf(),
        nonce.wf(algorithm),
    ensures
        match aead_open(algorithm, key@, nonce@, bytes@, aad@) {
            Some(p) => r matches Ok(v) && v@ == p && p.len() + 16 == bytes@.len(),
            None => r matches Err(Error::AuthError),
        },
{
    let opened = match algorithm {
        Algorithm::XChaCha20Poly1305 => xchacha_open(
            key.bytes.as_slice(),
            nonce.bytes.as_slice(),
            bytes,
            aad,
        ),
        Algorithm::Aes256GcmSiv => aes_siv_open(
            key.bytes.as_slice(),
            nonce.bytes.as_slice(),
            bytes,
            aad,
        ),
    };
    match opened {
        Some(v) => Ok(Protected::new(v)),
        None => Err(Error::AuthError),
    }
}

} // verus!
