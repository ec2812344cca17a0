//! Fixed-width byte wrappers and the closed enums of the header format.
use vstd::prelude::*;
use crate::primitives::{
    blake3_derive, blake3_derive_key, constant_time_eq, random_bytes, wipe,
};

verus! {

/// Length of a key in bytes.
pub const KEY_LEN: usize = 32;
/// Length of a salt in bytes.
pub const SALT_LEN: usize = 16;
/// Length of the additional authenticated data of a header in bytes.
pub const AAD_LEN: usize = 32;
/// Length of a wrapped key: the key and the tag.
pub const ENCRYPTED_KEY_LEN: usize = 48;

/// Errors that header operations return.
#[derive(Clone, Copy, Debug, PartialEq, Eq, Structural)]
pub enum Error {
    /// No keyslot opened under any candidate.
    IncorrectPassword,
    /// The header holds no keyslot.
    NoKeyslots,
    /// The header already holds the most keyslots it may.
    TooManyKeyslots,
    /// The header already holds the most objects it may.
    TooManyObjects,
    /// No object stands at the index.
    Index,
    /// The algorithm tag is not one of the known ciphers.
    UnsupportedAlgorithm,
    /// The version byte is not one this reader knows.
    UnsupportedVersion,
    /// Authentication failed while opening a ciphertext.
    AuthError,
    /// The password hashing function refused its input.
    PasswordHash,
    /// The cipher refused to seal.
    Encrypt,
    /// A byte string does not have the length its type demands.
    LengthMismatch,
    /// The operating system gave no random bytes.
    Entropy,
    /// The bytes are not an encoding of a header.
    Malformed,
}

/// The AEAD ciphers a header may name.
#[derive(Clone, Copy, Debug, PartialEq, Eq, Structural)]
pub enum Algorithm {
    XChaCha20Poly1305,
    Aes256GcmSiv,
}

impl Algorithm {
    /// Nonce length of the cipher in bytes.
    pub open spec fn spec_nonce_len(self) -> nat {
        match self {
            Algorithm::XChaCha20Poly1305 => 20,
            Algorithm::Aes256GcmSiv => 12,
        }
    }

    /// The byte that stands for the cipher in an encoded header.
    pub open spec fn spec_tag(self) -> u8 {
        match self {
            Algorithm::XChaCha20Poly1305 => 0,
            Algorithm::Aes256GcmSiv => 1,
        }
    }

    /// The cipher a tag byte stands for, if any.
    pub open spec fn spec_from_tag(tag: u8) -> Option<Algorithm> {
        if tag == 0 {
            Some(Algorithm::XChaCha20Poly1305)
        } else if tag == 1 {
            Some(Algorithm::Aes256GcmSiv)
        } else {
            None
        }
    }

    pub fn nonce_len(self) -> (n: usize)
        ensures
            n == self.spec_nonce_len(),
    {
        match self {
            Algorithm::XChaCha20Poly1305 => 20,
            Algorithm::Aes256GcmSiv => 12,
        }
    }

    pub fn tag(self) -> (t: u8)
        ensures
            t == self.spec_tag(),
            Algorithm::spec_from_tag(t) == Some(self),
    {
        match self {
            Algorithm::XChaCha20Poly1305 => 0,
            Algorithm::Aes256GcmSiv => 1,
        }
    }

    pub fn from_tag(tag: u8) -> (r: Result<Algorithm, Error>)
        ensures
            match Algorithm::spec_from_tag(tag) {
                Some(a) => r == Ok::<Algorithm, Error>(a),
                None => r == Err::<Algorithm, Error>(Error::UnsupportedAlgorithm),
            },
    {
        if tag == 0 {
            Ok(Algorithm::XChaCha20Poly1305)
        } else if tag == 1 {
            Ok(Algorithm::Aes256GcmSiv)
        } else {
            Err(Error::UnsupportedAlgorithm)
        }
    }
}

/// Cost levels of password hashing.
#[derive(Clone, Copy, Debug, PartialEq, Eq, Structural)]
pub enum Params {
    Standard,
    Hardened,
    Paranoid,
}

impl Params {
    pub open spec fn spec_tag(self) -> u8 {
        match self {
            Params::Standard => 0,
            Params::Hardened => 1,
            Params::Paranoid => 2,
        }
    }

    pub open spec fn spec_from_tag(tag: u8) -> Option<Params> {
        if tag == 0 {
            Some(Params::Standard)
        } else if tag == 1 {
            Some(Params::Hardened)
        } else if tag == 2 {
            Some(Params::Paranoid)
        } else {
            None
        }
    }

    /// Memory cost of Argon2id at this level, in KiB.
    pub open spec fn spec_argon2_m_cost(self) -> u32 {
        match self {
            Params::Standard => 19_456,
            Params::Hardened => 65_536,
            Params::Paranoid => 262_144,
        }
    }

    /// Number of passes of Argon2id at this level.
    pub open spec fn spec_argon2_t_cost(self) -> u32 {
        match self {
            Params::Standard => 2,
            Params::Hardened => 3,
            Params::Paranoid => 4,
        }
    }

    /// Degree of parallelism of Argon2id at this level.
    pub open spec fn spec_argon2_p_cost(self) -> u32 {
        match self {
            Params::Standard => 1,
            Params::Hardened => 4,
            Params::Paranoid => 4,
        }
    }

    pub fn tag(self) -> (t: u8)
        ensures
            t == self.spec_tag(),
            Params::spec_from_tag(t) == Some(self),
    {
        match self {
            Params::Standard => 0,
            Params::Hardened => 1,
            Params::Paranoid => 2,
        }
    }

    pub fn from_tag(tag: u8) -> (r: Option<Params>)
        ensures
            r == Params::spec_from_tag(tag),
    {
        if tag == 0 {
            Some(Params::Standard)
        } else if tag == 1 {
            Some(Params::Hardened)
        } else if tag == 2 {
            Some(Params::Paranoid)
        } else {
            None
        }
    }

    pub fn argon2_m_cost(self) -> (c: u32)
        ensures
            c == self.spec_argon2_m_cost(),
    {
        match self {
            Params::Standard => 19_456,
            Params::Hardened => 65_536,
            Params::Paranoid => 262_144,
        }
    }

    pub fn argon2_t_cost(self) -> (c: u32)
        ensures
            c == self.spec_argon2_t_cost(),
    {
        match self {
            Params::Standard => 2,
            Params::Hardened => 3,
            Params::Paranoid => 4,
        }
    }

    pub fn argon2_p_cost(self) -> (c: u32)
        ensures
            c == self.spec_argon2_p_cost(),
            c <= 4,
    {
        match self {
            Params::Standard => 1,
            Params::Hardened => 4,
            Params::Paranoid => 4,
        }
    }
}

/// The password hashing functions a keyslot may name.
#[derive(Clone, Copy, Debug, PartialEq, Eq, Structural)]
pub enum HashingAlgorithm {
    Argon2id(Params),
}

impl HashingAlgorithm {
    pub open spec fn spec_tag(self) -> u8 {
        0
    }

    pub open spec fn spec_params(self) -> Params {
        match self {
            HashingAlgorithm::Argon2id(p) => p,
        }
    }

    pub open spec fn spec_from_tags(tag: u8, params: u8) -> Option<HashingAlgorithm> {
        if tag == 0 {
            match Params::spec_from_tag(params) {
                Some(p) => Some(HashingAlgorithm::Argon2id(p)),
                None => None,
            }
        } else {
            None
        }
    }

    pub fn tag(self) -> (t: u8)
        ensures
            t == self.spec_tag(),
    {
        0
    }

    pub fn params(self) -> (p: Params)
        ensures
            p == self.spec_params(),
    {
        match self {
            HashingAlgorithm::Argon2id(p) => p,
        }
    }

    pub fn from_tags(tag: u8, params: u8) -> (r: Option<HashingAlgorithm>)
        ensures
            r == HashingAlgorithm::spec_from_tags(tag, params),
    {
        if tag == 0 {
            match Params::from_tag(params) {
                Some(p) => Some(HashingAlgorithm::Argon2id(p)),
                None => None,
            }
        } else {
            None
        }
    }
}

/// What a header object holds.
#[derive(Clone, Copy, Debug, PartialEq, Eq, Structural)]
pub enum HeaderObjectType {
    Metadata,
    PreviewMedia,
}

impl HeaderObjectType {
    pub open spec fn spec_tag(self) -> u8 {
        match self {
            HeaderObjectType::Metadata => 0,
            HeaderObjectType::PreviewMedia => 1,
        }
    }

    pub open spec fn spec_from_tag(tag: u8) -> Option<HeaderObjectType> {
        if tag == 0 {
            Some(HeaderObjectType::Metadata)
        } else if tag == 1 {
            Some(HeaderObjectType::PreviewMedia)
        } else {
            None
        }
    }

    pub fn tag(self) -> (t: u8)
        ensures
            t == self.spec_tag(),
            HeaderObjectType::spec_from_tag(t) == Some(self),
    {
        match self {
            HeaderObjectType::Metadata => 0,
            HeaderObjectType::PreviewMedia => 1,
        }
    }

    pub fn from_tag(tag: u8) -> (r: Option<HeaderObjectType>)
        ensures
            r == HeaderObjectType::spec_from_tag(tag),
    {
        if tag == 0 {
            Some(HeaderObjectType::Metadata)
        } else if tag == 1 {
            Some(HeaderObjectType::PreviewMedia)
        } else {
            None
        }
    }
}

/// The domain separator under which a key-encryption key is derived.
pub open spec fn spec_file_key_context() -> Seq<char> {
    "spacedrive 2022-12-14 12:54:12 file key derivation"@
}

pub fn file_key_context() -> (c: &'static str)
    ensures
        c@ == spec_file_key_context(),
{
    "spacedrive 2022-12-14 12:54:12 file key derivation"
}

/// A copy of a byte vector.
pub fn copy_bytes(src: &Vec<u8>) -> (out: Vec<u8>)
    ensures
        out@ == src@,
{
    let mut out: Vec<u8> = Vec::new();
    let mut i: usize = 0;
    while i < src.len()
        invariant
            i <= src@.len(),
            out@ == src@.subrange(0, i as int),
        decreases src@.len() - i,
    {
        out.push(src[i]);
        i += 1;
        assert(out@ =~= src@.subrange(0, i as int));
    }
    assert(out@ =~= src@);
    out
}

/// A 32-byte secret key.
pub struct Key {
    pub bytes: Vec<u8>,
}

impl View for Key {
    type V = Seq<u8>;

    open spec fn view(&self) -> Seq<u8> {
        self.bytes@
    }
}

impl Drop for Key {
    /// The bytes are overwritten with zero before the memory is given back.
    fn drop(&mut self)
        opens_invariants none
        no_unwind
    {
        wipe(&mut self.bytes);
    }
}

impl Clone for Key {
    fn clone(&self) -> (out: Self)
        ensures
            out@ == self@,
    {
        Key { bytes: copy_bytes(&self.bytes) }
    }
}

impl Key {
    /// The value has the width of its type.
    pub open spec fn wf(&self) -> bool {
        self@.len() == KEY_LEN
    }

    /// Wraps bytes of the right length, and refuses any other.
    pub fn new(bytes: Vec<u8>) -> (r: Result<Key, Error>)
        ensures
            bytes@.len() == KEY_LEN ==> (r matches Ok(v) && v@ == bytes@ && v.wf()),
            bytes@.len() != KEY_LEN ==> r matches Err(Error::LengthMismatch),
    {
        if bytes.len() == KEY_LEN {
            Ok(Key { bytes })
        } else {
            Err(Error::LengthMismatch)
        }
    }

    /// Fresh random bytes of the right length, unless the operating system
    /// gives none.
    pub fn generate() -> (r: Result<Key, Error>)
        ensures
            r matches Ok(v) ==> v.wf(),
            r matches Err(e) ==> e == Error::Entropy,
    {
        match random_bytes(KEY_LEN) {
            Some(bytes) => Ok(Key { bytes }),
            None => Err(Error::Entropy),
        }
    }

    pub fn expose(&self) -> (b: &Vec<u8>)
        ensures
            b@ == self@,
    {
        &self.bytes
    }
}

/// A 16-byte salt.
pub struct Salt {
    pub bytes: Vec<u8>,
}

impl View for Salt {
    type V = Seq<u8>;

    open spec fn view(&self) -> Seq<u8> {
        self.bytes@
    }
}

impl Drop for Salt {
    /// The bytes are overwritten with zero before the memory is given back.
    fn drop(&mut self)
        opens_invariants none
        no_unwind
    {
        wipe(&mut self.bytes);
    }
}

impl Clone for Salt {
    fn clone(&self) -> (out: Self)
        ensures
            out@ == self@,
    {
        Salt { bytes: copy_bytes(&self.bytes) }
    }
}

impl Salt {
    /// The value has the width of its type.
    pub open spec fn wf(&self) -> bool {
        self@.len() == SALT_LEN
    }

    /// Wraps bytes of the right length, and refuses any other.
    pub fn new(bytes: Vec<u8>) -> (r: Result<Salt, Error>)
        ensures
            bytes@.len() == SALT_LEN ==> (r matches Ok(v) && v@ == bytes@ && v.wf()),
            bytes@.len() != SALT_LEN ==> r matches Err(Error::LengthMismatch),
    {
        if bytes.len() == SALT_LEN {
            Ok(Salt { bytes })
        } else {
            Err(Error::LengthMismatch)
        }
    }

    /// Fresh random bytes of the right length, unless the operating system
    /// gives none.
    pub fn generate() -> (r: Result<Salt, Error>)
        ensures
            r matches Ok(v) ==> v.wf(),
            r matches Err(e) ==> e == Error::Entropy,
    {
        match random_bytes(SALT_LEN) {
            Some(bytes) => Ok(Salt { bytes }),
            None => Err(Error::Entropy),
        }
    }

    pub fn expose(&self) -> (b: &Vec<u8>)
        ensures
            b@ == self@,
    {
        &self.bytes
    }
}

/// The 32 bytes of additional authenticated data of a header.
pub struct Aad {
    pub bytes: Vec<u8>,
}

impl View for Aad {
    type V = Seq<u8>;

    open spec fn view(&self) -> Seq<u8> {
        self.bytes@
    }
}

impl Clone for Aad {
    fn clone(&self) -> (out: Self)
        ensures
            out@ == self@,
    {
        Aad { bytes: copy_bytes(&self.bytes) }
    }
}

impl Aad {
    /// The value has the width of its type.
    pub open spec fn wf(&self) -> bool {
        self@.len() == AAD_LEN
    }

    /// Wraps bytes of the right length, and refuses any other.
    pub fn new(bytes: Vec<u8>) -> (r: Result<Aad, Error>)
        ensures
            bytes@.len() == AAD_LEN ==> (r matches Ok(v) && v@ == bytes@ && v.wf()),
            bytes@.len() != AAD_LEN ==> r matches Err(Error::LengthMismatch),
    {
        if bytes.len() == AAD_LEN {
            Ok(Aad { bytes })
        } else {
            Err(Error::LengthMismatch)
        }
    }

    /// Fresh random bytes of the right length, unless the operating system
    /// gives none.
    pub fn generate() -> (r: Result<Aad, Error>)
        ensures
            r matches Ok(v) ==> v.wf(),
            r matches Err(e) ==> e == Error::Entropy,
    {
        match random_bytes(AAD_LEN) {
            Some(bytes) => Ok(Aad { bytes }),
            None => Err(Error::Entropy),
        }
    }

    pub fn expose(&self) -> (b: &Vec<u8>)
        ensures
            b@ == self@,
    {
        &self.bytes
    }
}

/// A key sealed under another: 48 bytes, the key and the tag.
pub struct EncryptedKey {
    pub bytes: Vec<u8>,
}

impl View for EncryptedKey {
    type V = Seq<u8>;

    open spec fn view(&self) -> Seq<u8> {
        self.bytes@
    }
}

impl Clone for EncryptedKey {
    fn clone(&self) -> (out: Self)
        ensures
            out@ == self@,
    {
        EncryptedKey { bytes: copy_bytes(&self.bytes) }
    }
}

impl EncryptedKey {
    /// The value has the width of its type.
    pub open spec fn wf(&self) -> bool {
        self@.len() == ENCRYPTED_KEY_LEN
    }

    /// Wraps bytes of the right length, and refuses any other.
    pub fn new(bytes: Vec<u8>) -> (r: Result<EncryptedKey, Error>)
        ensures
            bytes@.len() == ENCRYPTED_KEY_LEN ==> (r matches Ok(v) && v@ == bytes@ && v.wf()),
            bytes@.len() != ENCRYPTED_KEY_LEN ==> r matches Err(Error::LengthMismatch),
    {
        if bytes.len() == ENCRYPTED_KEY_LEN {
            Ok(EncryptedKey { bytes })
        } else {
            Err(Error::LengthMismatch)
        }
    }

    pub fn expose(&self) -> (b: &Vec<u8>)
        ensures
            b@ == self@,
    {
        &self.bytes
    }
}

/// Secret bytes of any length, such as a password or a plaintext. They are
/// overwritten with zero when the value is dropped.
pub struct Protected {
    pub bytes: Vec<u8>,
}

impl View for Protected {
    type V = Seq<u8>;

    open spec fn view(&self) -> Seq<u8> {
        self.bytes@
    }
}

impl Drop for Protected {
    /// The bytes are overwritten with zero before the memory is given back.
    fn drop(&mut self)
        opens_invariants none
        no_unwind
    {
        wipe(&mut self.bytes);
    }
}

impl Clone for Protected {
    fn clone(&self) -> (out: Self)
        ensures
            out@ == self@,
    {
        Protected { bytes: copy_bytes(&self.bytes) }
    }
}

impl Protected {
    pub fn new(bytes: Vec<u8>) -> (out: Protected)
        ensures
            out@ == bytes@,
    {
        Protected { bytes }
    }

    pub fn expose(&self) -> (b: &Vec<u8>)
        ensures
            b@ == self@,
    {
        &self.bytes
    }
}

impl Key {
    /// Whether two keys hold the same bytes, in time that does not depend on
    /// the bytes.
    pub fn ct_eq(&self, other: &Key) -> (r: bool)
        ensures
            r == (self@ == other@),
    {
        constant_time_eq(self.bytes.as_slice(), other.bytes.as_slice())
    }

    /// Derives a key from another key and a salt under a context string.
    pub fn derive(key: &Key, salt: &Salt, context: &str) -> (out: Key)
        ensures
            out@ == blake3_derive_key(context@, key@ + salt@),
            out.wf(),
    {
        let mut material = copy_bytes(&key.bytes);
        let mut i: usize = 0;
        while i < salt.bytes.len()
            invariant
                i <= salt@.len(),
                material@ == key@ + salt@.subrange(0, i as int),
            decreases salt@.len() - i,
        {
            material.push(salt.bytes[i]);
            i += 1;
            assert(material@ =~= key@ + salt@.subrange(0, i as int));
        }
        assert(material@ =~= key@ + salt@);
        Key { bytes: blake3_derive(context, material.as_slice()) }
    }
}

/// A nonce, as long as its cipher demands.
pub struct Nonce {
    pub bytes: Vec<u8>,
}

impl View for Nonce {
    type V = Seq<u8>;

    open spec fn view(&self) -> Seq<u8> {
        self.bytes@
    }
}

impl Drop for Nonce {
    /// The bytes are overwritten with zero before the memory is given back.
    fn drop(&mut self)
        opens_invariants none
        no_unwind
    {
        wipe(&mut self.bytes);
    }
}

impl Clone for Nonce {
    fn clone(&self) -> (out: Self)
        ensures
            out@ == self@,
    {
        Nonce { bytes: copy_bytes(&self.bytes) }
    }
}

impl Nonce {
    /// The nonce has the length that the cipher demands.
    pub open spec fn wf(&self, algorithm: Algorithm) -> bool {
        self@.len() == algorithm.spec_nonce_len()
    }

    /// Wraps bytes of the length the cipher demands, and refuses any other.
    pub fn new(algorithm: Algorithm, bytes: Vec<u8>) -> (r: Result<Nonce, Error>)
        ensures
            bytes@.len() == algorithm.spec_nonce_len() ==> (r matches Ok(v) && v@ == bytes@),
            bytes@.len() != algorithm.spec_nonce_len() ==> r matches Err(Error::LengthMismatch),
    {
        if bytes.len() == algorithm.nonce_len() {
            Ok(Nonce { bytes })
        } else {
            Err(Error::LengthMismatch)
        }
    }

    /// A fresh random nonce for the cipher, unless the operating system gives
    /// no random bytes.
    pub fn generate(algorithm: Algorithm) -> (r: Result<Nonce, Error>)
        ensures
            r matches Ok(v) ==> v.wf(algorithm),
            r matches Err(e) ==> e == Error::Entropy,
    {
        match random_bytes(algorithm.nonce_len()) {
            Some(bytes) => Ok(Nonce { bytes }),
            None => Err(Error::Entropy),
        }
    }

    pub fn expose(&self) -> (b: &Vec<u8>)
        ensures
            b@ == self@,
    {
        &self.bytes
    }
}

} // verus!
