//! The version 1 file header: keyslots that wrap a master key, and objects
//! sealed under it.
use vstd::prelude::*;
use crate::crypto::{aead_open, aead_seal, decrypt_bytes, encrypt_bytes};
use crate::primitives::{argon2id, argon2id_hash, blake3_derive_key};
use crate::types::{
    file_key_context, spec_file_key_context, Aad, Algorithm, EncryptedKey, Error,
    HashingAlgorithm, HeaderObjectType, Key, Nonce, Protected, Salt,
};

verus! {

/// The most keyslots a header may hold.
pub const KEYSLOT_LIMIT: usize = 2;

/// The most objects a header may hold.
pub const OBJECT_LIMIT: usize = 2;

/// The key-encryption key of a keyslot: derived from a hashed key and the
/// keyslot's salt.
pub open spec fn spec_kek(hashed_key: Seq<u8>, salt: Seq<u8>) -> Seq<u8> {
    blake3_derive_key(spec_file_key_context(), hashed_key + salt)
}

/// The hashed key that a password gives under a hashing algorithm and a
/// content salt, or `None` where the hashing function refuses.
pub open spec fn spec_hash_password(
    hashing_algorithm: HashingAlgorithm,
    password: Seq<u8>,
    content_salt: Seq<u8>,
) -> Option<Seq<u8>> {
    let p = hashing_algorithm.spec_params();
    argon2id_hash(
        password,
        content_salt,
        p.spec_argon2_m_cost(),
        p.spec_argon2_t_cost(),
        p.spec_argon2_p_cost(),
    )
}

/// Hashes a password under a content salt.
pub fn hash_password(
    hashing_algorithm: HashingAlgorithm,
    password: &Protected,
    content_salt: &Salt,
) -> (r: Result<Key, Error>)
    ensures
        match spec_hash_password(hashing_algorithm, password@, content_salt@) {
            Some(h) => r matches Ok(k) && k@ == h && k.wf(),
            None => r matches Err(Error::PasswordHash),
        },
{
    let p = hashing_algorithm.params();
    match argon2id(
        password.bytes.as_slice(),
        content_salt.bytes.as_slice(),
        p.argon2_m_cost(),
        p.argon2_t_cost(),
        p.argon2_p_cost(),
    ) {
        Some(bytes) => Ok(Key { bytes }),
        None => Err(Error::PasswordHash),
    }
}

/// A keyslot as plain values.
pub struct KeyslotView {
    pub hashing_algorithm: HashingAlgorithm,
    pub salt: Seq<u8>,
    pub content_salt: Seq<u8>,
    pub master_key: Seq<u8>,
    pub nonce: Seq<u8>,
}

impl KeyslotView {
    /// Every field has the width the format gives it.
    pub open spec fn wf(self, algorithm: Algorithm) -> bool {
        &&& self.salt.len() == 16
        &&& self.content_salt.len() == 16
        &&& self.master_key.len() == 48
        &&& self.nonce.len() == algorithm.spec_nonce_len()
    }

    /// The master key that the keyslot gives up to a hashed key, or `None`
    /// where it does not open.
    pub open spec fn unwrap_with(self, algorithm: Algorithm, hashed_key: Seq<u8>) -> Option<
        Seq<u8>,
    > {
        aead_open(
            algorithm,
            spec_kek(hashed_key, self.salt),
            self.nonce,
            self.master_key,
            Seq::empty(),
        )
    }
}

/// One credential's wrapping of the master key.
pub struct Keyslot001 {
    pub hashing_algorithm: HashingAlgorithm,
    pub salt: Salt,
    pub content_salt: Salt,
    pub master_key: EncryptedKey,
    pub nonce: Nonce,
}

impl View for Keyslot001 {
    type V = KeyslotView;

    open spec fn view(&self) -> KeyslotView {
        KeyslotView {
            hashing_algorithm: self.hashing_algorithm,
            salt: self.salt@,
            content_salt: self.content_salt@,
            master_key: self.master_key@,
            nonce: self.nonce@,
        }
    }
}

impl Clone for Keyslot001 {
    fn clone(&self) -> (out: Self)
        ensures
            out@ == self@,
    {
        Keyslot001 {
            hashing_algorithm: self.hashing_algorithm,
            salt: self.salt.clone(),
            content_salt: self.content_salt.clone(),
            master_key: self.master_key.clone(),
            nonce: self.nonce.clone(),
        }
    }
}

impl Keyslot001 {
    /// Wraps `master_key` under the key derived from `hashed_key` and `salt`,
    /// with the given nonce. The keyslot that comes back gives `master_key`
    /// up again to `hashed_key`.
    pub fn seal(
        algorithm: Algorithm,
        hashing_algorithm: HashingAlgorithm,
        salt: Salt,
        content_salt: Salt,
        nonce: Nonce,
        hashed_key: &Key,
        master_key: &Key,
    ) -> (r: Result<Keyslot001, Error>)
        requires
            salt.wf(),
            content_salt.wf(),
            nonce.wf(algorithm),
            hashed_key.wf(),
            master_key.wf(),
        ensures
            match aead_seal(
                algorithm,
                spec_kek(hashed_key@, salt@),
                nonce@,
                master_key@,
                Seq::empty(),
            ) {
                Some(c) => r matches Ok(s) && s@ == (KeyslotView {
                    hashing_algorithm,
                    salt: salt@,
                    content_salt: content_salt@,
                    master_key: c,
                    nonce: nonce@,
                }) && s@.wf(algorithm) && s@.unwrap_with(algorithm, hashed_key@) == Some(
                    master_key@,
                ),
                None => r matches Err(Error::Encrypt),
            },
    {
        let kek = Key::derive(hashed_key, &salt, file_key_context());
        let no_aad: Vec<u8> = Vec::new();
        assert(no_aad@ =~= Seq::<u8>::empty());
        let sealed = encrypt_bytes(
            &kek,
            &nonce,
            algorithm,
            master_key.bytes.as_slice(),
            no_aad.as_slice(),
        );
        match sealed {
            Ok(bytes) => Ok(
                Keyslot001 {
                    hashing_algorithm,
                    salt,
                    content_salt,
                    master_key: EncryptedKey { bytes },
                    nonce,
                },
            ),
            Err(_) => Err(Error::Encrypt),
        }
    }

    /// A keyslot with a fresh salt and nonce that wraps `master_key` for
    /// `hashed_key`. It fails only where no random bytes are to be had or the
    /// cipher refuses.
    pub fn new(
        algorithm: Algorithm,
        hashing_algorithm: HashingAlgorithm,
        content_salt: Salt,
        hashed_key: Key,
        master_key: Key,
    ) -> (r: Result<Keyslot001, Error>)
        requires
            content_salt.wf(),
            hashed_key.wf(),
            master_key.wf(),
        ensures
            r matches Ok(s) ==> {
                &&& s@.wf(algorithm)
                &&& s@.hashing_algorithm == hashing_algorithm
                &&& s@.content_salt == content_salt@
                &&& aead_seal(
                    algorithm,
                    spec_kek(hashed_key@, s@.salt),
                    s@.nonce,
                    master_key@,
                    Seq::empty(),
                ) == Some(s@.master_key)
                &&& s@.unwrap_with(algorithm, hashed_key@) == Some(master_key@)
            },
            r matches Err(e) ==> e == Error::Entropy || e == Error::Encrypt,
    {
        let nonce = match Nonce::generate(algorithm) {
            Ok(n) => n,
            Err(e) => {
                return Err(e);
            },
        };
        let salt = match Salt::generate() {
            Ok(s) => s,
            Err(e) => {
                return Err(e);
            },
        };
        Keyslot001::seal(
            algorithm,
            hashing_algorithm,
            salt,
            content_salt,
            nonce,
            &hashed_key,
            &master_key,
        )
    }

    /// Tries to unwrap the master key with a hashed key. A keyslot that does
    /// not open answers `AuthError`.
    pub fn decrypt(&self, algorithm: Algorithm, key: Key) -> (r: Result<Key, Error>)
        requires
            self@.wf(algorithm),
            key.wf(),
        ensures
            match self@.unwrap_with(algorithm, key@) {
                Some(k) => r matches Ok(x) && x@ == k && x.wf(),
                None => r matches Err(Error::AuthError),
            },
    {
        let kek = Key::derive(&key, &self.salt, file_key_context());
        let no_aad: Vec<u8> = Vec::new();
        assert(no_aad@ =~= Seq::<u8>::empty());
        match decrypt_bytes(
            &kek,
            &self.nonce,
            algorithm,
            self.master_key.bytes.as_slice(),
            no_aad.as_slice(),
        ) {
            Ok(opened) => Ok(Key { bytes: crate::types::copy_bytes(&opened.bytes) }),
            Err(_) => Err(Error::AuthError),
        }
    }
}

/// A header object as plain values.
pub struct ObjectView {
    pub object_type: HeaderObjectType,
    pub nonce: Seq<u8>,
    pub data: Seq<u8>,
}

impl ObjectView {
    /// The nonce has the length the cipher demands, and the length of the
    /// data fits in 64 bits.
    pub open spec fn wf(self, algorithm: Algorithm) -> bool {
        &&& self.nonce.len() == algorithm.spec_nonce_len()
        &&& self.data.len() <= u64::MAX
    }

    /// The plaintext that the object gives up to a master key under the
    /// header's associated data, or `None` where it does not open.
    pub open spec fn open_with(self, algorithm: Algorithm, aad: Seq<u8>, master_key: Seq<u8>)
        -> Option<Seq<u8>> {
        aead_open(algorithm, master_key, self.nonce, self.data, aad)
    }
}

/// A typed metadata blob sealed under the master key and bound to the
/// header's associated data.
pub struct FileHeaderObject001 {
    pub object_type: HeaderObjectType,
    pub nonce: Nonce,
    pub data: Vec<u8>,
}

impl View for FileHeaderObject001 {
    type V = ObjectView;

    open spec fn view(&self) -> ObjectView {
        ObjectView { object_type: self.object_type, nonce: self.nonce@, data: self.data@ }
    }
}

impl Clone for FileHeaderObject001 {
    fn clone(&self) -> (out: Self)
        ensures
            out@ == self@,
    {
        FileHeaderObject001 {
            object_type: self.object_type,
            nonce: self.nonce.clone(),
            data: crate::types::copy_bytes(&self.data),
        }
    }
}

impl FileHeaderObject001 {
    /// Seals `data` under `master_key` with the given nonce, bound to `aad`.
    /// The object that comes back holds 16 bytes more than `data`, and opens
    /// again to `data`.
    pub fn seal(
        object_type: HeaderObjectType,
        algorithm: Algorithm,
        nonce: Nonce,
        master_key: &Key,
        aad: &Aad,
        data: &[u8],
    ) -> (r: Result<FileHeaderObject001, Error>)
        requires
            nonce.wf(algorithm),
            master_key.wf(),
        ensures
            match aead_seal(algorithm, master_key@, nonce@, data@, aad@) {
                Some(c) => r matches Ok(o) && o@ == (ObjectView {
                    object_type,
                    nonce: nonce@,
                    data: c,
                }) && c.len() == data@.len() + 16 && o@.wf(algorithm) && o@.open_with(
                    algorithm,
                    aad@,
                    master_key@,
                ) == Some(data@),
                None => r matches Err(Error::Encrypt),
            },
    {
        match encrypt_bytes(master_key, &nonce, algorithm, data, aad.bytes.as_slice()) {
            Ok(sealed) => {
                assert(sealed.len() <= usize::MAX);
                Ok(FileHeaderObject001 { object_type, nonce, data: sealed })
            },
            Err(_) => Err(Error::Encrypt),
        }
    }

    /// An object with a fresh nonce that holds `data` sealed under
    /// `master_key`. It fails only where no random bytes are to be had or the
    /// cipher refuses.
    pub fn new(
        object_type: HeaderObjectType,
        algorithm: Algorithm,
        master_key: Key,
        aad: Aad,
        data: &[u8],
    ) -> (r: Result<FileHeaderObject001, Error>)
        requires
            master_key.wf(),
        ensures
            r matches Ok(o) ==> {
                &&& o@.wf(algorithm)
                &&& o@.object_type == object_type
                &&& aead_seal(algorithm, master_key@, o@.nonce, data@, aad@) == Some(o@.data)
                &&& o@.data.len() == data@.len() + 16
                &&& o@.open_with(algorithm, aad@, master_key@) == Some(data@)
            },
            r matches Err(e) ==> e == Error::Entropy || e == Error::Encrypt,
    {
        let nonce = match Nonce::generate(algorithm) {
            Ok(n) => n,
            Err(e) => {
                return Err(e);
            },
        };
        FileHeaderObject001::seal(object_type, algorithm, nonce, &master_key, &aad, data)
    }

    /// Opens the object with a master key under the header's associated data.
    pub fn decrypt(&self, algorithm: Algorithm, aad: Aad, master_key: Key) -> (r: Result<
        Protected,
        Error,
    >)
        requires
            self@.wf(algorithm),
            master_key.wf(),
        ensures
            match self@.open_with(algorithm, aad@, master_key@) {
                Some(p) => r matches Ok(v) && v@ == p,
                None => r matches Err(Error::AuthError),
            },
    {
        decrypt_bytes(
            &master_key,
            &self.nonce,
            algorithm,
            self.data.as_slice(),
            aad.bytes.as_slice(),
        )
    }
}

/// A header as plain values.
pub struct HeaderView {
    pub aad: Seq<u8>,
    pub algorithm: Algorithm,
    pub nonce: Seq<u8>,
    pub keyslots: Seq<KeyslotView>,
    pub objects: Seq<ObjectView>,
}

impl HeaderView {
    /// Every field has the width the format gives it, and neither the
    /// keyslots nor the objects are more than two.
    pub open spec fn wf(self) -> bool {
        &&& self.aad.len() == 32
        &&& self.nonce.len() == self.algorithm.spec_nonce_len()
        &&& self.keyslots.len() <= 2
        &&& self.objects.len() <= 2
        &&& forall|i: int|
            0 <= i < self.keyslots.len() ==> (#[trigger] self.keyslots[i]).wf(self.algorithm)
        &&& forall|i: int|
            0 <= i < self.objects.len() ==> (#[trigger] self.objects[i]).wf(self.algorithm)
    }

    /// The master key of the first keyslot, from index `from` on and in stored
    /// order, that opens under `hashed_key`.
    pub open spec fn first_unwrap(self, hashed_key: Seq<u8>, from: int) -> Option<Seq<u8>>
        decreases self.keyslots.len() - from,
    {
        if from < 0 || from >= self.keyslots.len() {
            None
        } else {
            match self.keyslots[from].unwrap_with(self.algorithm, hashed_key) {
                Some(k) => Some(k),
                None => self.first_unwrap(hashed_key, from + 1),
            }
        }
    }

    /// The master key that the first candidate, from index `from` on, unwraps
    /// from any keyslot.
    pub open spec fn first_master_key(self, keys: Seq<Seq<u8>>, from: int) -> Option<Seq<u8>>
        decreases keys.len() - from,
    {
        if from < 0 || from >= keys.len() {
            None
        } else {
            match self.first_unwrap(keys[from], 0) {
                Some(k) => Some(k),
                None => self.first_master_key(keys, from + 1),
            }
        }
    }

    /// What trial decryption with a sequence of hashed keys answers.
    pub open spec fn master_key_for(self, keys: Seq<Seq<u8>>) -> Result<Seq<u8>, Error> {
        if self.keyslots.len() == 0 {
            Err(Error::NoKeyslots)
        } else {
            match self.first_master_key(keys, 0) {
                Some(k) => Ok(k),
                None => Err(Error::IncorrectPassword),
            }
        }
    }

    /// What trial decryption with a password answers from keyslot `from` on:
    /// each keyslot hashes the password under its own content salt; a hash
    /// that is refused ends the search, a keyslot that does not open passes
    /// it on.
    pub open spec fn password_unlock(self, password: Seq<u8>, from: int) -> Result<
        Seq<u8>,
        Error,
    >
        decreases self.keyslots.len() - from,
    {
        if from < 0 || from >= self.keyslots.len() {
            Err(Error::IncorrectPassword)
        } else {
            let slot = self.keyslots[from];
            match spec_hash_password(slot.hashing_algorithm, password, slot.content_salt) {
                None => Err(Error::PasswordHash),
                Some(h) => match slot.unwrap_with(self.algorithm, h) {
                    Some(k) => Ok(k),
                    None => self.password_unlock(password, from + 1),
                },
            }
        }
    }

    /// What trial decryption with a password answers.
    pub open spec fn master_key_for_password(self, password: Seq<u8>) -> Result<Seq<u8>, Error> {
        if self.keyslots.len() == 0 {
            Err(Error::NoKeyslots)
        } else {
            self.password_unlock(password, 0)
        }
    }

    /// What opening the object at `index` with a master key answers.
    pub open spec fn object_plaintext(self, index: int, master_key: Seq<u8>) -> Result<
        Seq<u8>,
        Error,
    > {
        if index < 0 || index >= self.objects.len() {
            Err(Error::Index)
        } else {
            match self.objects[index].open_with(self.algorithm, self.aad, master_key) {
                Some(p) => Ok(p),
                None => Err(Error::AuthError),
            }
        }
    }
}

/// The views of a vector of keys.
pub open spec fn spec_key_views(keys: Seq<Key>) -> Seq<Seq<u8>> {
    keys.map_values(|k: Key| k@)
}

/// The version 1 header: associated data, cipher, body nonce, and up to two
/// keyslots and two objects.
pub struct FileHeader001 {
    pub aad: Aad,
    pub algorithm: Algorithm,
    pub nonce: Nonce,
    pub keyslots: Vec<Keyslot001>,
    pub objects: Vec<FileHeaderObject001>,
}

impl View for FileHeader001 {
    type V = HeaderView;

    open spec fn view(&self) -> HeaderView {
        HeaderView {
            aad: self.aad@,
            algorithm: self.algorithm,
            nonce: self.nonce@,
            keyslots: self.keyslots@.map_values(|k: Keyslot001| k@),
            objects: self.objects@.map_values(|o: FileHeaderObject001| o@),
        }
    }
}

impl Clone for FileHeader001 {
    fn clone(&self) -> (out: Self)
        ensures
            out@ == self@,
    {
        let mut keyslots: Vec<Keyslot001> = Vec::new();
        let mut i: usize = 0;
        while i < self.keyslots.len()
            invariant
                i <= self.keyslots@.len(),
                keyslots@.len() == i,
                forall|t: int| 0 <= t < i ==> (#[trigger] keyslots@[t])@ == self.keyslots@[t]@,
            decreases self.keyslots@.len() - i,
        {
            keyslots.push(self.keyslots[i].clone());
            i += 1;
        }
        let mut objects: Vec<FileHeaderObject001> = Vec::new();
        let mut j: usize = 0;
        while j < self.objects.len()
            invariant
                j <= self.objects@.len(),
                objects@.len() == j,
                forall|t: int| 0 <= t < j ==> (#[trigger] objects@[t])@ == self.objects@[t]@,
            decreases self.objects@.len() - j,
        {
            objects.push(self.objects[j].clone());
            j += 1;
        }
        let out = FileHeader001 {
            aad: self.aad.clone(),
            algorithm: self.algorithm,
            nonce: self.nonce.clone(),
            keyslots,
            objects,
        };
        assert(out@.keyslots =~= self@.keyslots);
        assert(out@.objects =~= self@.objects);
        out
    }
}

impl FileHeader001 {
    /// The header's view is well formed.
    pub open spec fn wf(&self) -> bool {
        self@.wf()
    }

    /// An empty header for a cipher, with fresh associated data and a fresh
    /// body nonce. It fails only where no random bytes are to be had.
    pub fn new(algorithm: Algorithm) -> (r: Result<FileHeader001, Error>)
        ensures
            r matches Ok(h) ==> {
                &&& h.wf()
                &&& h@.algorithm == algorithm
                &&& h@.keyslots.len() == 0
                &&& h@.objects.len() == 0
            },
            r matches Err(e) ==> e == Error::Entropy,
    {
        let aad = match Aad::generate() {
            Ok(a) => a,
            Err(e) => {
                return Err(e);
            },
        };
        let nonce = match Nonce::generate(algorithm) {
            Ok(n) => n,
            Err(e) => {
                return Err(e);
            },
        };
        Ok(FileHeader001::from_parts(algorithm, aad, nonce))
    }

    /// An empty header for a cipher with the given associated data and body
    /// nonce.
    pub fn from_parts(algorithm: Algorithm, aad: Aad, nonce: Nonce) -> (h: FileHeader001)
        requires
            aad.wf(),
            nonce.wf(algorithm),
        ensures
            h.wf(),
            h@ == (HeaderView {
                aad: aad@,
                algorithm,
                nonce: nonce@,
                keyslots: Seq::empty(),
                objects: Seq::empty(),
            }),
    {
        let h = FileHeader001 { aad, algorithm, nonce, keyslots: Vec::new(), objects: Vec::new() };
        assert(h@.keyslots =~= Seq::empty());
        assert(h@.objects =~= Seq::empty());
        h
    }

    /// Appends a keyslot, unless the header is full; a full header is left as
    /// it was.
    pub fn push_keyslot(&mut self, slot: Keyslot001) -> (r: Result<(), Error>)
        requires
            old(self).wf(),
            slot@.wf(old(self)@.algorithm),
        ensures
            final(self).wf(),
            old(self)@.keyslots.len() < 2 ==> r is Ok && final(self)@ == (HeaderView {
                keyslots: old(self)@.keyslots.push(slot@),
                ..old(self)@
            }),
            old(self)@.keyslots.len() >= 2 ==> (r matches Err(Error::TooManyKeyslots) && *final(self)
                == *old(self)),
    {
        if self.keyslots.len() + 1 > KEYSLOT_LIMIT {
            return Err(Error::TooManyKeyslots);
        }
        self.keyslots.push(slot);
        assert(self@.keyslots =~= old(self)@.keyslots.push(slot@));
        assert(self@.objects =~= old(self)@.objects);
        Ok(())
    }

    /// Appends an object, unless the header is full; a full header is left as
    /// it was.
    pub fn push_object(&mut self, object: FileHeaderObject001) -> (r: Result<(), Error>)
        requires
            old(self).wf(),
            object@.wf(old(self)@.algorithm),
        ensures
            final(self).wf(),
            old(self)@.objects.len() < 2 ==> r is Ok && final(self)@ == (HeaderView {
                objects: old(self)@.objects.push(object@),
                ..old(self)@
            }),
            old(self)@.objects.len() >= 2 ==> (r matches Err(Error::TooManyObjects) && *final(self)
                == *old(self)),
    {
        if self.objects.len() + 1 > OBJECT_LIMIT {
            return Err(Error::TooManyObjects);
        }
        self.objects.push(object);
        assert(self@.objects =~= old(self)@.objects.push(object@));
        assert(self@.keyslots =~= old(self)@.keyslots);
        Ok(())
    }

    /// Wraps `master_key` for `hashed_key` in a new keyslot and appends it. A
    /// full header answers `TooManyKeyslots`; on any error the header is left
    /// as it was. The keyslot that was added gives `master_key` up again to
    /// `hashed_key`.
    pub fn add_keyslot(
        &mut self,
        hashing_algorithm: HashingAlgorithm,
        content_salt: Salt,
        hashed_key: Key,
        master_key: Key,
    ) -> (r: Result<(), Error>)
        requires
            old(self).wf(),
            content_salt.wf(),
            hashed_key.wf(),
            master_key.wf(),
        ensures
            final(self).wf(),
            old(self)@.keyslots.len() >= 2 ==> r matches Err(Error::TooManyKeyslots),
            r is Err ==> *final(self) == *old(self),
            r matches Err(e) ==> (e == Error::TooManyKeyslots && old(self)@.keyslots.len() >= 2)
                || e == Error::Entropy || e == Error::Encrypt,
            r is Ok ==> {
                let slot = final(self)@.keyslots.last();
                &&& final(self)@ == (HeaderView {
                    keyslots: old(self)@.keyslots.push(slot),
                    ..old(self)@
                })
                &&& slot.hashing_algorithm == hashing_algorithm
                &&& slot.content_salt == content_salt@
                &&& slot.unwrap_with(old(self)@.algorithm, hashed_key@) == Some(master_key@)
            },
    {
        if self.keyslots.len() + 1 > KEYSLOT_LIMIT {
            return Err(Error::TooManyKeyslots);
        }
        let slot = match Keyslot001::new(
            self.algorithm,
            hashing_algorithm,
            content_salt,
            hashed_key,
            master_key,
        ) {
            Ok(s) => s,
            Err(e) => {
                return Err(e);
            },
        };
        self.push_keyslot(slot)
    }

    /// Seals `data` under `master_key` in a new object and appends it. A full
    /// header answers `TooManyObjects`; on any error the header is left as it
    /// was. The object that was added opens again to `data` under
    /// `master_key`.
    pub fn add_object(
        &mut self,
        object_type: HeaderObjectType,
        master_key: Key,
        data: &[u8],
    ) -> (r: Result<(), Error>)
        requires
            old(self).wf(),
            master_key.wf(),
        ensures
            final(self).wf(),
            old(self)@.objects.len() >= 2 ==> r matches Err(Error::TooManyObjects),
            r is Err ==> *final(self) == *old(self),
            r matches Err(e) ==> (e == Error::TooManyObjects && old(self)@.objects.len() >= 2)
                || e == Error::Entropy || e == Error::Encrypt,
            r is Ok ==> {
                let object = final(self)@.objects.last();
                &&& final(self)@ == (HeaderView {
                    objects: old(self)@.objects.push(object),
                    ..old(self)@
                })
                &&& object.object_type == object_type
                &&& object.data.len() == data@.len() + 16
                &&& final(self)@.object_plaintext(old(self)@.objects.len() as int, master_key@)
                    == Ok::<Seq<u8>, Error>(data@)
            },
    {
        if self.objects.len() + 1 > OBJECT_LIMIT {
            return Err(Error::TooManyObjects);
        }
        let object = match FileHeaderObject001::new(
            object_type,
            self.algorithm,
            master_key,
            self.aad.clone(),
            data,
        ) {
            Ok(o) => o,
            Err(e) => {
                return Err(e);
            },
        };
        self.push_object(object)
    }

    /// Opens the object at `index` with a master key: `Index` where no object
    /// stands there, `AuthError` where it does not open.
    pub fn decrypt_object(&self, index: usize, master_key: Key) -> (r: Result<Protected, Error>)
        requires
            self.wf(),
            master_key.wf(),
        ensures
            match self@.object_plaintext(index as int, master_key@) {
                Ok(p) => r matches Ok(v) && v@ == p,
                Err(e) => r matches Err(f) && f == e,
            },
    {
        if index >= self.objects.len() || self.objects.len() == 0 {
            return Err(Error::Index);
        }
        assert(self@.objects[index as int] == self.objects@[index as int]@);
        self.objects[index].decrypt(self.algorithm, self.aad.clone(), master_key)
    }

    /// Trial decryption: each candidate, in order, is tried on each keyslot,
    /// in stored order, and the first master key that comes out is returned.
    pub fn decrypt_master_key(&self, keys: Vec<Key>) -> (r: Result<Key, Error>)
        requires
            self.wf(),
            forall|i: int| 0 <= i < keys@.len() ==> (#[trigger] keys@[i]).wf(),
        ensures
            match self@.master_key_for(spec_key_views(keys@)) {
                Ok(k) => r matches Ok(x) && x@ == k && x.wf(),
                Err(e) => r matches Err(f) && f == e,
            },
    {
        if self.keyslots.len() == 0 {
            return Err(Error::NoKeyslots);
        }
        let ghost views = spec_key_views(keys@);
        let mut i: usize = 0;
        while i < keys.len()
            invariant
                self.wf(),
                i <= keys@.len(),
                views == spec_key_views(keys@),
                self.keyslots@.len() > 0,
                forall|i: int| 0 <= i < keys@.len() ==> (#[trigger] keys@[i]).wf(),
                self@.first_master_key(views, 0) == self@.first_master_key(views, i as int),
            decreases keys@.len() - i,
        {
            let hashed_key = &keys[i];
            assert(views[i as int] == hashed_key@);
            let mut j: usize = 0;
            while j < self.keyslots.len()
                invariant
                    self.wf(),
                    j <= self.keyslots@.len(),
                    hashed_key.wf(),
                    self.keyslots@.len() > 0,
                    0 <= i < views.len(),
                    views == spec_key_views(keys@),
                    views[i as int] == hashed_key@,
                    self@.first_master_key(views, 0) == self@.first_master_key(views, i as int),
                    self@.first_unwrap(hashed_key@, 0) == self@.first_unwrap(
                        hashed_key@,
                        j as int,
                    ),
                decreases self.keyslots@.len() - j,
            {
                assert(self@.keyslots[j as int] == self.keyslots@[j as int]@);
                if let Ok(key) = self.keyslots[j].decrypt(self.algorithm, hashed_key.clone()) {
                    return Ok(key);
                }
                j += 1;
            }
            i += 1;
        }
        Err(Error::IncorrectPassword)
    }

    /// Trial decryption with a password: each keyslot, in stored order,
    /// hashes the password under its own content salt and is tried with the
    /// hash. A hash that is refused answers `PasswordHash`; a keyslot that
    /// does not open passes the password on to the next.
    pub fn decrypt_master_key_with_password(&self, password: Protected) -> (r: Result<
        Key,
        Error,
    >)
        requires
            self.wf(),
        ensures
            match self@.master_key_for_password(password@) {
                Ok(k) => r matches Ok(x) && x@ == k && x.wf(),
                Err(e) => r matches Err(f) && f == e,
            },
    {
        if self.keyslots.len() == 0 {
            return Err(Error::NoKeyslots);
        }
        let mut j: usize = 0;
        while j < self.keyslots.len()
            invariant
                self.wf(),
                self.keyslots@.len() > 0,
                j <= self.keyslots@.len(),
                self@.password_unlock(password@, 0) == self@.password_unlock(
                    password@,
                    j as int,
                ),
            decreases self.keyslots@.len() - j,
        {
            assert(self@.keyslots[j as int] == self.keyslots@[j as int]@);
            let slot = &self.keyslots[j];
            let hashed = match hash_password(slot.hashing_algorithm, &password, &slot.content_salt) {
                Ok(h) => h,
                Err(_) => {
                    return Err(Error::PasswordHash);
                },
            };
            if let Ok(key) = slot.decrypt(self.algorithm, hashed) {
                return Ok(key);
            }
            j += 1;
        }
        Err(Error::IncorrectPassword)
    }

    pub fn get_aad(&self) -> (a: Aad)
        ensures
            a@ == self@.aad,
    {
        self.aad.clone()
    }

    pub fn get_nonce(&self) -> (n: Nonce)
        ensures
            n@ == self@.nonce,
    {
        self.nonce.clone()
    }

    pub fn get_algorithm(&self) -> (a: Algorithm)
        ensures
            a == self@.algorithm,
    {
        self.algorithm
    }

    pub fn count_objects(&self) -> (n: usize)
        ensures
            n == self@.objects.len(),
    {
        self.objects.len()
    }

    pub fn count_keyslots(&self) -> (n: usize)
        ensures
            n == self@.keyslots.len(),
    {
        self.keyslots.len()
    }
}

/// Appending a keyslot leaves the first keyslot that opens under a hashed
/// key where it was, and makes the new keyslot the one that opens where
/// none did before.
pub proof fn lemma_first_unwrap_push(
    h: HeaderView,
    slot: KeyslotView,
    hashed_key: Seq<u8>,
    from: int,
)
    requires
        0 <= from <= h.keyslots.len(),
    ensures
        (HeaderView { keyslots: h.keyslots.push(slot), ..h }).first_unwrap(hashed_key, from) == (
        match h.first_unwrap(hashed_key, from) {
            Some(k) => Some(k),
            None => slot.unwrap_with(h.algorithm, hashed_key),
        }),
    decreases h.keyslots.len() - from,
{
    let g = HeaderView { keyslots: h.keyslots.push(slot), ..h };
    if from < h.keyslots.len() {
        assert(g.keyslots[from] == h.keyslots[from]);
        lemma_first_unwrap_push(h, slot, hashed_key, from + 1);
    } else {
        assert(g.keyslots[from] == slot);
        assert(g.first_unwrap(hashed_key, from + 1) is None);
    }
}

/// A header to which a keyslot for `hashed_key` was added gives a master
/// key up to `hashed_key`: the one the new keyslot wraps, unless an earlier
/// keyslot opens under the same hashed key.
pub proof fn lemma_added_keyslot_unlocks(h: HeaderView, slot: KeyslotView, hashed_key: Seq<u8>)
    requires
        slot.unwrap_with(h.algorithm, hashed_key) is Some,
    ensures
        (HeaderView { keyslots: h.keyslots.push(slot), ..h }).master_key_for(seq![hashed_key])
            == Ok::<Seq<u8>, Error>(
            match h.first_unwrap(hashed_key, 0) {
                Some(k) => k,
                None => slot.unwrap_with(h.algorithm, hashed_key).unwrap(),
            },
        ),
{
    let g = HeaderView { keyslots: h.keyslots.push(slot), ..h };
    lemma_first_unwrap_push(h, slot, hashed_key, 0);
    let keys = seq![hashed_key];
    assert(keys[0] == hashed_key);
    assert(g.first_master_key(keys, 1) is None);
}

/// Appending a keyslot or an object leaves what every object that was
/// already there opens to.
pub proof fn lemma_object_kept(
    h: HeaderView,
    slot: KeyslotView,
    object: ObjectView,
    index: int,
    master_key: Seq<u8>,
)
    requires
        0 <= index < h.objects.len(),
    ensures
        (HeaderView { keyslots: h.keyslots.push(slot), ..h }).object_plaintext(index, master_key)
            == h.object_plaintext(index, master_key),
        (HeaderView { objects: h.objects.push(object), ..h }).object_plaintext(index, master_key)
            == h.object_plaintext(index, master_key),
{
}

/// Trial decryption answers `IncorrectPassword` exactly where the header
/// has a keyslot and no candidate opens any keyslot.
pub proof fn lemma_incorrect_password(h: HeaderView, keys: Seq<Seq<u8>>)
    ensures
        h.master_key_for(keys) == Err::<Seq<u8>, Error>(Error::IncorrectPassword) <==> (
        h.keyslots.len() > 0 && forall|i: int, j: int|
            0 <= i < keys.len() && 0 <= j < h.keyslots.len() ==> (#[trigger] h.keyslots[j].unwrap_with(
                h.algorithm,
                #[trigger] keys[i],
            )) is None),
{
    if h.keyslots.len() > 0 {
        lemma_no_candidate_opens(h, keys, 0);
    }
}

/// From a candidate on, no master key comes out exactly where no candidate
/// opens any keyslot.
proof fn lemma_no_candidate_opens(h: HeaderView, keys: Seq<Seq<u8>>, from: int)
    requires
        0 <= from <= keys.len(),
    ensures
        h.first_master_key(keys, from) is None <==> (forall|i: int, j: int|
            from <= i < keys.len() && 0 <= j < h.keyslots.len() ==> (#[trigger] h.keyslots[j].unwrap_with(
                h.algorithm,
                #[trigger] keys[i],
            )) is None),
    decreases keys.len() - from,
{
    if from < keys.len() {
        lemma_no_keyslot_opens(h, keys[from], 0);
        lemma_no_candidate_opens(h, keys, from + 1);
    }
}

/// From a keyslot on, none opens under a hashed key exactly where each of
/// them fails to.
proof fn lemma_no_keyslot_opens(h: HeaderView, hashed_key: Seq<u8>, from: int)
    requires
        0 <= from <= h.keyslots.len(),
    ensures
        h.first_unwrap(hashed_key, from) is None <==> (forall|j: int|
            from <= j < h.keyslots.len() ==> (#[trigger] h.keyslots[j]).unwrap_with(
                h.algorithm,
                hashed_key,
            ) is None),
    decreases h.keyslots.len() - from,
{
    if from < h.keyslots.len() {
        lemma_no_keyslot_opens(h, hashed_key, from + 1);
    }
}

/// A header to which a keyslot for `hashed_key` and an object sealed under
/// the same master key were added gives that master key up to `hashed_key`,
/// and the object opens under it to the plaintext that was sealed. Left out
/// are the headers in which an earlier keyslot opens under `hashed_key` to
/// another master key: trial decryption answers that one.
pub proof fn lemma_object_opens_after_unlock(
    h: HeaderView,
    slot: KeyslotView,
    object: ObjectView,
    hashed_key: Seq<u8>,
    master_key: Seq<u8>,
    data: Seq<u8>,
)
    requires
        slot.unwrap_with(h.algorithm, hashed_key) == Some(master_key),
        object.open_with(h.algorithm, h.aad, master_key) == Some(data),
        h.first_unwrap(hashed_key, 0) matches Some(k) ==> k == master_key,
    ensures
        ({
            let g = HeaderView {
                keyslots: h.keyslots.push(slot),
                objects: h.objects.push(object),
                ..h
            };
            &&& g.master_key_for(seq![hashed_key]) == Ok::<Seq<u8>, Error>(master_key)
            &&& g.object_plaintext(h.objects.len() as int, master_key) == Ok::<Seq<u8>, Error>(
                data,
            )
        }),
{
    let mid = HeaderView { objects: h.objects.push(object), ..h };
    assert(mid.keyslots == h.keyslots);
    lemma_first_unwrap_same_keyslots(h, mid, hashed_key, 0);
    lemma_added_keyslot_unlocks(mid, slot, hashed_key);
}

/// The first keyslot that opens depends on the cipher and the keyslots only.
proof fn lemma_first_unwrap_same_keyslots(
    a: HeaderView,
    b: HeaderView,
    hashed_key: Seq<u8>,
    from: int,
)
    requires
        a.keyslots == b.keyslots,
        a.algorithm == b.algorithm,
    ensures
        a.first_unwrap(hashed_key, from) == b.first_unwrap(hashed_key, from),
    decreases a.keyslots.len() - from,
{
    if 0 <= from < a.keyslots.len() {
        lemma_first_unwrap_same_keyslots(a, b, hashed_key, from + 1);
    }
}

} // verus!
