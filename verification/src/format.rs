//! The byte layout of the version 1 header.
//!
//! An encoded header is the magic bytes `SDFH`, the version byte, the 32
//! bytes of associated data, the cipher's tag, the body nonce, the keyslots
//! and the objects. Counts and lengths are unsigned 64-bit integers, little
//! endian; every other field has its natural width. A keyslot is two tag
//! bytes, salt, content salt, wrapped key and nonce; an object is a tag byte,
//! its nonce, the length of its data and the data.
use vstd::prelude::*;
use vstd::bytes::{
    lemma_auto_spec_u64_to_from_le_bytes, spec_u64_from_le_bytes, spec_u64_to_le_bytes,
    u64_to_le_bytes,
};
use crate::header::{
    FileHeader001, FileHeaderObject001, HeaderView, Keyslot001, KeyslotView, ObjectView,
};
use crate::types::{
    Aad, Algorithm, EncryptedKey, Error, HashingAlgorithm, HeaderObjectType, Nonce, Salt,
};
use crate::wire::{
    append_bytes, lemma_holds_index, lemma_holds_split, spec_count, spec_holds_at, take,
    take_count,
};

verus! {

/// The version this layout carries.
pub const VERSION: u8 = 1;

/// `b` starts with the magic bytes, ASCII `SDFH`.
pub open spec fn spec_has_magic(b: Seq<u8>) -> bool {
    b.len() >= 4 && b[0] == 0x53 && b[1] == 0x44 && b[2] == 0x46 && b[3] == 0x48
}

/// The magic bytes.
pub open spec fn spec_magic() -> Seq<u8> {
    seq![0x53u8, 0x44u8, 0x46u8, 0x48u8]
}

/// The bytes of a keyslot.
pub open spec fn spec_encode_keyslot(k: KeyslotView) -> Seq<u8> {
    seq![k.hashing_algorithm.spec_tag(), k.hashing_algorithm.spec_params().spec_tag()] + k.salt
        + k.content_salt + k.master_key + k.nonce
}

/// The bytes of keyslots, one after the other.
pub open spec fn spec_encode_keyslots(ks: Seq<KeyslotView>) -> Seq<u8>
    decreases ks.len(),
{
    if ks.len() == 0 {
        Seq::empty()
    } else {
        spec_encode_keyslots(ks.drop_last()) + spec_encode_keyslot(ks.last())
    }
}

/// The bytes of an object.
pub open spec fn spec_encode_object(o: ObjectView) -> Seq<u8> {
    seq![o.object_type.spec_tag()] + o.nonce + spec_count(o.data.len()) + o.data
}

/// The bytes of objects, one after the other.
pub open spec fn spec_encode_objects(os: Seq<ObjectView>) -> Seq<u8>
    decreases os.len(),
{
    if os.len() == 0 {
        Seq::empty()
    } else {
        spec_encode_objects(os.drop_last()) + spec_encode_object(os.last())
    }
}

/// The bytes of a header.
pub open spec fn spec_serialize(h: HeaderView) -> Seq<u8> {
    spec_magic() + seq![1u8] + h.aad + seq![h.algorithm.spec_tag()] + h.nonce + spec_count(
        h.keyslots.len(),
    ) + spec_encode_keyslots(h.keyslots) + spec_count(h.objects.len()) + spec_encode_objects(
        h.objects,
    )
}

/// The keyslot that stands at `p`, and the position behind it.
pub open spec fn spec_decode_keyslot(b: Seq<u8>, p: int, algorithm: Algorithm) -> Option<
    (KeyslotView, int),
> {
    let n = algorithm.spec_nonce_len() as int;
    if p < 0 || p + 82 + n > b.len() {
        None
    } else {
        match HashingAlgorithm::spec_from_tags(b[p], b[p + 1]) {
            None => None,
            Some(ha) => Some(
                (
                    KeyslotView {
                        hashing_algorithm: ha,
                        salt: b.subrange(p + 2, p + 18),
                        content_salt: b.subrange(p + 18, p + 34),
                        master_key: b.subrange(p + 34, p + 82),
                        nonce: b.subrange(p + 82, p + 82 + n),
                    },
                    p + 82 + n,
                ),
            ),
        }
    }
}

/// The `count` keyslots that stand from `p` on, and the position behind them.
pub open spec fn spec_decode_keyslots(b: Seq<u8>, p: int, count: nat, algorithm: Algorithm)
    -> Option<(Seq<KeyslotView>, int)>
    decreases count,
{
    if count == 0 {
        Some((Seq::empty(), p))
    } else {
        match spec_decode_keyslots(b, p, (count - 1) as nat, algorithm) {
            None => None,
            Some((ks, q)) => match spec_decode_keyslot(b, q, algorithm) {
                None => None,
                Some((k, q2)) => Some((ks.push(k), q2)),
            },
        }
    }
}

/// The object that stands at `p`, and the position behind it.
pub open spec fn spec_decode_object(b: Seq<u8>, p: int, algorithm: Algorithm) -> Option<
    (ObjectView, int),
> {
    let n = algorithm.spec_nonce_len() as int;
    if p < 0 || p + 9 + n > b.len() {
        None
    } else {
        let len = spec_u64_from_le_bytes(b.subrange(p + 1 + n, p + 9 + n)) as int;
        match HeaderObjectType::spec_from_tag(b[p]) {
            None => None,
            Some(ty) => if p + 9 + n + len > b.len() {
                None
            } else {
                Some(
                    (
                        ObjectView {
                            object_type: ty,
                            nonce: b.subrange(p + 1, p + 1 + n),
                            data: b.subrange(p + 9 + n, p + 9 + n + len),
                        },
                        p + 9 + n + len,
                    ),
                )
            },
        }
    }
}

/// The `count` objects that stand from `p` on, and the position behind them.
pub open spec fn spec_decode_objects(b: Seq<u8>, p: int, count: nat, algorithm: Algorithm)
    -> Option<(Seq<ObjectView>, int)>
    decreases count,
{
    if count == 0 {
        Some((Seq::empty(), p))
    } else {
        match spec_decode_objects(b, p, (count - 1) as nat, algorithm) {
            None => None,
            Some((os, q)) => match spec_decode_object(b, q, algorithm) {
                None => None,
                Some((o, q2)) => Some((os.push(o), q2)),
            },
        }
    }
}

/// What follows the keyslots: the objects, and nothing behind them.
pub open spec fn spec_decode_tail(
    b: Seq<u8>,
    q: int,
    aad: Seq<u8>,
    algorithm: Algorithm,
    nonce: Seq<u8>,
    keyslots: Seq<KeyslotView>,
) -> Result<HeaderView, Error> {
    if q < 0 || q + 8 > b.len() {
        Err(Error::Malformed)
    } else {
        let count = spec_u64_from_le_bytes(b.subrange(q, q + 8));
        if count > 2 {
            Err(Error::TooManyObjects)
        } else {
            match spec_decode_objects(b, q + 8, count as nat, algorithm) {
                None => Err(Error::Malformed),
                Some((os, end)) => if end != b.len() {
                    Err(Error::Malformed)
                } else {
                    Ok(HeaderView { aad, algorithm, nonce, keyslots, objects: os })
                },
            }
        }
    }
}

/// The header that bytes encode, or why they encode none: `Malformed` where
/// the magic bytes are missing or a field is cut short, has an unknown tag or
/// is followed by more bytes; `UnsupportedVersion` where the version is not 1;
/// `UnsupportedAlgorithm` where the cipher's tag is unknown;
/// `TooManyKeyslots` and `TooManyObjects` where a count is over two.
pub open spec fn spec_deserialize(b: Seq<u8>) -> Result<HeaderView, Error> {
    if b.len() < 5 || !spec_has_magic(b) {
        Err(Error::Malformed)
    } else if b[4] != 1 {
        Err(Error::UnsupportedVersion)
    } else if b.len() < 38 {
        Err(Error::Malformed)
    } else {
        match Algorithm::spec_from_tag(b[37]) {
            None => Err(Error::UnsupportedAlgorithm),
            Some(algorithm) => {
                let n = algorithm.spec_nonce_len() as int;
                if b.len() < 46 + n {
                    Err(Error::Malformed)
                } else {
                    let count = spec_u64_from_le_bytes(b.subrange(38 + n, 46 + n));
                    if count > 2 {
                        Err(Error::TooManyKeyslots)
                    } else {
                        match spec_decode_keyslots(b, 46 + n, count as nat, algorithm) {
                            None => Err(Error::Malformed),
                            Some((ks, q)) => spec_decode_tail(
                                b,
                                q,
                                b.subrange(5, 37),
                                algorithm,
                                b.subrange(38, 38 + n),
                                ks,
                            ),
                        }
                    }
                }
            },
        }
    }
}

fn encode_keyslot(out: &mut Vec<u8>, k: &Keyslot001)
    ensures
        final(out)@ == old(out)@ + spec_encode_keyslot(k@),
{
    out.push(k.hashing_algorithm.tag());
    out.push(k.hashing_algorithm.params().tag());
    append_bytes(out, &k.salt.bytes);
    append_bytes(out, &k.content_salt.bytes);
    append_bytes(out, &k.master_key.bytes);
    append_bytes(out, &k.nonce.bytes);
    assert(out@ =~= old(out)@ + spec_encode_keyslot(k@));
}

fn encode_object(out: &mut Vec<u8>, o: &FileHeaderObject001)
    ensures
        final(out)@ == old(out)@ + spec_encode_object(o@),
{
    out.push(o.object_type.tag());
    append_bytes(out, &o.nonce.bytes);
    let len = u64_to_le_bytes(o.data.len() as u64);
    append_bytes(out, &len);
    append_bytes(out, &o.data);
    assert(out@ =~= old(out)@ + spec_encode_object(o@));
}

fn decode_keyslot(bytes: &[u8], pos: usize, algorithm: Algorithm) -> (r: Option<
    (Keyslot001, usize),
>)
    ensures
        match spec_decode_keyslot(bytes@, pos as int, algorithm) {
            Some((k, q)) => r matches Some((x, y)) && x@ == k && y == q && x@.wf(algorithm),
            None => r is None,
        },
{
    let n = algorithm.nonce_len();
    if 82 + n > bytes.len() || pos > bytes.len() - (82 + n) {
        return None;
    }
    let hashing_algorithm = match HashingAlgorithm::from_tags(bytes[pos], bytes[pos + 1]) {
        Some(h) => h,
        None => {
            return None;
        },
    };
    let salt = take(bytes, pos + 2, 16);
    let content_salt = take(bytes, pos + 18, 16);
    let master_key = take(bytes, pos + 34, 48);
    let nonce = take(bytes, pos + 82, n);
    match (salt, content_salt, master_key, nonce) {
        (Some(s), Some(c), Some(m), Some(x)) => Some(
            (
                Keyslot001 {
                    hashing_algorithm,
                    salt: Salt { bytes: s },
                    content_salt: Salt { bytes: c },
                    master_key: EncryptedKey { bytes: m },
                    nonce: Nonce { bytes: x },
                },
                pos + 82 + n,
            ),
        ),
        _ => None,
    }
}

fn decode_object(bytes: &[u8], pos: usize, algorithm: Algorithm) -> (r: Option<
    (FileHeaderObject001, usize),
>)
    ensures
        match spec_decode_object(bytes@, pos as int, algorithm) {
            Some((o, q)) => r matches Some((x, y)) && x@ == o && y == q && x@.wf(algorithm),
            None => r is None,
        },
{
    let n = algorithm.nonce_len();
    if 9 + n > bytes.len() || pos > bytes.len() - (9 + n) {
        return None;
    }
    let len = match take_count(bytes, pos + 1 + n) {
        Some(l) => l,
        None => {
            return None;
        },
    };
    let object_type = match HeaderObjectType::from_tag(bytes[pos]) {
        Some(t) => t,
        None => {
            return None;
        },
    };
    let rest = bytes.len() - (pos + 9 + n);
    if len > rest as u64 {
        return None;
    }
    let nonce = take(bytes, pos + 1, n);
    let data = take(bytes, pos + 9 + n, len as usize);
    match (nonce, data) {
        (Some(x), Some(d)) => Some(
            (
                FileHeaderObject001 { object_type, nonce: Nonce { bytes: x }, data: d },
                pos + 9 + n + len as usize,
            ),
        ),
        _ => None,
    }
}

/// Once decoding has failed for a count, it fails for every larger one.
proof fn lemma_decode_keyslots_stays_none(
    b: Seq<u8>,
    p: int,
    failed: nat,
    count: nat,
    algorithm: Algorithm,
)
    requires
        spec_decode_keyslots(b, p, failed, algorithm) is None,
        failed <= count,
    ensures
        spec_decode_keyslots(b, p, count, algorithm) is None,
    decreases count,
{
    if failed < count {
        lemma_decode_keyslots_stays_none(b, p, failed, (count - 1) as nat, algorithm);
    }
}

/// Once decoding has failed for a count, it fails for every larger one.
proof fn lemma_decode_objects_stays_none(
    b: Seq<u8>,
    p: int,
    failed: nat,
    count: nat,
    algorithm: Algorithm,
)
    requires
        spec_decode_objects(b, p, failed, algorithm) is None,
        failed <= count,
    ensures
        spec_decode_objects(b, p, count, algorithm) is None,
    decreases count,
{
    if failed < count {
        lemma_decode_objects_stays_none(b, p, failed, (count - 1) as nat, algorithm);
    }
}

impl FileHeader001 {
    /// The header's bytes. Encoding never fails.
    pub fn serialize(&self) -> (r: Result<Vec<u8>, Error>)
        ensures
            r matches Ok(v) && v@ == spec_serialize(self@),
    {
        let mut out: Vec<u8> = Vec::new();
        out.push(0x53);
        out.push(0x44);
        out.push(0x46);
        out.push(0x48);
        out.push(VERSION);
        append_bytes(&mut out, &self.aad.bytes);
        out.push(self.algorithm.tag());
        append_bytes(&mut out, &self.nonce.bytes);
        let count = u64_to_le_bytes(self.keyslots.len() as u64);
        append_bytes(&mut out, &count);
        let ghost head = out@;
        assert(head =~= spec_magic() + seq![1u8] + self@.aad + seq![self@.algorithm.spec_tag()]
            + self@.nonce + spec_count(self@.keyslots.len()));
        let mut i: usize = 0;
        while i < self.keyslots.len()
            invariant
                i <= self.keyslots@.len(),
                out@ == head + spec_encode_keyslots(self@.keyslots.take(i as int)),
            decreases self.keyslots@.len() - i,
        {
            encode_keyslot(&mut out, &self.keyslots[i]);
            proof {
                let next = self@.keyslots.take(i + 1);
                assert(next.drop_last() =~= self@.keyslots.take(i as int));
                assert(next.last() == self.keyslots@[i as int]@);
                assert(out@ =~= head + spec_encode_keyslots(next));
            }
            i += 1;
        }
        assert(self@.keyslots.take(i as int) =~= self@.keyslots);
        let count = u64_to_le_bytes(self.objects.len() as u64);
        append_bytes(&mut out, &count);
        let ghost middle = out@;
        let mut j: usize = 0;
        while j < self.objects.len()
            invariant
                j <= self.objects@.len(),
                out@ == middle + spec_encode_objects(self@.objects.take(j as int)),
            decreases self.objects@.len() - j,
        {
            encode_object(&mut out, &self.objects[j]);
            proof {
                let next = self@.objects.take(j + 1);
                assert(next.drop_last() =~= self@.objects.take(j as int));
                assert(next.last() == self.objects@[j as int]@);
                assert(out@ =~= middle + spec_encode_objects(next));
            }
            j += 1;
        }
        assert(self@.objects.take(j as int) =~= self@.objects);
        Ok(out)
    }

    /// The header that `bytes` encode, or why they encode none. Bytes that
    /// decode are the bytes of the header they decode to.
    pub fn deserialize(bytes: &[u8]) -> (r: Result<FileHeader001, Error>)
        ensures
            match spec_deserialize(bytes@) {
                Ok(h) => r matches Ok(x) && x@ == h && x.wf(),
                Err(e) => r matches Err(f) && f == e,
            },
            r matches Ok(x) ==> spec_serialize(x@) == bytes@,
    {
        proof {
            lemma_serialize_deserialize(bytes@);
        }
        FileHeader001::decode(bytes)
    }

    /// Reads a header field by field.
    #[verifier::loop_isolation(false)]
    fn decode(bytes: &[u8]) -> (r: Result<FileHeader001, Error>)
        ensures
            match spec_deserialize(bytes@) {
                Ok(h) => r matches Ok(x) && x@ == h && x.wf(),
                Err(e) => r matches Err(f) && f == e,
            },
    {
        if bytes.len() < 5 || bytes[0] != 0x53 || bytes[1] != 0x44 || bytes[2] != 0x46 || bytes[3]
            != 0x48 {
            return Err(Error::Malformed);
        }
        if bytes[4] != VERSION {
            return Err(Error::UnsupportedVersion);
        }
        if bytes.len() < 38 {
            return Err(Error::Malformed);
        }
        let algorithm = match Algorithm::from_tag(bytes[37]) {
            Ok(a) => a,
            Err(e) => {
                return Err(e);
            },
        };
        let n = algorithm.nonce_len();
        if bytes.len() < 46 + n {
            return Err(Error::Malformed);
        }
        let aad = take(bytes, 5, 32);
        let nonce = take(bytes, 38, n);
        let count = take_count(bytes, 38 + n);
        let (aad, nonce, count) = match (aad, nonce, count) {
            (Some(a), Some(x), Some(c)) => (Aad { bytes: a }, Nonce { bytes: x }, c),
            _ => {
                return Err(Error::Malformed);
            },
        };
        if count > 2 {
            return Err(Error::TooManyKeyslots);
        }
        let ghost b = bytes@;
        let start: usize = 46 + n;
        let mut pos: usize = start;
        let mut keyslots: Vec<Keyslot001> = Vec::new();
        let mut i: u64 = 0;
        while i < count
            invariant
                i <= count <= 2,
                b == bytes@,
                spec_decode_keyslots(b, start as int, i as nat, algorithm) == Some(
                    (keyslots@.map_values(|k: Keyslot001| k@), pos as int),
                ),
                forall|t: int| 0 <= t < keyslots@.len() ==> (#[trigger] keyslots@[t])@.wf(algorithm),
                keyslots@.len() == i,
            decreases count - i,
        {
            match decode_keyslot(bytes, pos, algorithm) {
                Some((k, q)) => {
                    let ghost before = keyslots@.map_values(|k: Keyslot001| k@);
                    keyslots.push(k);
                    pos = q;
                    assert(keyslots@.map_values(|k: Keyslot001| k@) =~= before.push(k@));
                },
                None => {
                    proof {
                        lemma_decode_keyslots_stays_none(
                            b,
                            start as int,
                            (i + 1) as nat,
                            count as nat,
                            algorithm,
                        );
                    }
                    return Err(Error::Malformed);
                },
            }
            i += 1;
        }
        let count = match take_count(bytes, pos) {
            Some(c) => c,
            None => {
                return Err(Error::Malformed);
            },
        };
        if count > 2 {
            return Err(Error::TooManyObjects);
        }
        let first: usize = pos + 8;
        let mut pos: usize = first;
        let mut objects: Vec<FileHeaderObject001> = Vec::new();
        let mut j: u64 = 0;
        while j < count
            invariant
                j <= count <= 2,
                b == bytes@,
                spec_decode_objects(b, first as int, j as nat, algorithm) == Some(
                    (objects@.map_values(|o: FileHeaderObject001| o@), pos as int),
                ),
                forall|t: int| 0 <= t < objects@.len() ==> (#[trigger] objects@[t])@.wf(algorithm),
                objects@.len() == j,
            decreases count - j,
        {
            match decode_object(bytes, pos, algorithm) {
                Some((o, q)) => {
                    let ghost before = objects@.map_values(|o: FileHeaderObject001| o@);
                    objects.push(o);
                    pos = q;
                    assert(objects@.map_values(|o: FileHeaderObject001| o@) =~= before.push(o@));
                },
                None => {
                    proof {
                        lemma_decode_objects_stays_none(
                            b,
                            first as int,
                            (j + 1) as nat,
                            count as nat,
                            algorithm,
                        );
                    }
                    return Err(Error::Malformed);
                },
            }
            j += 1;
        }
        if pos != bytes.len() {
            return Err(Error::Malformed);
        }
        Ok(FileHeader001 { aad, algorithm, nonce, keyslots, objects })
    }
}

/// A well-formed keyslot is decoded from where its bytes stand.
proof fn lemma_decode_encoded_keyslot(b: Seq<u8>, p: int, k: KeyslotView, algorithm: Algorithm)
    requires
        spec_holds_at(b, p, spec_encode_keyslot(k)),
        k.wf(algorithm),
    ensures
        spec_encode_keyslot(k).len() == 82 + algorithm.spec_nonce_len(),
        spec_decode_keyslot(b, p, algorithm) == Some(
            (k, p + 82 + algorithm.spec_nonce_len() as int),
        ),
{
    let tags = seq![k.hashing_algorithm.spec_tag(), k.hashing_algorithm.spec_params().spec_tag()];
    let n = algorithm.spec_nonce_len() as int;
    lemma_holds_split(b, p, tags + k.salt + k.content_salt + k.master_key, k.nonce);
    lemma_holds_split(b, p, tags + k.salt + k.content_salt, k.master_key);
    lemma_holds_split(b, p, tags + k.salt, k.content_salt);
    lemma_holds_split(b, p, tags, k.salt);
    lemma_holds_index(b, p, tags, 0);
    lemma_holds_index(b, p, tags, 1);
    assert(HashingAlgorithm::spec_from_tags(b[p], b[p + 1]) == Some(k.hashing_algorithm));
    let d = spec_decode_keyslot(b, p, algorithm).unwrap().0;
    assert(d.salt == k.salt);
    assert(d.content_salt == k.content_salt);
    assert(d.master_key == k.master_key);
    assert(d.nonce == k.nonce);
}

/// Well-formed keyslots are decoded from where their bytes stand.
proof fn lemma_decode_encoded_keyslots(
    b: Seq<u8>,
    p: int,
    ks: Seq<KeyslotView>,
    algorithm: Algorithm,
)
    requires
        spec_holds_at(b, p, spec_encode_keyslots(ks)),
        forall|i: int| 0 <= i < ks.len() ==> (#[trigger] ks[i]).wf(algorithm),
    ensures
        spec_decode_keyslots(b, p, ks.len(), algorithm) == Some(
            (ks, p + spec_encode_keyslots(ks).len()),
        ),
    decreases ks.len(),
{
    if ks.len() == 0 {
        assert(ks =~= Seq::empty());
    } else {
        let init = ks.drop_last();
        lemma_holds_split(b, p, spec_encode_keyslots(init), spec_encode_keyslot(ks.last()));
        lemma_decode_encoded_keyslots(b, p, init, algorithm);
        lemma_decode_encoded_keyslot(
            b,
            p + spec_encode_keyslots(init).len(),
            ks.last(),
            algorithm,
        );
        assert(init.push(ks.last()) =~= ks);
    }
}

/// A well-formed object is decoded from where its bytes stand.
proof fn lemma_decode_encoded_object(b: Seq<u8>, p: int, o: ObjectView, algorithm: Algorithm)
    requires
        spec_holds_at(b, p, spec_encode_object(o)),
        o.wf(algorithm),
    ensures
        spec_decode_object(b, p, algorithm) == Some((o, p + spec_encode_object(o).len())),
{
    let tag = seq![o.object_type.spec_tag()];
    let n = algorithm.spec_nonce_len() as int;
    let len = spec_count(o.data.len());
    lemma_auto_spec_u64_to_from_le_bytes();
    lemma_holds_split(b, p, tag + o.nonce + len, o.data);
    lemma_holds_split(b, p, tag + o.nonce, len);
    lemma_holds_split(b, p, tag, o.nonce);
    lemma_holds_index(b, p, tag, 0);
    assert(HeaderObjectType::spec_from_tag(b[p]) == Some(o.object_type));
    assert(b.subrange(p + 1 + n, p + 9 + n) == len);
    assert(spec_u64_from_le_bytes(len) == o.data.len());
    let d = spec_decode_object(b, p, algorithm).unwrap().0;
    assert(d.nonce == o.nonce);
    assert(d.data == o.data);
}

/// Well-formed objects are decoded from where their bytes stand.
proof fn lemma_decode_encoded_objects(
    b: Seq<u8>,
    p: int,
    os: Seq<ObjectView>,
    algorithm: Algorithm,
)
    requires
        spec_holds_at(b, p, spec_encode_objects(os)),
        forall|i: int| 0 <= i < os.len() ==> (#[trigger] os[i]).wf(algorithm),
    ensures
        spec_decode_objects(b, p, os.len(), algorithm) == Some(
            (os, p + spec_encode_objects(os).len()),
        ),
    decreases os.len(),
{
    if os.len() == 0 {
        assert(os =~= Seq::empty());
    } else {
        let init = os.drop_last();
        lemma_holds_split(b, p, spec_encode_objects(init), spec_encode_object(os.last()));
        lemma_decode_encoded_objects(b, p, init, algorithm);
        lemma_decode_encoded_object(b, p + spec_encode_objects(init).len(), os.last(), algorithm);
        assert(init.push(os.last()) =~= os);
    }
}

/// Decoding inverts encoding: the bytes of a well-formed header decode to
/// that header, field for field.
pub proof fn lemma_deserialize_serialize(h: HeaderView)
    requires
        h.wf(),
    ensures
        spec_deserialize(spec_serialize(h)) == Ok::<HeaderView, Error>(h),
{
    let b = spec_serialize(h);
    let n = h.algorithm.spec_nonce_len() as int;
    let version = seq![1u8];
    let tag = seq![h.algorithm.spec_tag()];
    let kc = spec_count(h.keyslots.len());
    let ks = spec_encode_keyslots(h.keyslots);
    let oc = spec_count(h.objects.len());
    let os = spec_encode_objects(h.objects);
    lemma_auto_spec_u64_to_from_le_bytes();
    assert(b.subrange(0, b.len() as int) =~= b);
    lemma_holds_split(b, 0, spec_magic() + version + h.aad + tag + h.nonce + kc + ks + oc, os);
    lemma_holds_split(b, 0, spec_magic() + version + h.aad + tag + h.nonce + kc + ks, oc);
    lemma_holds_split(b, 0, spec_magic() + version + h.aad + tag + h.nonce + kc, ks);
    lemma_holds_split(b, 0, spec_magic() + version + h.aad + tag + h.nonce, kc);
    lemma_holds_split(b, 0, spec_magic() + version + h.aad + tag, h.nonce);
    lemma_holds_split(b, 0, spec_magic() + version + h.aad, tag);
    lemma_holds_split(b, 0, spec_magic() + version, h.aad);
    lemma_holds_split(b, 0, spec_magic(), version);
    lemma_holds_index(b, 0, spec_magic(), 0);
    lemma_holds_index(b, 0, spec_magic(), 1);
    lemma_holds_index(b, 0, spec_magic(), 2);
    lemma_holds_index(b, 0, spec_magic(), 3);
    lemma_holds_index(b, 4, version, 0);
    lemma_holds_index(b, 37, tag, 0);
    assert(spec_has_magic(b));
    assert(b[4] == 1);
    assert(Algorithm::spec_from_tag(b[37]) == Some(h.algorithm));
    assert(b.subrange(5, 37) == h.aad);
    assert(b.subrange(38, 38 + n) == h.nonce);
    assert(b.subrange(38 + n, 46 + n) == kc);
    assert(spec_u64_from_le_bytes(kc) == h.keyslots.len());
    lemma_decode_encoded_keyslots(b, 46 + n, h.keyslots, h.algorithm);
    let q = 46 + n + ks.len();
    assert(b.subrange(q, q + 8) == oc);
    assert(spec_u64_from_le_bytes(oc) == h.objects.len());
    lemma_decode_encoded_objects(b, q + 8, h.objects, h.algorithm);
    assert(q + 8 + os.len() == b.len());
}

/// Two well-formed headers with the same bytes are the same header, field
/// for field.
pub proof fn lemma_serialize_injective(h1: HeaderView, h2: HeaderView)
    requires
        h1.wf(),
        h2.wf(),
        spec_serialize(h1) == spec_serialize(h2),
    ensures
        h1 == h2,
{
    lemma_deserialize_serialize(h1);
    lemma_deserialize_serialize(h2);
}

/// A keyslot that was decoded is well formed, and its bytes are the ones it
/// was decoded from.
proof fn lemma_encode_decoded_keyslot(b: Seq<u8>, p: int, algorithm: Algorithm)
    ensures
        spec_decode_keyslot(b, p, algorithm) matches Some((k, q)) ==> k.wf(algorithm) && 0 <= p
            <= q <= b.len() && spec_encode_keyslot(k) == b.subrange(p, q),
{
    if let Some((k, q)) = spec_decode_keyslot(b, p, algorithm) {
        assert(spec_encode_keyslot(k) =~= b.subrange(p, q));
    }
}

/// Keyslots that were decoded are well formed, and their bytes are the ones
/// they were decoded from.
proof fn lemma_encode_decoded_keyslots(b: Seq<u8>, p: int, count: nat, algorithm: Algorithm)
    requires
        0 <= p <= b.len(),
    ensures
        spec_decode_keyslots(b, p, count, algorithm) matches Some((ks, q)) ==> {
            &&& ks.len() == count
            &&& p <= q <= b.len()
            &&& spec_encode_keyslots(ks) == b.subrange(p, q)
            &&& forall|i: int| 0 <= i < ks.len() ==> (#[trigger] ks[i]).wf(algorithm)
        },
    decreases count,
{
    if count == 0 {
        assert(spec_encode_keyslots(Seq::empty()) =~= b.subrange(p, p));
    } else {
        lemma_encode_decoded_keyslots(b, p, (count - 1) as nat, algorithm);
        if let Some((init, m)) = spec_decode_keyslots(b, p, (count - 1) as nat, algorithm) {
            lemma_encode_decoded_keyslot(b, m, algorithm);
            if let Some((k, q)) = spec_decode_keyslot(b, m, algorithm) {
                let ks = init.push(k);
                assert(ks.drop_last() =~= init);
                assert(ks.last() == k);
                assert(b.subrange(p, m) + b.subrange(m, q) =~= b.subrange(p, q));
            }
        }
    }
}

/// An object that was decoded is well formed, and its bytes are the ones it
/// was decoded from.
proof fn lemma_encode_decoded_object(b: Seq<u8>, p: int, algorithm: Algorithm)
    ensures
        spec_decode_object(b, p, algorithm) matches Some((o, q)) ==> o.wf(algorithm) && 0 <= p
            <= q <= b.len() && spec_encode_object(o) == b.subrange(p, q),
{
    lemma_auto_spec_u64_to_from_le_bytes();
    if let Some((o, q)) = spec_decode_object(b, p, algorithm) {
        let n = algorithm.spec_nonce_len() as int;
        let len = b.subrange(p + 1 + n, p + 9 + n);
        assert(spec_u64_to_le_bytes(spec_u64_from_le_bytes(len)) == len);
        assert(spec_count(o.data.len()) == len);
        assert(spec_encode_object(o) =~= b.subrange(p, q));
    }
}

/// Objects that were decoded are well formed, and their bytes are the ones
/// they were decoded from.
proof fn lemma_encode_decoded_objects(b: Seq<u8>, p: int, count: nat, algorithm: Algorithm)
    requires
        0 <= p <= b.len(),
    ensures
        spec_decode_objects(b, p, count, algorithm) matches Some((os, q)) ==> {
            &&& os.len() == count
            &&& p <= q <= b.len()
            &&& spec_encode_objects(os) == b.subrange(p, q)
            &&& forall|i: int| 0 <= i < os.len() ==> (#[trigger] os[i]).wf(algorithm)
        },
    decreases count,
{
    if count == 0 {
        assert(spec_encode_objects(Seq::empty()) =~= b.subrange(p, p));
    } else {
        lemma_encode_decoded_objects(b, p, (count - 1) as nat, algorithm);
        if let Some((init, m)) = spec_decode_objects(b, p, (count - 1) as nat, algorithm) {
            lemma_encode_decoded_object(b, m, algorithm);
            if let Some((o, q)) = spec_decode_object(b, m, algorithm) {
                let os = init.push(o);
                assert(os.drop_last() =~= init);
                assert(os.last() == o);
                assert(b.subrange(p, m) + b.subrange(m, q) =~= b.subrange(p, q));
            }
        }
    }
}

/// Encoding inverts decoding: bytes that decode to a header are the bytes
/// of that header, and the header is well formed. With
/// `lemma_deserialize_serialize`: bytes decode to a header exactly where
/// they are the bytes of a well-formed header, and then to that one.
pub proof fn lemma_serialize_deserialize(b: Seq<u8>)
    ensures
        spec_deserialize(b) matches Ok(h) ==> h.wf() && spec_serialize(h) == b,
{
    lemma_auto_spec_u64_to_from_le_bytes();
    if let Ok(h) = spec_deserialize(b) {
        let n = h.algorithm.spec_nonce_len() as int;
        let kc = b.subrange(38 + n, 46 + n);
        assert(spec_u64_to_le_bytes(spec_u64_from_le_bytes(kc)) == kc);
        let count = spec_u64_from_le_bytes(kc);
        lemma_encode_decoded_keyslots(b, 46 + n, count as nat, h.algorithm);
        let q = spec_decode_keyslots(b, 46 + n, count as nat, h.algorithm).unwrap().1;
        let oc = b.subrange(q, q + 8);
        assert(spec_u64_to_le_bytes(spec_u64_from_le_bytes(oc)) == oc);
        let objects = spec_u64_from_le_bytes(oc);
        lemma_encode_decoded_objects(b, q + 8, objects as nat, h.algorithm);
        assert(spec_count(h.keyslots.len()) == kc);
        assert(spec_count(h.objects.len()) == oc);
        assert(spec_magic() + seq![1u8] =~= b.subrange(0, 5));
        assert(seq![h.algorithm.spec_tag()] =~= b.subrange(37, 38));
        assert(spec_serialize(h) =~= b.subrange(0, 5) + b.subrange(5, 37) + b.subrange(37, 38)
            + b.subrange(38, 38 + n) + kc + b.subrange(46 + n, q) + oc + b.subrange(
            q + 8,
            b.len() as int,
        ));
        assert(spec_serialize(h) =~= b);
    }
}

} // verus!
