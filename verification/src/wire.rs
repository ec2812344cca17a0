//! Reading and writing counted byte strings.
use vstd::prelude::*;
use vstd::bytes::{
    lemma_auto_spec_u64_to_from_le_bytes, spec_u64_from_le_bytes, spec_u64_to_le_bytes,
    u64_from_le_bytes, u64_to_le_bytes,
};

verus! {

/// A count or length as eight bytes, little endian.
pub open spec fn spec_count(n: nat) -> Seq<u8> {
    spec_u64_to_le_bytes(n as u64)
}

/// Appends `src` to `out`.
pub fn append_bytes(out: &mut Vec<u8>, src: &Vec<u8>)
    ensures
        final(out)@ == old(out)@ + src@,
{
    let mut i: usize = 0;
    while i < src.len()
        invariant
            i <= src@.len(),
            out@ == old(out)@ + src@.subrange(0, i as int),
        decreases src@.len() - i,
    {
        out.push(src[i]);
        i += 1;
        assert(out@ =~= old(out)@ + src@.subrange(0, i as int));
    }
    assert(out@ =~= old(out)@ + src@);
}

/// The `n` bytes at `pos`, where that many stand there.
pub fn take(bytes: &[u8], pos: usize, n: usize) -> (r: Option<Vec<u8>>)
    ensures
        pos + n <= bytes@.len() ==> (r matches Some(v) && v@ == bytes@.subrange(
            pos as int,
            pos + n,
        )),
        pos + n > bytes@.len() ==> r is None,
{
    if n > bytes.len() || pos > bytes.len() - n {
        return None;
    }
    let mut out: Vec<u8> = Vec::new();
    let mut i: usize = 0;
    while i < n
        invariant
            i <= n,
            pos + n <= bytes@.len() <= usize::MAX,
            out@ == bytes@.subrange(pos as int, pos + i),
        decreases n - i,
    {
        out.push(bytes[pos + i]);
        i += 1;
        assert(out@ =~= bytes@.subrange(pos as int, pos + i));
    }
    Some(out)
}

/// The count or length at `pos`, where eight bytes stand there.
pub fn take_count(bytes: &[u8], pos: usize) -> (r: Option<u64>)
    ensures
        pos + 8 <= bytes@.len() ==> r == Some(
            spec_u64_from_le_bytes(bytes@.subrange(pos as int, pos + 8)),
        ),
        pos + 8 > bytes@.len() ==> r is None,
{
    match take(bytes, pos, 8) {
        Some(v) => Some(u64_from_le_bytes(v.as_slice())),
        None => None,
    }
}

/// The bytes `e` stand in `b` at position `p`.
pub open spec fn spec_holds_at(b: Seq<u8>, p: int, e: Seq<u8>) -> bool {
    0 <= p && p + e.len() <= b.len() && b.subrange(p, p + e.len()) == e
}

/// Where a concatenation stands, its two parts stand one behind the other.
pub proof fn lemma_holds_split(b: Seq<u8>, p: int, x: Seq<u8>, y: Seq<u8>)
    requires
        spec_holds_at(b, p, x + y),
    ensures
        spec_holds_at(b, p, x),
        spec_holds_at(b, p + x.len(), y),
{
    let e = x + y;
    let w = b.subrange(p, p + e.len());
    assert(b.subrange(p, p + x.len()) =~= w.subrange(0, x.len() as int));
    assert(w.subrange(0, x.len() as int) =~= x);
    assert(b.subrange(p + x.len(), p + x.len() + y.len()) =~= w.subrange(
        x.len() as int,
        e.len() as int,
    ));
    assert(w.subrange(x.len() as int, e.len() as int) =~= y);
}

/// Where bytes stand, each of them stands at its own position.
pub proof fn lemma_holds_index(b: Seq<u8>, p: int, e: Seq<u8>, i: int)
    requires
        spec_holds_at(b, p, e),
        0 <= i < e.len(),
    ensures
        b[p + i] == e[i],
{
    assert(b.subrange(p, p + e.len())[i] == b[p + i]);
}


/// A byte string behind its length.
pub open spec fn spec_blob(x: Seq<u8>) -> Seq<u8> {
    spec_count(x.len()) + x
}

/// The counted byte string that stands at `p`, and the position behind it.
pub open spec fn spec_decode_blob(b: Seq<u8>, p: int) -> Option<(Seq<u8>, int)> {
    if p < 0 || p + 8 > b.len() {
        None
    } else {
        let len = spec_u64_from_le_bytes(b.subrange(p, p + 8)) as int;
        if p + 8 + len > b.len() {
            None
        } else {
            Some((b.subrange(p + 8, p + 8 + len), p + 8 + len))
        }
    }
}

/// Appends a byte string behind its length.
pub fn encode_blob(out: &mut Vec<u8>, x: &Vec<u8>)
    ensures
        final(out)@ == old(out)@ + spec_blob(x@),
{
    let len = u64_to_le_bytes(x.len() as u64);
    append_bytes(out, &len);
    append_bytes(out, x);
    assert(out@ =~= old(out)@ + spec_blob(x@));
}

/// Reads the counted byte string at `pos`.
pub fn decode_blob(bytes: &[u8], pos: usize) -> (r: Option<(Vec<u8>, usize)>)
    ensures
        match spec_decode_blob(bytes@, pos as int) {
            Some((x, q)) => r matches Some((v, y)) && v@ == x && y == q,
            None => r is None,
        },
{
    let len = match take_count(bytes, pos) {
        Some(l) => l,
        None => {
            return None;
        },
    };
    let rest = bytes.len() - (pos + 8);
    if len > rest as u64 {
        return None;
    }
    match take(bytes, pos + 8, len as usize) {
        Some(v) => Some((v, pos + 8 + len as usize)),
        None => None,
    }
}

/// A byte string whose length fits in 64 bits is decoded from where it
/// stands behind its length.
pub proof fn lemma_decode_encoded_blob(b: Seq<u8>, p: int, x: Seq<u8>)
    requires
        spec_holds_at(b, p, spec_blob(x)),
        x.len() <= u64::MAX,
    ensures
        spec_blob(x).len() == 8 + x.len(),
        spec_decode_blob(b, p) == Some((x, p + 8 + x.len())),
{
    lemma_auto_spec_u64_to_from_le_bytes();
    lemma_holds_split(b, p, spec_count(x.len()), x);
    assert(spec_u64_from_le_bytes(spec_count(x.len())) == x.len());
}

/// A counted byte string that was decoded has a length that fits in 64
/// bits, and its bytes behind its length are the ones it was decoded from.
pub proof fn lemma_encode_decoded_blob(b: Seq<u8>, p: int)
    ensures
        spec_decode_blob(b, p) matches Some((x, q)) ==> x.len() <= u64::MAX && 0 <= p <= q
            <= b.len() && spec_blob(x) == b.subrange(p, q),
{
    lemma_auto_spec_u64_to_from_le_bytes();
    if let Some((x, q)) = spec_decode_blob(b, p) {
        let len = b.subrange(p, p + 8);
        assert(spec_u64_to_le_bytes(spec_u64_from_le_bytes(len)) == len);
        assert(spec_count(x.len()) == len);
        assert(spec_blob(x) =~= b.subrange(p, q));
    }
}

} // verus!
