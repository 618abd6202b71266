//! Fixed-width, order-preserving byte encodings for keys and stored rows.
//!
//! Numeric secondary keys are encoded as eight big-endian bytes: under a
//! byte-ordered keyspace their lexicographic order coincides with the
//! numeric order, and a prefix scan over a block height behaves correctly
//! because every key of that height, and no other, carries its nine-byte
//! prefix.

use vstd::prelude::*;

verus! {

/// The eight big-endian bytes of a 64-bit integer.
pub open spec fn u64_be_bytes(x: u64) -> Seq<u8> {
    seq![
        ((x >> 56) & 0xff) as u8,
        ((x >> 48) & 0xff) as u8,
        ((x >> 40) & 0xff) as u8,
        ((x >> 32) & 0xff) as u8,
        ((x >> 24) & 0xff) as u8,
        ((x >> 16) & 0xff) as u8,
        ((x >> 8) & 0xff) as u8,
        (x & 0xff) as u8,
    ]
}

/// The integer read back from eight big-endian bytes.
pub open spec fn u64_from_be(s: Seq<u8>) -> u64
    recommends
        s.len() == 8,
{
    (((s[0] as u64) << 56) | ((s[1] as u64) << 48) | ((s[2] as u64) << 40) | ((s[3] as u64) << 32)
        | ((s[4] as u64) << 24) | ((s[5] as u64) << 16) | ((s[6] as u64) << 8) | (s[7] as u64)) as u64
}

/// Writing an integer down and reading it back yields the integer.
pub proof fn lemma_u64_be_roundtrip(x: u64)
    ensures
        u64_from_be(u64_be_bytes(x)) == x,
{
    assert(((((((x >> 56) & 0xff) as u8) as u64) << 56) | (((((x >> 48) & 0xff) as u8) as u64)
        << 48) | (((((x >> 40) & 0xff) as u8) as u64) << 40) | (((((x >> 32) & 0xff) as u8) as u64)
        << 32) | (((((x >> 24) & 0xff) as u8) as u64) << 24) | (((((x >> 16) & 0xff) as u8) as u64)
        << 16) | (((((x >> 8) & 0xff) as u8) as u64) << 8) | ((((x & 0xff) as u8) as u64)) as u64)
        == x) by (bit_vector);
}

/// The encoding is one-to-one: no two integers share their eight bytes.
proof fn lemma_u64_be_injective(x: u64, y: u64)
    ensures
        u64_be_bytes(x) == u64_be_bytes(y) ==> x == y,
{
    if u64_be_bytes(x) == u64_be_bytes(y) {
        lemma_u64_be_roundtrip(x);
        lemma_u64_be_roundtrip(y);
    }
}

/// Lexicographic order on byte strings, the order a byte-ordered
/// keyspace ranks its keys in.
pub open spec fn lex_le(a: Seq<u8>, b: Seq<u8>) -> bool
    decreases a.len(),
{
    if a.len() == 0 {
        true
    } else if b.len() == 0 {
        false
    } else if a[0] < b[0] {
        true
    } else if a[0] > b[0] {
        false
    } else {
        lex_le(a.skip(1), b.skip(1))
    }
}

/// The lexicographic order is reflexive.
proof fn lemma_lex_le_refl(a: Seq<u8>)
    ensures
        lex_le(a, a),
    decreases a.len(),
{
    if a.len() > 0 {
        lemma_lex_le_refl(a.skip(1));
    }
}

/// Two different sequences of equal length differ first at some position.
proof fn lemma_first_difference(a: Seq<u8>, b: Seq<u8>)
    requires
        a.len() == b.len(),
        a != b,
    ensures
        exists|i: int|
            0 <= i < a.len() && a[i] != b[i] && (forall|j: int| 0 <= j < i ==> a[j] == b[j]),
    decreases a.len(),
{
    assert(a.len() > 0) by {
        if a.len() == 0 {
            assert(a =~= b);
        }
    }
    if a[0] != b[0] {
        assert(0 <= 0 < a.len() && a[0] != b[0] && (forall|j: int| 0 <= j < 0 ==> a[j] == b[j]));
    } else {
        assert(a.skip(1) != b.skip(1)) by {
            if a.skip(1) == b.skip(1) {
                assert(forall|k: int| 1 <= k < a.len() ==> a[k] == a.skip(1)[k - 1] && b[k]
                    == b.skip(1)[k - 1]);
                assert(a =~= b);
            }
        }
        lemma_first_difference(a.skip(1), b.skip(1));
        let i0 = choose|i: int|
            0 <= i < a.skip(1).len() && a.skip(1)[i] != b.skip(1)[i] && (forall|j: int|
                0 <= j < i ==> a.skip(1)[j] == b.skip(1)[j]);
        assert(a[i0 + 1] == a.skip(1)[i0] && b[i0 + 1] == b.skip(1)[i0]);
        assert(forall|j: int| 0 <= j < i0 + 1 ==> a[j] == b[j]) by {
            assert(forall|j: int| 1 <= j < i0 + 1 ==> a[j] == a.skip(1)[j - 1] && b[j] == b.skip(
                1,
            )[j - 1]);
        }
        assert(0 <= i0 + 1 < a.len() && a[i0 + 1] != b[i0 + 1] && (forall|j: int|
            0 <= j < i0 + 1 ==> a[j] == b[j]));
    }
}

/// On equal-length sequences that first differ at `i`, the lexicographic
/// order is decided by the bytes at `i`.
proof fn lemma_lex_le_first_difference(a: Seq<u8>, b: Seq<u8>, i: int)
    requires
        a.len() == b.len(),
        0 <= i < a.len(),
        a[i] != b[i],
        forall|j: int| 0 <= j < i ==> a[j] == b[j],
    ensures
        lex_le(a, b) <==> a[i] < b[i],
    decreases i,
{
    if i == 0 {
    } else {
        assert(a.skip(1)[i - 1] != b.skip(1)[i - 1]);
        assert(forall|j: int| 0 <= j < i - 1 ==> a.skip(1)[j] == b.skip(1)[j]) by {
            assert(forall|j: int| 0 <= j < i - 1 ==> a.skip(1)[j] == a[j + 1] && b.skip(1)[j]
                == b[j + 1]);
        }
        lemma_lex_le_first_difference(a.skip(1), b.skip(1), i - 1);
    }
}

/// Relates the order of two integers to the order of the first big-endian
/// byte at which their encodings differ.
proof fn lemma_be_byte_order(x: u64, y: u64, i: int)
    requires
        0 <= i < 8,
        u64_be_bytes(x)[i] != u64_be_bytes(y)[i],
        forall|j: int| 0 <= j < i ==> u64_be_bytes(x)[j] == u64_be_bytes(y)[j],
    ensures
        u64_be_bytes(x)[i] < u64_be_bytes(y)[i] <==> x < y,
{
    let a = u64_be_bytes(x);
    let b = u64_be_bytes(y);
    if i == 0 {
        let ai = a[0];
        let bi = b[0];
        assert(ai < bi <==> x < y) by (bit_vector)
            requires
                ai == ((x >> 56) & 0xff) as u8,
                bi == ((y >> 56) & 0xff) as u8,
                ai != bi,
        ;
    } else if i == 1 {
        let ai = a[1];
        let bi = b[1];
        assert(ai < bi <==> x < y) by (bit_vector)
            requires
                ((x >> 56) & 0xff) as u8 == ((y >> 56) & 0xff) as u8,
                ai == ((x >> 48) & 0xff) as u8,
                bi == ((y >> 48) & 0xff) as u8,
                ai != bi,
        ;
    } else if i == 2 {
        let ai = a[2];
        let bi = b[2];
        assert(ai < bi <==> x < y) by (bit_vector)
            requires
                ((x >> 56) & 0xff) as u8 == ((y >> 56) & 0xff) as u8,
                ((x >> 48) & 0xff) as u8 == ((y >> 48) & 0xff) as u8,
                ai == ((x >> 40) & 0xff) as u8,
                bi == ((y >> 40) & 0xff) as u8,
                ai != bi,
        ;
    } else if i == 3 {
        let ai = a[3];
        let bi = b[3];
        assert(ai < bi <==> x < y) by (bit_vector)
            requires
                ((x >> 56) & 0xff) as u8 == ((y >> 56) & 0xff) as u8,
                ((x >> 48) & 0xff) as u8 == ((y >> 48) & 0xff) as u8,
                ((x >> 40) & 0xff) as u8 == ((y >> 40) & 0xff) as u8,
                ai == ((x >> 32) & 0xff) as u8,
                bi == ((y >> 32) & 0xff) as u8,
                ai != bi,
        ;
    } else if i == 4 {
        let ai = a[4];
        let bi = b[4];
        assert(ai < bi <==> x < y) by (bit_vector)
            requires
                ((x >> 56) & 0xff) as u8 == ((y >> 56) & 0xff) as u8,
                ((x >> 48) & 0xff) as u8 == ((y >> 48) & 0xff) as u8,
                ((x >> 40) & 0xff) as u8 == ((y >> 40) & 0xff) as u8,
                ((x >> 32) & 0xff) as u8 == ((y >> 32) & 0xff) as u8,
                ai == ((x >> 24) & 0xff) as u8,
                bi == ((y >> 24) & 0xff) as u8,
                ai != bi,
        ;
    } else if i == 5 {
        let ai = a[5];
        let bi = b[5];
        assert(ai < bi <==> x < y) by (bit_vector)
            requires
                ((x >> 56) & 0xff) as u8 == ((y >> 56) & 0xff) as u8,
                ((x >> 48) & 0xff) as u8 == ((y >> 48) & 0xff) as u8,
                ((x >> 40) & 0xff) as u8 == ((y >> 40) & 0xff) as u8,
                ((x >> 32) & 0xff) as u8 == ((y >> 32) & 0xff) as u8,
                ((x >> 24) & 0xff) as u8 == ((y >> 24) & 0xff) as u8,
                ai == ((x >> 16) & 0xff) as u8,
                bi == ((y >> 16) & 0xff) as u8,
                ai != bi,
        ;
    } else if i == 6 {
        let ai = a[6];
        let bi = b[6];
        assert(ai < bi <==> x < y) by (bit_vector)
            requires
                ((x >> 56) & 0xff) as u8 == ((y >> 56) & 0xff) as u8,
                ((x >> 48) & 0xff) as u8 == ((y >> 48) & 0xff) as u8,
                ((x >> 40) & 0xff) as u8 == ((y >> 40) & 0xff) as u8,
                ((x >> 32) & 0xff) as u8 == ((y >> 32) & 0xff) as u8,
                ((x >> 24) & 0xff) as u8 == ((y >> 24) & 0xff) as u8,
                ((x >> 16) & 0xff) as u8 == ((y >> 16) & 0xff) as u8,
                ai == ((x >> 8) & 0xff) as u8,
                bi == ((y >> 8) & 0xff) as u8,
                ai != bi,
        ;
    } else {
        let ai = a[7];
        let bi = b[7];
        assert(ai < bi <==> x < y) by (bit_vector)
            requires
                ((x >> 56) & 0xff) as u8 == ((y >> 56) & 0xff) as u8,
                ((x >> 48) & 0xff) as u8 == ((y >> 48) & 0xff) as u8,
                ((x >> 40) & 0xff) as u8 == ((y >> 40) & 0xff) as u8,
                ((x >> 32) & 0xff) as u8 == ((y >> 32) & 0xff) as u8,
                ((x >> 24) & 0xff) as u8 == ((y >> 24) & 0xff) as u8,
                ((x >> 16) & 0xff) as u8 == ((y >> 16) & 0xff) as u8,
                ((x >> 8) & 0xff) as u8 == ((y >> 8) & 0xff) as u8,
                ai == (x & 0xff) as u8,
                bi == (y & 0xff) as u8,
                ai != bi,
        ;
    }
}

/// The big-endian encoding preserves numeric order under the lexicographic
/// byte order, which is what makes indexed range scans behave correctly.
pub proof fn lemma_u64_be_order(x: u64, y: u64)
    ensures
        lex_le(u64_be_bytes(x), u64_be_bytes(y)) <==> x <= y,
{
    let a = u64_be_bytes(x);
    let b = u64_be_bytes(y);
    if x == y {
        lemma_lex_le_refl(a);
    } else {
        lemma_u64_be_injective(x, y);
        lemma_first_difference(a, b);
        let i = choose|i: int|
            0 <= i < a.len() && a[i] != b[i] && (forall|j: int| 0 <= j < i ==> a[j] == b[j]);
        lemma_lex_le_first_difference(a, b, i);
        lemma_be_byte_order(x, y, i);
    }
}

/// Appends the eight big-endian bytes of `x` to `out`.
pub fn push_u64_be(out: &mut Vec<u8>, x: u64)
    ensures
        final(out)@ == old(out)@ + u64_be_bytes(x),
{
    out.push(((x >> 56) & 0xff) as u8);
    out.push(((x >> 48) & 0xff) as u8);
    out.push(((x >> 40) & 0xff) as u8);
    out.push(((x >> 32) & 0xff) as u8);
    out.push(((x >> 24) & 0xff) as u8);
    out.push(((x >> 16) & 0xff) as u8);
    out.push(((x >> 8) & 0xff) as u8);
    out.push((x & 0xff) as u8);
    assert(out@ =~= old(out)@ + u64_be_bytes(x));
}

/// Appends all of `src` to `out`.
pub fn push_bytes(out: &mut Vec<u8>, src: &Vec<u8>)
    ensures
        final(out)@ == old(out)@ + src@,
{
    let n = src.len();
    let mut i: usize = 0;
    while i < n
        invariant
            0 <= i <= n,
            src@.len() == n,
            out@ == old(out)@ + src@.subrange(0, i as int),
        decreases n - i,
    {
        out.push(src[i]);
        assert(out@ =~= old(out)@ + src@.subrange(0, i + 1));
        i = i + 1;
    }
    assert(out@ =~= old(out)@ + src@);
}

/// Reads the big-endian integer stored at `bytes[at .. at + 8]`.
pub fn read_u64_be(bytes: &Vec<u8>, at: usize) -> (r: u64)
    requires
        at + 8 <= bytes@.len(),
    ensures
        r == u64_from_be(bytes@.subrange(at as int, at + 8)),
{
    let ghost s = bytes@.subrange(at as int, at + 8);
    let n = bytes.len();
    assert(at + 8 <= n);
    let r = ((bytes[at] as u64) << 56) | ((bytes[at + 1] as u64) << 48) | ((bytes[at
        + 2] as u64) << 40) | ((bytes[at + 3] as u64) << 32) | ((bytes[at + 4] as u64) << 24) | ((
    bytes[at + 5] as u64) << 16) | ((bytes[at + 6] as u64) << 8) | (bytes[at + 7] as u64);
    assert(s[0] == bytes@[at as int] && s[1] == bytes@[at + 1] && s[2] == bytes@[at + 2] && s[3]
        == bytes@[at + 3] && s[4] == bytes@[at + 4] && s[5] == bytes@[at + 5] && s[6] == bytes@[at
        + 6] && s[7] == bytes@[at + 7]);
    r
}

/// Copies `src[from .. to]` into a fresh vector.
pub fn copy_range(src: &Vec<u8>, from: usize, to: usize) -> (r: Vec<u8>)
    requires
        from <= to <= src@.len(),
    ensures
        r@ == src@.subrange(from as int, to as int),
{
    let mut out: Vec<u8> = Vec::new();
    let mut i: usize = from;
    while i < to
        invariant
            from <= i <= to <= src@.len(),
            out@ == src@.subrange(from as int, i as int),
        decreases to - i,
    {
        out.push(src[i]);
        assert(out@ =~= src@.subrange(from as int, i + 1));
        i = i + 1;
    }
    out
}

/// True when the two byte vectors hold the same bytes.
pub fn bytes_eq(a: &Vec<u8>, b: &Vec<u8>) -> (r: bool)
    ensures
        r == (a@ == b@),
{
    if a.len() != b.len() {
        assert(a@ != b@);
        return false;
    }
    let n = a.len();
    let mut i: usize = 0;
    while i < n
        invariant
            0 <= i <= n,
            a@.len() == n,
            b@.len() == n,
            forall|j: int| 0 <= j < i ==> a@[j] == b@[j],
        decreases n - i,
    {
        if a[i] != b[i] {
            return false;
        }
        i = i + 1;
    }
    assert(a@ =~= b@);
    true
}

/// True when `p` is a prefix of `k`.
pub fn has_prefix(k: &Vec<u8>, p: &Vec<u8>) -> (r: bool)
    ensures
        r == p@.is_prefix_of(k@),
{
    if p.len() > k.len() {
        return false;
    }
    let n = p.len();
    let mut i: usize = 0;
    while i < n
        invariant
            0 <= i <= n,
            p@.len() == n,
            n <= k@.len(),
            forall|j: int| 0 <= j < i ==> k@[j] == p@[j],
        decreases n - i,
    {
        if k[i] != p[i] {
            assert(k@.subrange(0, n as int)[i as int] != p@[i as int]);
            return false;
        }
        i = i + 1;
    }
    assert(k@.subrange(0, n as int) =~= p@);
    true
}

} // verus!
