//! Big-endian integer fields of the wire protocol.
//!
//! Every multi-byte integer on the wire is big-endian. The spec functions
//! here define the exact byte sequences; the executable functions produce
//! and read them, and the lemmas show that reading inverts writing.

use vstd::prelude::*;

verus! {

/// The two big-endian bytes of a 16-bit field.
pub open spec fn spec_be2(x: u16) -> Seq<u8> {
    seq![((x >> 8) & 0xff) as u8, (x & 0xff) as u8]
}

/// The four big-endian bytes of a 32-bit field.
pub open spec fn spec_be4(x: u32) -> Seq<u8> {
    seq![
        ((x >> 24) & 0xff) as u8,
        ((x >> 16) & 0xff) as u8,
        ((x >> 8) & 0xff) as u8,
        (x & 0xff) as u8,
    ]
}

/// The eight big-endian bytes of a 64-bit field.
pub open spec fn spec_be8(x: u64) -> Seq<u8> {
    seq![
        ((x >> 56) & 0xff) as u8,
        ((x >> 48) & 0xff) as u8,
        ((x >> 40) & 0xff) as u8,
        ((x >> 32) & 0xff) as u8,
        ((x >> 24) & 0xff) as u8,
        ((x >> 16) & 0xff) as u8,
        ((x >> 8) & 0xff) as u8,
        (x & 0xff) as u8,
    ]
}

/// The 16-bit value held by two big-endian bytes.
pub open spec fn spec_be2_val(s: Seq<u8>) -> u16
    recommends
        s.len() == 2,
{
    ((s[0] as u16) << 8) | (s[1] as u16)
}

/// The 32-bit value held by four big-endian bytes.
pub open spec fn spec_be4_val(s: Seq<u8>) -> u32
    recommends
        s.len() == 4,
{
    ((s[0] as u32) << 24) | ((s[1] as u32) << 16) | ((s[2] as u32) << 8) | (s[3] as u32)
}

/// The 64-bit value held by eight big-endian bytes.
pub open spec fn spec_be8_val(s: Seq<u8>) -> u64
    recommends
        s.len() == 8,
{
    ((s[0] as u64) << 56) | ((s[1] as u64) << 48) | ((s[2] as u64) << 40) | ((s[3] as u64) << 32)
        | ((s[4] as u64) << 24) | ((s[5] as u64) << 16) | ((s[6] as u64) << 8) | (s[7] as u64)
}

/// Reading two big-endian bytes gives back the value they were written from.
pub proof fn lemma_be2_round_trip(x: u16)
    ensures
        spec_be2_val(spec_be2(x)) == x,
{
    let s = spec_be2(x);
    assert(s[0] == ((x >> 8) & 0xff) as u8 && s[1] == (x & 0xff) as u8);
    assert(((((x >> 8) & 0xff) as u8 as u16) << 8) | ((x & 0xff) as u8 as u16) == x)
        by (bit_vector);
}

/// Reading four big-endian bytes gives back the value they were written from.
pub proof fn lemma_be4_round_trip(x: u32)
    ensures
        spec_be4_val(spec_be4(x)) == x,
{
    let s = spec_be4(x);
    assert(s[0] == ((x >> 24) & 0xff) as u8 && s[1] == ((x >> 16) & 0xff) as u8 && s[2] == ((x
        >> 8) & 0xff) as u8 && s[3] == (x & 0xff) as u8);
    assert(((((x >> 24) & 0xff) as u8 as u32) << 24) | ((((x >> 16) & 0xff) as u8 as u32) << 16) | (
    (((x >> 8) & 0xff) as u8 as u32) << 8) | ((x & 0xff) as u8 as u32) == x) by (bit_vector);
}

/// Reading eight big-endian bytes gives back the value they were written from.
pub proof fn lemma_be8_round_trip(x: u64)
    ensures
        spec_be8_val(spec_be8(x)) == x,
{
    let s = spec_be8(x);
    assert(s[0] == ((x >> 56) & 0xff) as u8 && s[1] == ((x >> 48) & 0xff) as u8 && s[2] == ((x
        >> 40) & 0xff) as u8 && s[3] == ((x >> 32) & 0xff) as u8 && s[4] == ((x >> 24) & 0xff) as u8
        && s[5] == ((x >> 16) & 0xff) as u8 && s[6] == ((x >> 8) & 0xff) as u8 && s[7] == (x
        & 0xff) as u8);
    assert(((((x >> 56) & 0xff) as u8 as u64) << 56) | ((((x >> 48) & 0xff) as u8 as u64) << 48) | (
    (((x >> 40) & 0xff) as u8 as u64) << 40) | ((((x >> 32) & 0xff) as u8 as u64) << 32) | ((((x
        >> 24) & 0xff) as u8 as u64) << 24) | ((((x >> 16) & 0xff) as u8 as u64) << 16) | ((((x
        >> 8) & 0xff) as u8 as u64) << 8) | ((x & 0xff) as u8 as u64) == x) by (bit_vector);
}

/// Appends the two big-endian bytes of `x` to `out`.
pub fn push_be2(out: &mut Vec<u8>, x: u16)
    ensures
        final(out)@ == old(out)@ + spec_be2(x),
{
    proof {
        assert((x >> 8) & 0xff <= 0xff && x & 0xff <= 0xff) by (bit_vector);
    }
    out.push(((x >> 8) & 0xff) as u8);
    out.push((x & 0xff) as u8);
    proof {
        assert(out@ =~= old(out)@ + spec_be2(x));
    }
}

/// Appends the four big-endian bytes of `x` to `out`.
pub fn push_be4(out: &mut Vec<u8>, x: u32)
    ensures
        final(out)@ == old(out)@ + spec_be4(x),
{
    proof {
        assert((x >> 24) & 0xff <= 0xff && (x >> 16) & 0xff <= 0xff && (x >> 8) & 0xff <= 0xff && x
            & 0xff <= 0xff) by (bit_vector);
    }
    out.push(((x >> 24) & 0xff) as u8);
    out.push(((x >> 16) & 0xff) as u8);
    out.push(((x >> 8) & 0xff) as u8);
    out.push((x & 0xff) as u8);
    proof {
        assert(out@ =~= old(out)@ + spec_be4(x));
    }
}

/// Appends the eight big-endian bytes of `x` to `out`.
pub fn push_be8(out: &mut Vec<u8>, x: u64)
    ensures
        final(out)@ == old(out)@ + spec_be8(x),
{
    proof {
        assert((x >> 56) & 0xff <= 0xff && (x >> 48) & 0xff <= 0xff && (x >> 40) & 0xff <= 0xff && (
        x >> 32) & 0xff <= 0xff && (x >> 24) & 0xff <= 0xff && (x >> 16) & 0xff <= 0xff && (x >> 8)
            & 0xff <= 0xff && x & 0xff <= 0xff) by (bit_vector);
    }
    out.push(((x >> 56) & 0xff) as u8);
    out.push(((x >> 48) & 0xff) as u8);
    out.push(((x >> 40) & 0xff) as u8);
    out.push(((x >> 32) & 0xff) as u8);
    out.push(((x >> 24) & 0xff) as u8);
    out.push(((x >> 16) & 0xff) as u8);
    out.push(((x >> 8) & 0xff) as u8);
    out.push((x & 0xff) as u8);
    proof {
        assert(out@ =~= old(out)@ + spec_be8(x));
    }
}

/// Reads the 16-bit big-endian field at position `at` of `b`.
pub fn read_be2(b: &Vec<u8>, at: usize) -> (x: u16)
    requires
        at + 2 <= b@.len(),
    ensures
        x == spec_be2_val(b@.subrange(at as int, at as int + 2)),
{
    // Binding the length lets the verifier see the indices fit a usize.
    let n = b.len();
    let x = ((b[at] as u16) << 8u16) | (b[at + 1] as u16);
    proof {
        assert(at + 2 <= n);
    }
    proof {
        let s = b@.subrange(at as int, at as int + 2);
        assert(s[0] == b@[at as int] && s[1] == b@[at as int + 1]);
    }
    x
}

/// Reads the 32-bit big-endian field at position `at` of `b`.
pub fn read_be4(b: &Vec<u8>, at: usize) -> (x: u32)
    requires
        at + 4 <= b@.len(),
    ensures
        x == spec_be4_val(b@.subrange(at as int, at as int + 4)),
{
    // Binding the length lets the verifier see the indices fit a usize.
    let n = b.len();
    let x = ((b[at] as u32) << 24u32) | ((b[at + 1] as u32) << 16u32) | ((b[at + 2] as u32)
        << 8u32) | (b[at + 3] as u32);
    proof {
        assert(at + 4 <= n);
        let s = b@.subrange(at as int, at as int + 4);
        assert(s[0] == b@[at as int] && s[1] == b@[at as int + 1] && s[2] == b@[at as int + 2]
            && s[3] == b@[at as int + 3]);
    }
    x
}

/// Reads the 64-bit big-endian field at position `at` of `b`.
pub fn read_be8(b: &Vec<u8>, at: usize) -> (x: u64)
    requires
        at + 8 <= b@.len(),
    ensures
        x == spec_be8_val(b@.subrange(at as int, at as int + 8)),
{
    // Binding the length lets the verifier see the indices fit a usize.
    let n = b.len();
    let x = ((b[at] as u64) << 56u64) | ((b[at + 1] as u64) << 48u64) | ((b[at + 2] as u64)
        << 40u64) | ((b[at + 3] as u64) << 32u64) | ((b[at + 4] as u64) << 24u64) | ((b[at
        + 5] as u64) << 16u64) | ((b[at + 6] as u64) << 8u64) | (b[at + 7] as u64);
    proof {
        assert(at + 8 <= n);
        let s = b@.subrange(at as int, at as int + 8);
        assert(s[0] == b@[at as int] && s[1] == b@[at as int + 1] && s[2] == b@[at as int + 2]
            && s[3] == b@[at as int + 3] && s[4] == b@[at as int + 4] && s[5] == b@[at as int + 5]
            && s[6] == b@[at as int + 6] && s[7] == b@[at as int + 7]);
    }
    x
}

/// Appends every byte of `src` to `out`.
pub fn push_bytes(out: &mut Vec<u8>, src: &Vec<u8>)
    ensures
        final(out)@ == old(out)@ + src@,
{
    let mut i: usize = 0;
    while i < src.len()
        invariant
            i <= src@.len(),
            out@ == old(out)@ + src@.take(i as int),
        decreases src@.len() - i,
    {
        out.push(src[i]);
        proof {
            assert(out@ =~= old(out)@ + src@.take(i as int + 1));
        }
        i = i + 1;
    }
    proof {
        assert(out@ =~= old(out)@ + src@);
    }
}

/// The bytes of `v` from `from` to `to`, as a fresh vector.
pub fn vec_subrange(v: &Vec<u8>, from: usize, to: usize) -> (r: Vec<u8>)
    requires
        from <= to <= v@.len(),
    ensures
        r@ == v@.subrange(from as int, to as int),
{
    let mut r: Vec<u8> = Vec::new();
    let mut i: usize = from;
    while i < to
        invariant
            from <= i <= to <= v@.len(),
            r@ == v@.subrange(from as int, i as int),
        decreases to - i,
    {
        r.push(v[i]);
        proof {
            assert(r@ =~= v@.subrange(from as int, i as int + 1));
        }
        i = i + 1;
    }
    r
}

} // verus!
