//! Fixed-width unsigned integers as they stand on the wire.
//!
//! The frame header is a big-endian `u32`; inside a payload, variant tags are
//! little-endian `u32` and lengths little-endian `u64`.

use vstd::prelude::*;

verus! {

/// The four bytes of `x`, most significant first.
#[verifier::opaque]
pub open spec fn u32_be(x: u32) -> Seq<u8> {
    seq![
        (x / 0x100_0000) as u8,
        (x / 0x1_0000 % 0x100) as u8,
        (x / 0x100 % 0x100) as u8,
        (x % 0x100) as u8,
    ]
}

/// The number whose big-endian bytes are the first four of `b`.
#[verifier::opaque]
pub open spec fn u32_from_be(b: Seq<u8>) -> u32
    recommends
        b.len() >= 4,
{
    (b[0] * 0x100_0000 + b[1] * 0x1_0000 + b[2] * 0x100 + b[3]) as u32
}

/// The four bytes of `x`, least significant first.
#[verifier::opaque]
pub open spec fn u32_le(x: u32) -> Seq<u8> {
    seq![
        (x % 0x100) as u8,
        (x / 0x100 % 0x100) as u8,
        (x / 0x1_0000 % 0x100) as u8,
        (x / 0x100_0000) as u8,
    ]
}

/// The number whose little-endian bytes are the first four of `b`.
#[verifier::opaque]
pub open spec fn u32_from_le(b: Seq<u8>) -> u32
    recommends
        b.len() >= 4,
{
    (b[0] + b[1] * 0x100 + b[2] * 0x1_0000 + b[3] * 0x100_0000) as u32
}

/// The eight bytes of `x`, least significant first.
#[verifier::opaque]
pub open spec fn u64_le(x: u64) -> Seq<u8> {
    u32_le((x % 0x1_0000_0000) as u32) + u32_le((x / 0x1_0000_0000) as u32)
}

/// The number whose little-endian bytes are the first eight of `b`.
#[verifier::opaque]
pub open spec fn u64_from_le(b: Seq<u8>) -> u64
    recommends
        b.len() >= 8,
{
    (u32_from_le(b.subrange(0, 4)) + u32_from_le(b.subrange(4, 8)) * 0x1_0000_0000) as u64
}

/// Four digits in base 256 are the digits of the number they spell.
proof fn lemma_digits_of_number(d0: int, d1: int, d2: int, d3: int)
    requires
        0 <= d0 < 0x100,
        0 <= d1 < 0x100,
        0 <= d2 < 0x100,
        0 <= d3 < 0x100,
    ensures
        ({
            let x = d0 + d1 * 0x100 + d2 * 0x1_0000 + d3 * 0x100_0000;
            &&& 0 <= x <= u32::MAX
            &&& x % 0x100 == d0
            &&& x / 0x100 % 0x100 == d1
            &&& x / 0x1_0000 % 0x100 == d2
            &&& x / 0x100_0000 == d3
        }),
{
    let x = d0 + d1 * 0x100 + d2 * 0x1_0000 + d3 * 0x100_0000;
    assert(x / 0x100 == d1 + d2 * 0x100 + d3 * 0x1_0000);
    assert(x / 0x1_0000 == d2 + d3 * 0x100);
    assert(x / 0x100_0000 == d3);
}

/// A number below 2^32 is spelled by its four digits in base 256.
proof fn lemma_number_of_digits(x: int)
    requires
        0 <= x <= u32::MAX,
    ensures
        x == x % 0x100 + (x / 0x100 % 0x100) * 0x100 + (x / 0x1_0000 % 0x100) * 0x1_0000 + (x
            / 0x100_0000) * 0x100_0000,
        0 <= x / 0x100_0000 < 0x100,
{
    let q1 = x / 0x100;
    let q2 = x / 0x1_0000;
    let q3 = x / 0x100_0000;
    assert(q2 == q1 / 0x100);
    assert(q3 == q2 / 0x100);
}

/// Reading back the big-endian bytes of a number gives the number, whatever
/// follows them.
pub proof fn lemma_u32_be_round_trip(x: u32, rest: Seq<u8>)
    ensures
        u32_be(x).len() == 4,
        u32_from_be(u32_be(x) + rest) == x,
{
    reveal(u32_be);
    reveal(u32_from_be);
    lemma_number_of_digits(x as int);
    let b = u32_be(x) + rest;
    assert(b[0] == (x / 0x100_0000) as u8);
    assert(b[1] == (x / 0x1_0000 % 0x100) as u8);
    assert(b[2] == (x / 0x100 % 0x100) as u8);
    assert(b[3] == (x % 0x100) as u8);
}

/// Four bytes are the big-endian bytes of the number read from them.
pub proof fn lemma_u32_be_of_bytes(b: Seq<u8>)
    requires
        b.len() >= 4,
    ensures
        u32_be(u32_from_be(b)) == b.subrange(0, 4),
{
    reveal(u32_be);
    reveal(u32_from_be);
    lemma_digits_of_number(b[3] as int, b[2] as int, b[1] as int, b[0] as int);
    assert(u32_be(u32_from_be(b)) =~= b.subrange(0, 4));
}

/// Reading back the little-endian bytes of a number gives the number, whatever
/// follows them.
pub proof fn lemma_u32_le_round_trip(x: u32, rest: Seq<u8>)
    ensures
        u32_le(x).len() == 4,
        u32_from_le(u32_le(x) + rest) == x,
{
    reveal(u32_le);
    reveal(u32_from_le);
    lemma_number_of_digits(x as int);
    let b = u32_le(x) + rest;
    assert(b[0] == (x % 0x100) as u8);
    assert(b[1] == (x / 0x100 % 0x100) as u8);
    assert(b[2] == (x / 0x1_0000 % 0x100) as u8);
    assert(b[3] == (x / 0x100_0000) as u8);
}

/// Four bytes are the little-endian bytes of the number read from them.
pub proof fn lemma_u32_le_of_bytes(b: Seq<u8>)
    requires
        b.len() >= 4,
    ensures
        u32_le(u32_from_le(b)) == b.subrange(0, 4),
{
    reveal(u32_le);
    reveal(u32_from_le);
    lemma_digits_of_number(b[0] as int, b[1] as int, b[2] as int, b[3] as int);
    assert(u32_le(u32_from_le(b)) =~= b.subrange(0, 4));
}

/// Reading back the little-endian bytes of a number gives the number, whatever
/// follows them.
pub proof fn lemma_u64_le_round_trip(x: u64, rest: Seq<u8>)
    ensures
        u64_le(x).len() == 8,
        u64_from_le(u64_le(x) + rest) == x,
{
    reveal(u64_le);
    reveal(u64_from_le);
    let low = (x % 0x1_0000_0000) as u32;
    let high = (x / 0x1_0000_0000) as u32;
    lemma_u32_le_round_trip(low, Seq::empty());
    lemma_u32_le_round_trip(high, Seq::empty());
    let b = u64_le(x) + rest;
    assert(b.subrange(0, 4) =~= u32_le(low) + Seq::<u8>::empty());
    assert(b.subrange(4, 8) =~= u32_le(high) + Seq::<u8>::empty());
}

/// Eight bytes are the little-endian bytes of the number read from them.
pub proof fn lemma_u64_le_of_bytes(b: Seq<u8>)
    requires
        b.len() >= 8,
    ensures
        u64_le(u64_from_le(b)) == b.subrange(0, 8),
{
    reveal(u64_le);
    reveal(u64_from_le);
    let low = u32_from_le(b.subrange(0, 4));
    let high = u32_from_le(b.subrange(4, 8));
    lemma_u32_le_of_bytes(b.subrange(0, 4));
    lemma_u32_le_of_bytes(b.subrange(4, 8));
    lemma_u32_le_round_trip(low, Seq::empty());
    lemma_u32_le_round_trip(high, Seq::empty());
    let x = u64_from_le(b);
    assert(x == low + high * 0x1_0000_0000);
    assert((x % 0x1_0000_0000) as u32 == low);
    assert((x / 0x1_0000_0000) as u32 == high);
    assert(b.subrange(0, 4).subrange(0, 4) =~= b.subrange(0, 4));
    assert(b.subrange(4, 8).subrange(0, 4) =~= b.subrange(4, 8));
    assert(b.subrange(0, 4) + b.subrange(4, 8) =~= b.subrange(0, 8));
}

/// Appends the big-endian bytes of `x` to `out`.
pub fn put_u32_be(out: &mut Vec<u8>, x: u32)
    ensures
        final(out)@ == old(out)@ + u32_be(x),
{
    out.push((x / 0x100_0000) as u8);
    out.push((x / 0x1_0000 % 0x100) as u8);
    out.push((x / 0x100 % 0x100) as u8);
    out.push((x % 0x100) as u8);
    proof {
        reveal(u32_be);
        assert(out@ =~= old(out)@ + u32_be(x));
    }
}

/// Appends the little-endian bytes of `x` to `out`.
pub fn put_u32_le(out: &mut Vec<u8>, x: u32)
    ensures
        final(out)@ == old(out)@ + u32_le(x),
{
    out.push((x % 0x100) as u8);
    out.push((x / 0x100 % 0x100) as u8);
    out.push((x / 0x1_0000 % 0x100) as u8);
    out.push((x / 0x100_0000) as u8);
    proof {
        reveal(u32_le);
        assert(out@ =~= old(out)@ + u32_le(x));
    }
}

/// Appends the little-endian bytes of `x` to `out`.
pub fn put_u64_le(out: &mut Vec<u8>, x: u64)
    ensures
        final(out)@ == old(out)@ + u64_le(x),
{
    put_u32_le(out, (x % 0x1_0000_0000) as u32);
    put_u32_le(out, (x / 0x1_0000_0000) as u32);
    proof {
        reveal(u64_le);
        assert(out@ =~= old(out)@ + u64_le(x));
    }
}

/// Reads the big-endian number that starts at `at`.
pub fn get_u32_be(data: &[u8], at: usize) -> (x: u32)
    requires
        at + 4 <= data@.len(),
    ensures
        x == u32_from_be(data@.subrange(at as int, at + 4)),
{
    let b0: u32 = data[at] as u32;
    let b1: u32 = data[at + 1] as u32;
    let b2: u32 = data[at + 2] as u32;
    let b3: u32 = data[at + 3] as u32;
    proof {
        reveal(u32_from_be);
        lemma_digits_of_number(b3 as int, b2 as int, b1 as int, b0 as int);
    }
    b0 * 0x100_0000 + b1 * 0x1_0000 + b2 * 0x100 + b3
}

/// Reads the little-endian number that starts at `at`.
pub fn get_u32_le(data: &[u8], at: usize) -> (x: u32)
    requires
        at + 4 <= data@.len(),
    ensures
        x == u32_from_le(data@.subrange(at as int, at + 4)),
{
    let b0: u32 = data[at] as u32;
    let b1: u32 = data[at + 1] as u32;
    let b2: u32 = data[at + 2] as u32;
    let b3: u32 = data[at + 3] as u32;
    proof {
        reveal(u32_from_le);
        lemma_digits_of_number(b0 as int, b1 as int, b2 as int, b3 as int);
    }
    b0 + b1 * 0x100 + b2 * 0x1_0000 + b3 * 0x100_0000
}

/// Reads the little-endian number that starts at `at`.
pub fn get_u64_le(data: &[u8], at: usize) -> (x: u64)
    requires
        at + 8 <= data@.len(),
    ensures
        x == u64_from_le(data@.subrange(at as int, at + 8)),
{
    let _len: usize = data.len();
    let low: u64 = get_u32_le(data, at) as u64;
    let high: u64 = get_u32_le(data, at + 4) as u64;
    proof {
        reveal(u64_from_le);
        let b = data@.subrange(at as int, at + 8);
        assert(b.subrange(0, 4) =~= data@.subrange(at as int, at + 4));
        assert(b.subrange(4, 8) =~= data@.subrange(at + 4, at + 8));
    }
    low + high * 0x1_0000_0000
}

} // verus!
