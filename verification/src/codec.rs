//! Deterministic, platform-independent binary layout used for every hash and
//! signature pre-image: fixed-size integers in big-endian byte order, and
//! variable-size sequences prefixed with their element count as an unsigned
//! 64-bit big-endian value.

use vstd::prelude::*;

verus! {

/// The four bytes of `n` in big-endian order.
pub open spec fn spec_u32_be(n: u32) -> Seq<u8> {
    seq![
        ((n >> 24) & 0xff) as u8,
        ((n >> 16) & 0xff) as u8,
        ((n >> 8) & 0xff) as u8,
        (n & 0xff) as u8,
    ]
}

/// The eight bytes of `n` in big-endian order.
pub open spec fn spec_u64_be(n: u64) -> Seq<u8> {
    seq![
        ((n >> 56) & 0xff) as u8,
        ((n >> 48) & 0xff) as u8,
        ((n >> 40) & 0xff) as u8,
        ((n >> 32) & 0xff) as u8,
        ((n >> 24) & 0xff) as u8,
        ((n >> 16) & 0xff) as u8,
        ((n >> 8) & 0xff) as u8,
        (n & 0xff) as u8,
    ]
}

/// Two distinct 32-bit integers never share a big-endian encoding.
pub proof fn lemma_u32_be_injective(a: u32, b: u32)
    ensures
        spec_u32_be(a) == spec_u32_be(b) ==> a == b,
{
    if spec_u32_be(a) == spec_u32_be(b) {
        assert(spec_u32_be(a)[0] == spec_u32_be(b)[0]);
        assert(spec_u32_be(a)[1] == spec_u32_be(b)[1]);
        assert(spec_u32_be(a)[2] == spec_u32_be(b)[2]);
        assert(spec_u32_be(a)[3] == spec_u32_be(b)[3]);
        assert(((a >> 24) & 0xff) as u8 == ((b >> 24) & 0xff) as u8
            && ((a >> 16) & 0xff) as u8 == ((b >> 16) & 0xff) as u8
            && ((a >> 8) & 0xff) as u8 == ((b >> 8) & 0xff) as u8
            && (a & 0xff) as u8 == (b & 0xff) as u8 ==> a == b) by (bit_vector);
    }
}

/// Two distinct 64-bit integers never share a big-endian encoding.
pub proof fn lemma_u64_be_injective(a: u64, b: u64)
    ensures
        spec_u64_be(a) == spec_u64_be(b) ==> a == b,
{
    if spec_u64_be(a) == spec_u64_be(b) {
        assert(spec_u64_be(a)[0] == spec_u64_be(b)[0]);
        assert(spec_u64_be(a)[1] == spec_u64_be(b)[1]);
        assert(spec_u64_be(a)[2] == spec_u64_be(b)[2]);
        assert(spec_u64_be(a)[3] == spec_u64_be(b)[3]);
        assert(spec_u64_be(a)[4] == spec_u64_be(b)[4]);
        assert(spec_u64_be(a)[5] == spec_u64_be(b)[5]);
        assert(spec_u64_be(a)[6] == spec_u64_be(b)[6]);
        assert(spec_u64_be(a)[7] == spec_u64_be(b)[7]);
        assert(((a >> 56) & 0xff) as u8 == ((b >> 56) & 0xff) as u8
            && ((a >> 48) & 0xff) as u8 == ((b >> 48) & 0xff) as u8
            && ((a >> 40) & 0xff) as u8 == ((b >> 40) & 0xff) as u8
            && ((a >> 32) & 0xff) as u8 == ((b >> 32) & 0xff) as u8
            && ((a >> 24) & 0xff) as u8 == ((b >> 24) & 0xff) as u8
            && ((a >> 16) & 0xff) as u8 == ((b >> 16) & 0xff) as u8
            && ((a >> 8) & 0xff) as u8 == ((b >> 8) & 0xff) as u8
            && (a & 0xff) as u8 == (b & 0xff) as u8 ==> a == b) by (bit_vector);
    }
}

/// Reads a 32-bit integer from the head of `s`, with the rest.
pub open spec fn spec_deser_u32(s: Seq<u8>) -> Option<(u32, Seq<u8>)> {
    if s.len() < 4 {
        None
    } else {
        Some(
            (
                (((s[0] as u32) << 24) | ((s[1] as u32) << 16) | ((s[2] as u32) << 8) | (
                s[3] as u32)),
                s.skip(4),
            ),
        )
    }
}

/// Reads a 64-bit integer from the head of `s`, with the rest.
pub open spec fn spec_deser_u64(s: Seq<u8>) -> Option<(u64, Seq<u8>)> {
    if s.len() < 8 {
        None
    } else {
        Some(
            (
                (((s[0] as u64) << 56) | ((s[1] as u64) << 48) | ((s[2] as u64) << 40) | ((
                s[3] as u64) << 32) | ((s[4] as u64) << 24) | ((s[5] as u64) << 16) | ((
                s[6] as u64) << 8) | (s[7] as u64)),
                s.skip(8),
            ),
        )
    }
}

/// Reading back an encoded 32-bit integer returns it, with the bytes that
/// follow untouched.
pub proof fn lemma_u32_round_trip(n: u32, rest: Seq<u8>)
    ensures
        spec_deser_u32(spec_u32_be(n) + rest) == Some((n, rest)),
{
    let s = spec_u32_be(n) + rest;
    assert(s.skip(4) =~= rest);
    assert(s[0] == ((n >> 24) & 0xff) as u8);
    assert(s[1] == ((n >> 16) & 0xff) as u8);
    assert(s[2] == ((n >> 8) & 0xff) as u8);
    assert(s[3] == (n & 0xff) as u8);
    assert(((((n >> 24) & 0xff) as u8 as u32) << 24) | ((((n >> 16) & 0xff) as u8 as u32) << 16)
        | ((((n >> 8) & 0xff) as u8 as u32) << 8) | ((n & 0xff) as u8 as u32) == n)
        by (bit_vector);
}

/// Reading back an encoded 64-bit integer returns it, with the bytes that
/// follow untouched.
pub proof fn lemma_u64_round_trip(n: u64, rest: Seq<u8>)
    ensures
        spec_deser_u64(spec_u64_be(n) + rest) == Some((n, rest)),
{
    let s = spec_u64_be(n) + rest;
    assert(s.skip(8) =~= rest);
    assert(s[0] == ((n >> 56) & 0xff) as u8);
    assert(s[1] == ((n >> 48) & 0xff) as u8);
    assert(s[2] == ((n >> 40) & 0xff) as u8);
    assert(s[3] == ((n >> 32) & 0xff) as u8);
    assert(s[4] == ((n >> 24) & 0xff) as u8);
    assert(s[5] == ((n >> 16) & 0xff) as u8);
    assert(s[6] == ((n >> 8) & 0xff) as u8);
    assert(s[7] == (n & 0xff) as u8);
    assert(((((n >> 56) & 0xff) as u8 as u64) << 56) | ((((n >> 48) & 0xff) as u8 as u64) << 48)
        | ((((n >> 40) & 0xff) as u8 as u64) << 40) | ((((n >> 32) & 0xff) as u8 as u64) << 32)
        | ((((n >> 24) & 0xff) as u8 as u64) << 24) | ((((n >> 16) & 0xff) as u8 as u64) << 16)
        | ((((n >> 8) & 0xff) as u8 as u64) << 8) | ((n & 0xff) as u8 as u64) == n)
        by (bit_vector);
}

/// Appends the big-endian encoding of `n` to `out`.
pub fn push_u32_be(out: &mut Vec<u8>, n: u32)
    ensures
        final(out)@ == old(out)@ + spec_u32_be(n),
{
    out.push(((n >> 24) & 0xff) as u8);
    out.push(((n >> 16) & 0xff) as u8);
    out.push(((n >> 8) & 0xff) as u8);
    out.push((n & 0xff) as u8);
    assert(out@ =~= old(out)@ + spec_u32_be(n));
}

/// Appends the big-endian encoding of `n` to `out`.
pub fn push_u64_be(out: &mut Vec<u8>, n: u64)
    ensures
        final(out)@ == old(out)@ + spec_u64_be(n),
{
    out.push(((n >> 56) & 0xff) as u8);
    out.push(((n >> 48) & 0xff) as u8);
    out.push(((n >> 40) & 0xff) as u8);
    out.push(((n >> 32) & 0xff) as u8);
    out.push(((n >> 24) & 0xff) as u8);
    out.push(((n >> 16) & 0xff) as u8);
    out.push(((n >> 8) & 0xff) as u8);
    out.push((n & 0xff) as u8);
    assert(out@ =~= old(out)@ + spec_u64_be(n));
}

/// Appends every byte of `bytes` to `out`.
pub fn push_bytes(out: &mut Vec<u8>, bytes: &Vec<u8>)
    ensures
        final(out)@ == old(out)@ + bytes@,
{
    let len = bytes.len();
    let mut i: usize = 0;
    while i < len
        invariant
            len == bytes@.len(),
            i <= len,
            out@ == old(out)@ + bytes@.subrange(0, i as int),
        decreases len - i,
    {
        out.push(bytes[i]);
        assert(out@ =~= old(out)@ + bytes@.subrange(0, i + 1 as int));
        i = i + 1;
    }
    assert(out@ =~= old(out)@ + bytes@);
}

/// Writes the four big-endian bytes of `number` over
/// `to_array[index..index + 4]`, leaving every other byte unchanged.
pub fn write_u32(to_array: &mut Vec<u8>, number: u32, index: usize)
    requires
        index + 4 <= old(to_array)@.len(),
    ensures
        final(to_array)@ == old(to_array)@.subrange(0, index as int) + spec_u32_be(number)
            + old(to_array)@.subrange(index + 4, old(to_array)@.len() as int),
{
    let n = to_array.len();
    to_array.set(index, ((number >> 24) & 0xff) as u8);
    to_array.set(index + 1, ((number >> 16) & 0xff) as u8);
    to_array.set(index + 2, ((number >> 8) & 0xff) as u8);
    to_array.set(index + 3, (number & 0xff) as u8);
    assert(to_array@ =~= old(to_array)@.subrange(0, index as int) + spec_u32_be(number)
        + old(to_array)@.subrange(index + 4, old(to_array)@.len() as int));
}

/// Copies the whole of `array` over `to_array[index..index + array.len()]`,
/// leaving every other byte unchanged.
pub fn write_array(to_array: &mut Vec<u8>, array: &Vec<u8>, index: usize)
    requires
        index + array@.len() <= old(to_array)@.len(),
    ensures
        final(to_array)@ == old(to_array)@.subrange(0, index as int) + array@
            + old(to_array)@.subrange(index + array@.len(), old(to_array)@.len() as int),
{
    let n = to_array.len();
    let len = array.len();
    let mut i: usize = 0;
    while i < len
        invariant
            len == array@.len(),
            i <= len,
            index + len <= n,
            n == old(to_array)@.len(),
            to_array@.len() == old(to_array)@.len(),
            forall|j: int| 0 <= j < index ==> to_array@[j] == old(to_array)@[j],
            forall|j: int| 0 <= j < i ==> to_array@[index + j] == array@[j],
            forall|j: int|
                index + len <= j < to_array@.len() ==> to_array@[j] == old(to_array)@[j],
        decreases len - i,
    {
        to_array.set(index + i, array[i]);
        i = i + 1;
    }
    assert(to_array@ =~= old(to_array)@.subrange(0, index as int) + array@
        + old(to_array)@.subrange(index + array@.len(), old(to_array)@.len() as int));
}

} // verus!
