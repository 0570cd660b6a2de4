use vstd::prelude::*;
use vstd::wrapping::u32_specs::wrapping_add;

verus! {

/// Big-endian bytes of a 16-bit number.
pub open spec fn be_u16(n: u16) -> Seq<u8> {
    seq![(n >> 8u16) as u8, n as u8]
}

/// Big-endian bytes of a 32-bit number.
pub open spec fn be_u32(n: u32) -> Seq<u8> {
    seq![(n >> 24u32) as u8, (n >> 16u32) as u8, (n >> 8u32) as u8, n as u8]
}

/// Big-endian bytes of a 64-bit number.
pub open spec fn be_u64(n: u64) -> Seq<u8> {
    be_u32((n >> 32u64) as u32) + be_u32(n as u32)
}

/// The 32-bit number held big-endian in `s[i..i + 4]`.
pub open spec fn be_word(s: Seq<u8>, i: int) -> u32 {
    ((s[i] as u32) << 24u32) | ((s[i + 1] as u32) << 16u32) | ((s[i + 2] as u32) << 8u32) | (s[
        i + 3
    ] as u32)
}

/// Reading back the bytes of a number gives the number.
pub proof fn lemma_be_word_of_be_u32(n: u32)
    ensures
        be_word(be_u32(n), 0) == n,
{
    let b0 = (n >> 24u32) as u8;
    let b1 = (n >> 16u32) as u8;
    let b2 = (n >> 8u32) as u8;
    let b3 = n as u8;
    assert(be_u32(n)[0] == b0 && be_u32(n)[1] == b1 && be_u32(n)[2] == b2 && be_u32(n)[3] == b3);
    assert(((b0 as u32) << 24u32) | ((b1 as u32) << 16u32) | ((b2 as u32) << 8u32) | (b3 as u32)
        == n) by (bit_vector)
        requires
            b0 == (n >> 24u32) as u8,
            b1 == (n >> 16u32) as u8,
            b2 == (n >> 8u32) as u8,
            b3 == n as u8,
    ;
}

/// Writing out a number read from four bytes gives those bytes.
pub proof fn lemma_be_u32_of_be_word(s: Seq<u8>, i: int)
    requires
        0 <= i,
        i + 4 <= s.len(),
    ensures
        be_u32(be_word(s, i)) == s.subrange(i, i + 4),
{
    let b0 = s[i];
    let b1 = s[i + 1];
    let b2 = s[i + 2];
    let b3 = s[i + 3];
    let w = be_word(s, i);
    assert(w == ((b0 as u32) << 24u32) | ((b1 as u32) << 16u32) | ((b2 as u32) << 8u32) | (
    b3 as u32));
    assert((w >> 24u32) as u8 == b0 && (w >> 16u32) as u8 == b1 && (w >> 8u32) as u8 == b2
        && w as u8 == b3) by (bit_vector)
        requires
            w == ((b0 as u32) << 24u32) | ((b1 as u32) << 16u32) | ((b2 as u32) << 8u32) | (
            b3 as u32),
    ;
    assert(be_u32(w) =~= s.subrange(i, i + 4));
}

/// Reads the 32-bit number held big-endian at `s[i..i + 4]`.
pub fn read_be_u32(s: &[u8], i: usize) -> (n: u32)
    requires
        i + 4 <= s@.len(),
    ensures
        n == be_word(s@, i as int),
{
    ((s[i] as u32) << 24u32) | ((s[i + 1] as u32) << 16u32) | ((s[i + 2] as u32) << 8u32) | (s[i
        + 3] as u32)
}

/// The bytes of a byte-vector result, by value.
pub open spec fn bytes_result<E>(r: Result<Vec<u8>, E>) -> Result<Seq<u8>, E> {
    match r {
        Ok(v) => Ok(v@),
        Err(e) => Err(e),
    }
}

/// Appends one byte.
pub fn write_u8(writer: &mut Vec<u8>, number: u8)
    ensures
        final(writer)@ == old(writer)@.push(number),
{
    writer.push(number);
}

/// Appends a 16-bit number in big-endian order.
pub fn write_u16(writer: &mut Vec<u8>, number: u16)
    ensures
        final(writer)@ == old(writer)@ + be_u16(number),
{
    writer.push((number >> 8u16) as u8);
    writer.push(number as u8);
}

/// Appends a 32-bit number in big-endian order.
pub fn write_u32(writer: &mut Vec<u8>, number: u32)
    ensures
        final(writer)@ == old(writer)@ + be_u32(number),
{
    writer.push((number >> 24u32) as u8);
    writer.push((number >> 16u32) as u8);
    writer.push((number >> 8u32) as u8);
    writer.push(number as u8);
}


/// Appends a 64-bit number in big-endian order.
pub fn write_u64(writer: &mut Vec<u8>, number: u64)
    ensures
        final(writer)@ == old(writer)@ + be_u64(number),
{
    write_u32(writer, (number >> 32u64) as u32);
    write_u32(writer, number as u32);
    assert(final(writer)@ =~= old(writer)@ + be_u64(number));
}

/// Appends a signed byte (its two's-complement bits).
pub fn write_i8(writer: &mut Vec<u8>, number: i8)
    ensures
        final(writer)@ == old(writer)@.push(number as u8),
{
    writer.push(number as u8);
}

/// Appends a signed 16-bit number in big-endian two's complement.
pub fn write_i16(writer: &mut Vec<u8>, number: i16)
    ensures
        final(writer)@ == old(writer)@ + be_u16(number as u16),
{
    write_u16(writer, number as u16);
}

/// Appends a signed 32-bit number in big-endian two's complement.
pub fn write_i32(writer: &mut Vec<u8>, number: i32)
    ensures
        final(writer)@ == old(writer)@ + be_u32(number as u32),
{
    write_u32(writer, number as u32);
}

/// Appends a signed 64-bit number in big-endian two's complement.
pub fn write_i64(writer: &mut Vec<u8>, number: i64)
    ensures
        final(writer)@ == old(writer)@ + be_u64(number as u64),
{
    write_u64(writer, number as u64);
}

/// Appends the bytes as they are.
pub fn write_bytes(writer: &mut Vec<u8>, bytes: &[u8])
    ensures
        final(writer)@ == old(writer)@ + bytes@,
{
    let mut i: usize = 0;
    while i < bytes.len()
        invariant
            i <= bytes@.len(),
            writer@ == old(writer)@ + bytes@.subrange(0, i as int),
        decreases bytes@.len() - i,
    {
        writer.push(bytes[i]);
        i = i + 1;
        assert(writer@ =~= old(writer)@ + bytes@.subrange(0, i as int));
    }
    assert(bytes@.subrange(0, bytes@.len() as int) =~= bytes@);
}

/// Appends the bytes after a 32-bit big-endian length that counts itself too: the number of
/// bytes plus four, modulo 2^32.
pub fn write_bytes_with_length(writer: &mut Vec<u8>, bytes: &[u8])
    ensures
        final(writer)@ == old(writer)@ + be_u32(wrapping_add(bytes@.len() as u32, 4)) + bytes@,
{
    let len = (bytes.len() as u32).wrapping_add(4);
    write_u32(writer, len);
    write_bytes(writer, bytes);
}

/// Appends the bytes after their number as a 32-bit big-endian length, modulo 2^32.
pub fn write_tlv(writer: &mut Vec<u8>, bytes: &[u8])
    ensures
        final(writer)@ == old(writer)@ + be_u32(bytes@.len() as u32) + bytes@,
{
    write_u32(writer, bytes.len() as u32);
    write_bytes(writer, bytes);
}

/// A copy of `s[a..b]`.
pub(crate) fn copy_range(s: &[u8], a: usize, b: usize) -> (v: Vec<u8>)
    requires
        a <= b <= s@.len(),
    ensures
        v@ == s@.subrange(a as int, b as int),
{
    let mut v: Vec<u8> = Vec::new();
    let mut i = a;
    while i < b
        invariant
            a <= i <= b,
            b <= s@.len(),
            v@ == s@.subrange(a as int, i as int),
        decreases b - i,
    {
        v.push(s[i]);
        i = i + 1;
        assert(v@ =~= s@.subrange(a as int, i as int));
    }
    v
}

} // verus!
