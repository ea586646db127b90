//! Byte-level encoding of the 32-bit words that make up a material uniform.
use vstd::prelude::*;
use vstd::endian::{endianness, Endian};

verus! {

/// The four bytes of `x`, least significant first.
pub open spec fn le_bytes(x: u32) -> Seq<u8> {
    seq![
        (x % 256) as u8,
        ((x / 256) % 256) as u8,
        ((x / 65536) % 256) as u8,
        ((x / 16777216) % 256) as u8,
    ]
}

/// The four bytes of `x` in the byte order of the machine the code runs on.
pub open spec fn ne_bytes(x: u32) -> Seq<u8> {
    if endianness() is Little {
        le_bytes(x)
    } else {
        le_bytes(x).reverse()
    }
}

/// bevy's `Bytes::write_bytes` for a `u32`, on the bytes of `buffer` from
/// `offset` on: it copies the word's memory representation, in the byte
/// order of the machine, into the first four of them and leaves the others
/// alone. The source panics where fewer than four bytes follow `offset`.
#[verifier::external_body]
pub(crate) fn write_word(buffer: &mut [u8], offset: usize, bits: u32)
    requires
        offset + 4 <= old(buffer)@.len(),
    ensures
        final(buffer)@.len() == old(buffer)@.len(),
        final(buffer)@.subrange(offset as int, offset + 4) == ne_bytes(bits),
        forall|i: int|
            0 <= i < old(buffer)@.len() && !(offset <= i < offset + 4) ==> final(buffer)@[i]
                == old(buffer)@[i],
{
    bevy_core::Bytes::write_bytes(&bits, &mut buffer[offset..])
}

/// The number that four bytes, least significant first, stand for.
pub open spec fn le_value(b: Seq<u8>) -> int {
    b[0] + 256 * b[1] + 65536 * b[2] + 16777216 * b[3]
}

/// The little-endian bytes of a word give the word back.
pub proof fn lemma_le_bytes_value(x: u32)
    ensures
        le_bytes(x).len() == 4,
        le_value(le_bytes(x)) == x,
{
    let b = le_bytes(x);
    assert(b[0] == x % 256);
    assert(b[1] == (x / 256) % 256);
    assert(b[2] == (x / 65536) % 256);
    assert(b[3] == (x / 16777216) % 256);
    assert(x % 256 + 256 * ((x / 256) % 256) + 65536 * ((x / 65536) % 256) + 16777216 * ((x
        / 16777216) % 256) == x) by (nonlinear_arith)
        requires
            0 <= x < 0x1_0000_0000,
    ;
}

/// A word's bytes in native order are four and tell the word apart from any
/// other word.
pub proof fn lemma_ne_bytes_injective(x: u32, y: u32)
    ensures
        ne_bytes(x).len() == 4,
        ne_bytes(x) == ne_bytes(y) ==> x == y,
{
    lemma_le_bytes_value(x);
    lemma_le_bytes_value(y);
    if ne_bytes(x) == ne_bytes(y) {
        if endianness() is Little {
            assert(le_bytes(x) == le_bytes(y));
        } else {
            assert(le_bytes(x) =~= le_bytes(x).reverse().reverse());
            assert(le_bytes(y) =~= le_bytes(y).reverse().reverse());
        }
    }
}

} // verus!
