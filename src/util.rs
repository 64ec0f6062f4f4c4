//! Word-level helpers shared by the cipher and the digester: XOR of a block
//! into the state, and little-endian reading of a 16-byte block.

use byteorder::{ByteOrder, LittleEndian};
use vstd::prelude::*;

verus! {

/// Word-by-word XOR of two four-word values.
pub open spec fn xor_words(a: Seq<u32>, b: Seq<u32>) -> Seq<u32> {
    seq![a[0] ^ b[0], a[1] ^ b[1], a[2] ^ b[2], a[3] ^ b[3]]
}

/// XOR with the same value twice leaves a four-word value unchanged.
pub proof fn lemma_xor_words_cancel(a: Seq<u32>, k: Seq<u32>)
    requires
        a.len() == 4,
    ensures
        xor_words(xor_words(a, k), k) == a,
{
    assert forall|x: u32, y: u32| #[trigger] ((x ^ y) ^ y) == x by {
        assert((x ^ y) ^ y == x) by (bit_vector);
    }
    assert(xor_words(xor_words(a, k), k) =~= a);
}

/// The 32-bit word held by four bytes, least significant byte first.
pub open spec fn le_word(b0: u8, b1: u8, b2: u8, b3: u8) -> u32 {
    (b0 + 0x100 * b1 + 0x1_0000 * b2 + 0x100_0000 * b3) as u32
}

/// The four words of a 16-byte block, each read least significant byte
/// first.
pub open spec fn le_words(b: Seq<u8>) -> Seq<u32> {
    seq![
        le_word(b[0], b[1], b[2], b[3]),
        le_word(b[4], b[5], b[6], b[7]),
        le_word(b[8], b[9], b[10], b[11]),
        le_word(b[12], b[13], b[14], b[15]),
    ]
}

/// Relies on byteorder's `LittleEndian::read_u32_into`: with sixteen source
/// bytes and four destination words it fills word `i` from bytes `4 * i` to
/// `4 * i + 3`, least significant first (`u32::from_le_bytes`), and does not
/// panic since the lengths agree.
#[verifier::external_body]
fn read_le_words(block: &[u8; 16]) -> (r: [u32; 4])
    ensures
        r@ == le_words(block@),
{
    let mut words = [0u32; 4];
    LittleEndian::read_u32_into(block, &mut words);
    words
}

/// XOR a `[u32; 4]` value into the Chaskey state.
pub fn xor_u32x4(state: &mut [u32; 4], block: &[u32; 4])
    ensures
        final(state)@ == xor_words(old(state)@, block@),
{
    state[0] = state[0] ^ block[0];
    state[1] = state[1] ^ block[1];
    state[2] = state[2] ^ block[2];
    state[3] = state[3] ^ block[3];
    assert(state@ =~= xor_words(old(state)@, block@));
}

/// XOR a `[u8; 16]` value into the Chaskey state, reading it as four
/// little-endian words.
pub fn xor_u8x16(state: &mut [u32; 4], block: &[u8; 16])
    ensures
        final(state)@ == xor_words(old(state)@, le_words(block@)),
{
    let words = read_le_words(block);
    xor_u32x4(state, &words);
}

} // verus!
