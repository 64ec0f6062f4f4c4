//! The Chaskey round function, its inverse, the permutations built from
//! them, and the key-schedule doubling.

use vstd::prelude::*;

pub use crate::util::{xor_u32x4, xor_u8x16};

verus! {

/// Rotation of a 32-bit word left by `n` bits.
pub open spec fn rotl(x: u32, n: u32) -> u32 {
    (x << n) | (x >> ((32 - n) as u32))
}

/// Rotation of a 32-bit word right by `n` bits.
pub open spec fn rotr(x: u32, n: u32) -> u32 {
    (x >> n) | (x << ((32 - n) as u32))
}

fn rotate_left(x: u32, n: u32) -> (r: u32)
    requires
        0 < n < 32,
    ensures
        r == rotl(x, n),
{
    (x << n) | (x >> (32 - n))
}

fn rotate_right(x: u32, n: u32) -> (r: u32)
    requires
        0 < n < 32,
    ensures
        r == rotr(x, n),
{
    (x >> n) | (x << (32 - n))
}

/// The Chaskey round, on the four words of the state.
pub open spec fn round_spec(v: Seq<u32>) -> Seq<u32> {
    let a = v[0].wrapping_add(v[1]);
    let c = v[2].wrapping_add(v[3]);
    let b = rotl(v[1], 5) ^ a;
    let d = rotl(v[3], 8) ^ c;
    let a = rotl(a, 16);
    let c = c.wrapping_add(b);
    let a = a.wrapping_add(d);
    let b = rotl(b, 7) ^ c;
    let d = rotl(d, 13) ^ a;
    let c = rotl(c, 16);
    seq![a, b, c, d]
}

/// The inverse of the Chaskey round: each step of [`round_spec`] undone in
/// reverse order.
pub open spec fn unround_spec(v: Seq<u32>) -> Seq<u32> {
    let c = rotr(v[2], 16);
    let b = v[1] ^ c;
    let d = v[3] ^ v[0];
    let b = rotr(b, 7);
    let d = rotr(d, 13);
    let c = c.wrapping_sub(b);
    let a = v[0].wrapping_sub(d);
    let a = rotr(a, 16);
    let b = b ^ a;
    let d = d ^ c;
    let b = rotr(b, 5);
    let d = rotr(d, 8);
    let a = a.wrapping_sub(b);
    let c = c.wrapping_sub(d);
    seq![a, b, c, d]
}

/// The word steps of a round that the inverse round undoes: XOR with the
/// same word, and wrapping addition against wrapping subtraction.
proof fn lemma_word_steps()
    ensures
        forall|x: u32, y: u32| #[trigger] (x ^ y) ^ y == x,
        forall|x: u32, y: u32| #[trigger] x.wrapping_add(y).wrapping_sub(y) == x,
        forall|x: u32, y: u32| #[trigger] x.wrapping_sub(y).wrapping_add(y) == x,
{
    assert forall|x: u32, y: u32| #[trigger] (x ^ y) ^ y == x by {
        assert((x ^ y) ^ y == x) by (bit_vector);
    }
}

/// Rotating right by `n` undoes rotating left by `n`, and the other way
/// round.
proof fn lemma_rotate_inverse(x: u32, n: u32)
    by (bit_vector)
    requires
        0 < n < 32,
    ensures
        rotr(rotl(x, n), n) == x,
        rotl(rotr(x, n), n) == x,
{
}

proof fn lemma_rotations()
    ensures
        forall|x: u32, n: u32| 0 < n < 32 ==> #[trigger] rotr(rotl(x, n), n) == x,
        forall|x: u32, n: u32| 0 < n < 32 ==> #[trigger] rotl(rotr(x, n), n) == x,
{
    assert forall|x: u32, n: u32| 0 < n < 32 implies #[trigger] rotr(rotl(x, n), n) == x by {
        lemma_rotate_inverse(x, n);
    }
    assert forall|x: u32, n: u32| 0 < n < 32 implies #[trigger] rotl(rotr(x, n), n) == x by {
        lemma_rotate_inverse(x, n);
    }
}

/// One round undone by one inverse round, and the other way round: the
/// round is a bijection on the 128-bit state.
pub proof fn lemma_round_inverse(v: Seq<u32>)
    requires
        v.len() == 4,
    ensures
        unround_spec(round_spec(v)) == v,
        round_spec(unround_spec(v)) == v,
{
    lemma_word_steps();
    lemma_rotations();
    assert(unround_spec(round_spec(v)) =~= v);
    assert(round_spec(unround_spec(v)) =~= v);
}

/// The Chaskey round function.
pub fn round(v: &mut [u32; 4])
    ensures
        final(v)@ == round_spec(old(v)@),
{
    v[0] = v[0].wrapping_add(v[1]);
    v[2] = v[2].wrapping_add(v[3]);
    v[1] = rotate_left(v[1], 5);
    v[3] = rotate_left(v[3], 8);
    v[1] = v[1] ^ v[0];
    v[3] = v[3] ^ v[2];
    v[0] = rotate_left(v[0], 16);

    v[2] = v[2].wrapping_add(v[1]);
    v[0] = v[0].wrapping_add(v[3]);
    v[1] = rotate_left(v[1], 7);
    v[3] = rotate_left(v[3], 13);
    v[1] = v[1] ^ v[2];
    v[3] = v[3] ^ v[0];
    v[2] = rotate_left(v[2], 16);
    assert(v@ =~= round_spec(old(v)@));
}

/// The inverse of the Chaskey round function.
pub fn unround(v: &mut [u32; 4])
    ensures
        final(v)@ == unround_spec(old(v)@),
{
    v[2] = rotate_right(v[2], 16);
    v[1] = v[1] ^ v[2];
    v[3] = v[3] ^ v[0];
    v[1] = rotate_right(v[1], 7);
    v[3] = rotate_right(v[3], 13);
    v[2] = v[2].wrapping_sub(v[1]);
    v[0] = v[0].wrapping_sub(v[3]);

    v[0] = rotate_right(v[0], 16);
    v[1] = v[1] ^ v[0];
    v[3] = v[3] ^ v[2];
    v[1] = rotate_right(v[1], 5);
    v[3] = rotate_right(v[3], 8);
    v[0] = v[0].wrapping_sub(v[1]);
    v[2] = v[2].wrapping_sub(v[3]);
    assert(v@ =~= unround_spec(old(v)@));
}

/// `n` rounds applied to the state.
pub open spec fn permute_n(v: Seq<u32>, n: nat) -> Seq<u32>
    decreases n,
{
    if n == 0 {
        v
    } else {
        round_spec(permute_n(v, (n - 1) as nat))
    }
}

/// `n` inverse rounds applied to the state.
pub open spec fn invert_n(v: Seq<u32>, n: nat) -> Seq<u32>
    decreases n,
{
    if n == 0 {
        v
    } else {
        unround_spec(invert_n(v, (n - 1) as nat))
    }
}

/// Rounds and inverse rounds keep the state four words long.
pub proof fn lemma_permute_len(v: Seq<u32>, n: nat)
    requires
        v.len() == 4,
    ensures
        permute_n(v, n).len() == 4,
        invert_n(v, n).len() == 4,
    decreases n,
{
    if n > 0 {
        lemma_permute_len(v, (n - 1) as nat);
    }
}

/// Peeling the innermost inverse round off instead of the outermost one.
proof fn lemma_invert_unfold_inner(v: Seq<u32>, n: nat)
    requires
        n > 0,
    ensures
        invert_n(v, n) == invert_n(unround_spec(v), (n - 1) as nat),
    decreases n,
{
    if n > 1 {
        lemma_invert_unfold_inner(v, (n - 1) as nat);
        assert(invert_n(unround_spec(v), (n - 1) as nat) == unround_spec(
            invert_n(unround_spec(v), (n - 2) as nat),
        ));
    } else {
        assert(invert_n(v, 0) == v);
    }
}

/// Peeling the innermost round off instead of the outermost one.
proof fn lemma_permute_unfold_inner(v: Seq<u32>, n: nat)
    requires
        n > 0,
    ensures
        permute_n(v, n) == permute_n(round_spec(v), (n - 1) as nat),
    decreases n,
{
    if n > 1 {
        lemma_permute_unfold_inner(v, (n - 1) as nat);
        assert(permute_n(round_spec(v), (n - 1) as nat) == round_spec(
            permute_n(round_spec(v), (n - 2) as nat),
        ));
    } else {
        assert(permute_n(v, 0) == v);
    }
}

/// `n` inverse rounds undo `n` rounds, and the other way round: each
/// permutation is a bijection on the 128-bit state.
pub proof fn lemma_permute_inverse(v: Seq<u32>, n: nat)
    requires
        v.len() == 4,
    ensures
        invert_n(permute_n(v, n), n) == v,
        permute_n(invert_n(v, n), n) == v,
    decreases n,
{
    if n > 0 {
        let m = (n - 1) as nat;
        lemma_permute_inverse(v, m);
        lemma_permute_len(v, m);
        lemma_round_inverse(permute_n(v, m));
        lemma_invert_unfold_inner(permute_n(v, n), n);
        lemma_permute_unfold_inner(invert_n(v, n), n);
        lemma_round_inverse(invert_n(v, m));
    }
}

fn apply_rounds(state: &mut [u32; 4], n: usize)
    ensures
        final(state)@ == permute_n(old(state)@, n as nat),
{
    let mut i: usize = 0;
    while i < n
        invariant
            i <= n,
            state@ == permute_n(old(state)@, i as nat),
        decreases n - i,
    {
        round(state);
        i = i + 1;
    }
}

fn apply_unrounds(state: &mut [u32; 4], n: usize)
    ensures
        final(state)@ == invert_n(old(state)@, n as nat),
{
    let mut i: usize = 0;
    while i < n
        invariant
            i <= n,
            state@ == invert_n(old(state)@, i as nat),
        decreases n - i,
    {
        unround(state);
        i = i + 1;
    }
}

/// A Chaskey permutation of the four-word state, fixed by its number of
/// rounds. Processors in this library take the variant as a type parameter,
/// so the round count is chosen once per use site.
pub trait Permutation {
    /// The number of rounds.
    spec fn rounds() -> nat;

    /// Applies the permutation: [`Self::rounds`] rounds.
    fn permute(state: &mut [u32; 4])
        ensures
            final(state)@ == permute_n(old(state)@, Self::rounds()),
    ;

    /// Applies the inverse permutation: [`Self::rounds`] inverse rounds.
    fn invert(state: &mut [u32; 4])
        ensures
            final(state)@ == invert_n(old(state)@, Self::rounds()),
    ;
}

/// The original Chaskey permutation (8 rounds).
pub struct Chaskey;

impl Permutation for Chaskey {
    open spec fn rounds() -> nat {
        8
    }

    fn permute(state: &mut [u32; 4]) {
        apply_rounds(state, 8);
    }

    fn invert(state: &mut [u32; 4]) {
        apply_unrounds(state, 8);
    }
}

/// The Chaskey-12 permutation (12 rounds).
pub struct Chaskey12;

impl Permutation for Chaskey12 {
    open spec fn rounds() -> nat {
        12
    }

    fn permute(state: &mut [u32; 4]) {
        apply_rounds(state, 12);
    }

    fn invert(state: &mut [u32; 4]) {
        apply_unrounds(state, 12);
    }
}

/// The Chaskey-LTS permutation (16 rounds).
pub struct ChaskeyLTS;

impl Permutation for ChaskeyLTS {
    open spec fn rounds() -> nat {
        16
    }

    fn permute(state: &mut [u32; 4]) {
        apply_rounds(state, 16);
    }

    fn invert(state: &mut [u32; 4]) {
        apply_unrounds(state, 16);
    }
}

/// The 128-bit value of four words, least significant word first.
pub open spec fn value_of_words(w0: u32, w1: u32, w2: u32, w3: u32) -> u128 {
    (w0 as u128) | ((w1 as u128) << 32u128) | ((w2 as u128) << 64u128) | ((w3 as u128) << 96u128)
}

/// The 128-bit value of a four-word key or state.
pub open spec fn value128(k: Seq<u32>) -> u128 {
    value_of_words(k[0], k[1], k[2], k[3])
}

/// Multiplication by `x` in GF(2^128) modulo `x^128 + x^7 + x^2 + x + 1`:
/// a shift left by one bit, with `0x87` folded in when the top bit falls off.
pub open spec fn gf_double(v: u128) -> u128 {
    (v << 1u128) ^ (if v >> 127u128 == 1 { 0x87u128 } else { 0u128 })
}

/// The Chaskey key-schedule doubling, word by word: each word shifted left
/// by one, taking the top bit of the word below it; the top bit of the last
/// word decides whether `0x87` goes into the first.
pub open spec fn times_two_spec(k: Seq<u32>) -> Seq<u32> {
    seq![
        (k[0] << 1u32) ^ (if k[3] >> 31u32 == 0 { 0u32 } else { 0x87u32 }),
        (k[1] << 1u32) ^ (k[0] >> 31u32),
        (k[2] << 1u32) ^ (k[1] >> 31u32),
        (k[3] << 1u32) ^ (k[2] >> 31u32),
    ]
}

/// The word-by-word doubling is doubling of the 128-bit value in GF(2^128).
pub proof fn lemma_times_two_value(k: Seq<u32>)
    requires
        k.len() == 4,
    ensures
        value128(times_two_spec(k)) == gf_double(value128(k)),
{
    let (a, b, c, d) = (k[0], k[1], k[2], k[3]);
    assert(value_of_words(
        (a << 1u32) ^ (if d >> 31u32 == 0 { 0u32 } else { 0x87u32 }),
        (b << 1u32) ^ (a >> 31u32),
        (c << 1u32) ^ (b >> 31u32),
        (d << 1u32) ^ (c >> 31u32),
    ) == gf_double(value_of_words(a, b, c, d))) by (bit_vector);
}

/// Function used in the Chaskey key schedule: doubling in GF(2^128).
pub fn times_two(key: [u32; 4]) -> (r: [u32; 4])
    ensures
        r@ == times_two_spec(key@),
        value128(r@) == gf_double(value128(key@)),
{
    let c: [u32; 2] = [0x00, 0x87];
    let high: u32 = key[3];
    let top: u32 = high >> 31;
    assert(top < 2) by (bit_vector)
        requires
            top == high >> 31u32,
    ;
    let r = [
        (key[0] << 1) ^ c[top as usize],
        (key[1] << 1) ^ (key[0] >> 31),
        (key[2] << 1) ^ (key[1] >> 31),
        (key[3] << 1) ^ (key[2] >> 31),
    ];
    assert(r@ =~= times_two_spec(key@));
    proof {
        lemma_times_two_value(key@);
    }
    r
}

} // verus!
