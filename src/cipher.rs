//! The Chaskey block cipher: the Even–Mansour construction over a Chaskey
//! permutation, on one 128-bit block.
//!
//! The Chaskey MAC is, conceptually, built from this cipher, and the security
//! arguments for the MAC appeal to the cipher's properties.

use vstd::prelude::*;

pub use crate::permutation::{Chaskey, Chaskey12, ChaskeyLTS, Permutation};
use crate::permutation::{invert_n, lemma_permute_inverse, lemma_permute_len, permute_n};
use crate::util::{lemma_xor_words_cancel, xor_u32x4, xor_words};

verus! {

/// Even–Mansour encryption of block `m` under key `k` with `n` rounds:
/// whiten with the key, permute, whiten again.
pub open spec fn encrypt_spec(m: Seq<u32>, k: Seq<u32>, n: nat) -> Seq<u32> {
    xor_words(permute_n(xor_words(m, k), n), k)
}

/// Even–Mansour decryption of block `c` under key `k` with `n` rounds:
/// whiten with the key, invert the permutation, whiten again.
pub open spec fn decrypt_spec(c: Seq<u32>, k: Seq<u32>, n: nat) -> Seq<u32> {
    xor_words(invert_n(xor_words(c, k), n), k)
}

/// Decryption undoes encryption under the same key, and the other way
/// round, for every block, key and round count.
pub proof fn lemma_cipher_round_trip(m: Seq<u32>, k: Seq<u32>, n: nat)
    requires
        m.len() == 4,
        k.len() == 4,
    ensures
        decrypt_spec(encrypt_spec(m, k, n), k, n) == m,
        encrypt_spec(decrypt_spec(m, k, n), k, n) == m,
{
    let x = xor_words(m, k);
    lemma_permute_len(x, n);
    lemma_xor_words_cancel(permute_n(x, n), k);
    lemma_xor_words_cancel(invert_n(x, n), k);
    lemma_permute_inverse(x, n);
    lemma_xor_words_cancel(m, k);
}

/// Encryption function for the Chaskey block cipher, parametrized by the
/// permutation to use.
pub fn encrypt<P: Permutation>(msg: &mut [u32; 4], key: &[u32; 4])
    ensures
        final(msg)@ == encrypt_spec(old(msg)@, key@, P::rounds()),
{
    xor_u32x4(msg, key);
    P::permute(msg);
    xor_u32x4(msg, key);
}

/// Decryption function for the Chaskey block cipher, parametrized by the
/// permutation to use.
pub fn decrypt<P: Permutation>(msg: &mut [u32; 4], key: &[u32; 4])
    ensures
        final(msg)@ == decrypt_spec(old(msg)@, key@, P::rounds()),
{
    xor_u32x4(msg, key);
    P::invert(msg);
    xor_u32x4(msg, key);
}

} // verus!
