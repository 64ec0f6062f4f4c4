//! The Chaskey MAC: key schedule, tags with constant-time comparison, and an
//! incremental digester.

use std::marker::PhantomData;
use vstd::prelude::*;

use crate::permutation::{permute_n, times_two, times_two_spec, Permutation};
use crate::util::{le_words, xor_u32x4, xor_u8x16, xor_words};

verus! {

// ---------------------------------------------------------------------------
// The MAC as a function of key and message
// ---------------------------------------------------------------------------

/// How many bytes of a message of length `len` make up its final block,
/// full or partial: the bytes that the digester holds back until the end.
/// Only the empty message has an empty final block.
pub open spec fn tail_len(len: nat) -> nat {
    if len == 0 {
        0
    } else {
        ((len - 1) % 16 + 1) as nat
    }
}

/// How many full blocks of a message of length `len` come before its final
/// block.
pub open spec fn lead_blocks(len: nat) -> nat {
    ((len - tail_len(len)) / 16) as nat
}

/// Block `j` of message `m`: its bytes `16 * j` to `16 * j + 15`.
pub open spec fn block_of(m: Seq<u8>, j: nat) -> Seq<u8> {
    m.subrange(16 * j as int, 16 * j as int + 16)
}

/// The state after the first `nb` blocks of `m` were absorbed into the state
/// `s`, each XORed in as four little-endian words and followed by `r`
/// rounds.
pub open spec fn absorb(s: Seq<u32>, m: Seq<u8>, nb: nat, r: nat) -> Seq<u32>
    decreases nb,
{
    if nb == 0 {
        s
    } else {
        let prev = absorb(s, m, (nb - 1) as nat, r);
        permute_n(xor_words(prev, le_words(block_of(m, (nb - 1) as nat))), r)
    }
}

/// A partial final block padded to sixteen bytes: its bytes, then `0x01`,
/// then zeros.
pub open spec fn pad_block(t: Seq<u8>) -> Seq<u8> {
    t + seq![1u8] + Seq::new((15 - t.len()) as nat, |i: int| 0u8)
}

/// The final step: the last block and the subkey `k` XORed into the state,
/// the permutation applied, and `k` XORed in again.
pub open spec fn finalize(s: Seq<u32>, last: Seq<u8>, k: Seq<u32>, r: nat) -> Seq<u32> {
    xor_words(permute_n(xor_words(xor_words(s, le_words(last)), k), r), k)
}

/// The Chaskey tag of message `m` under `key` with an `r`-round permutation.
/// Every block but the last is absorbed into the key; a full last block is
/// finalized with the subkey `k1 = 2 * key`, a partial one (and the empty
/// message) is padded and finalized with `k2 = 4 * key`.
pub open spec fn mac_spec(key: Seq<u32>, m: Seq<u8>, r: nat) -> Seq<u32> {
    let t = tail_len(m.len());
    let s = absorb(key, m, lead_blocks(m.len()), r);
    let last = m.subrange(m.len() - t, m.len() as int);
    if t == 16 {
        finalize(s, last, times_two_spec(key), r)
    } else {
        finalize(s, pad_block(last), times_two_spec(times_two_spec(key)), r)
    }
}

/// Writing a message in two pieces gives the same tag as writing it whole,
/// whatever was written before.
pub proof fn lemma_chunking(key: Seq<u32>, prior: Seq<u8>, a: Seq<u8>, b: Seq<u8>, r: nat)
    ensures
        mac_spec(key, prior + a + b, r) == mac_spec(key, prior + (a + b), r),
{
    assert(prior + a + b =~= prior + (a + b));
}

// ---------------------------------------------------------------------------
// Key schedule
// ---------------------------------------------------------------------------

/// A Chaskey key schedule.
#[derive(Clone, Copy)]
pub struct Keys {
    key: [u32; 4],
    k1: [u32; 4],
    k2: [u32; 4],
}

impl Keys {
    /// The key the schedule was made from.
    pub closed spec fn spec_key(&self) -> Seq<u32> {
        self.key@
    }

    /// The first subkey.
    pub closed spec fn spec_k1(&self) -> Seq<u32> {
        self.k1@
    }

    /// The second subkey.
    pub closed spec fn spec_k2(&self) -> Seq<u32> {
        self.k2@
    }
}

/// Construct the Chaskey key schedule from the given key: the key, its
/// double and its quadruple in GF(2^128).
pub fn make_keys(key: [u32; 4]) -> (r: Keys)
    ensures
        r.spec_key() == key@,
        r.spec_k1() == times_two_spec(key@),
        r.spec_k2() == times_two_spec(times_two_spec(key@)),
{
    let k1: [u32; 4] = times_two(key);
    let k2: [u32; 4] = times_two(k1);
    Keys { key: key, k1: k1, k2: k2 }
}

// ---------------------------------------------------------------------------
// Tag
// ---------------------------------------------------------------------------

/// A 128-bit Chaskey tag.
///
/// **WARNING:** This is a wrapper around an `[u32; 4]` in order to provide
/// constant-time equality comparisons. You may unwrap it if you like, but be
/// careful what you do with the words, or you may expose yourself to a
/// timing attack.
#[derive(Eq, Debug)]
pub struct Tag([u32; 4]);

impl View for Tag {
    type V = Seq<u32>;

    closed spec fn view(&self) -> Seq<u32> {
        self.0@
    }
}

impl Tag {
    pub fn new(words: [u32; 4]) -> (t: Tag)
        ensures
            t@ == words@,
    {
        Tag(words)
    }

    /// Unwrap a `Tag` into its raw word array. **Performing variable-time
    /// comparisons of these arrays may expose you to timing attacks**; stick
    /// to comparing the `Tag` wrappers if you can.
    pub fn raw_words(&self) -> (r: &[u32; 4])
        ensures
            r@ == self@,
    {
        &self.0
    }

    /// The low 64 bits of the tag: its first word, then its second.
    pub fn to_u64(&self) -> (r: u64)
        ensures
            r as int == self@[0] as int + self@[1] as int * 0x1_0000_0000,
    {
        let lo: u32 = self.0[0];
        let hi: u32 = self.0[1];
        let r: u64 = (lo as u64) | (hi as u64).wrapping_shl(32);
        assert((lo as u64) | ((hi as u64) << 32u32) == lo as int + hi as int * 0x1_0000_0000)
            by (bit_vector);
        r
    }
}

proof fn lemma_diff_zero(a0: u32, a1: u32, a2: u32, a3: u32, b0: u32, b1: u32, b2: u32, b3: u32)
    by (bit_vector)
    ensures
        ((a0 ^ b0) | (a1 ^ b1) | (a2 ^ b2) | (a3 ^ b3)) == 0 <==> (a0 == b0 && a1 == b1 && a2
            == b2 && a3 == b3),
{
}

impl PartialEq for Tag {
    /// Compares all four words with no early exit: the differences of the
    /// words are OR-ed together and tested against zero once.
    fn eq(&self, other: &Tag) -> (r: bool)
        ensures
            r == (self@ == other@),
    {
        let diff: u32 = (self.0[0] ^ other.0[0]) | (self.0[1] ^ other.0[1]) | (self.0[2]
            ^ other.0[2]) | (self.0[3] ^ other.0[3]);
        proof {
            lemma_diff_zero(
                self.0[0],
                self.0[1],
                self.0[2],
                self.0[3],
                other.0[0],
                other.0[1],
                other.0[2],
                other.0[3],
            );
            if self.0@ == other.0@ {
                assert(self.0[0] == other.0[0] && self.0[1] == other.0[1]);
                assert(self.0[2] == other.0[2] && self.0[3] == other.0[3]);
            }
            if diff == 0 {
                assert(self.0@ =~= other.0@);
            }
        }
        diff == 0
    }
}

impl vstd::std_specs::cmp::PartialEqSpecImpl for Tag {
    open spec fn obeys_eq_spec() -> bool {
        true
    }

    open spec fn eq_spec(&self, other: &Tag) -> bool {
        self@ == other@
    }
}

// ---------------------------------------------------------------------------
// Incremental digester
// ---------------------------------------------------------------------------

/// What the digester's state, buffer and buffered count hold after message
/// `m` was written under `key` with an `r`-round permutation: every block
/// before the final one absorbed into the state, the final block in the
/// buffer.
pub open spec fn holds_message(
    key: Seq<u32>,
    state: Seq<u32>,
    buf: Seq<u8>,
    buffered: nat,
    m: Seq<u8>,
    r: nat,
) -> bool {
    &&& buf.len() == 16
    &&& buffered == tail_len(m.len())
    &&& buf.subrange(0, buffered as int) == m.subrange(m.len() - buffered, m.len() as int)
    &&& state == absorb(key, m, lead_blocks(m.len()), r)
}

/// Before any byte is written, the state is the key and the buffer holds
/// nothing.
proof fn lemma_empty_message(key: Seq<u32>, buf: Seq<u8>, r: nat)
    requires
        buf.len() == 16,
    ensures
        holds_message(key, key, buf, 0, Seq::empty(), r),
{
    assert(lead_blocks(0) == 0);
    assert(buf.subrange(0, 0) =~= Seq::<u8>::empty().subrange(0, 0));
}

/// How the final block and the count of blocks before it move when one
/// more byte is written.
proof fn lemma_tail_step(len: nat)
    ensures
        tail_len(len) <= 16,
        len - tail_len(len) == 16 * lead_blocks(len),
        tail_len(len) < 16 ==> tail_len(len + 1) == tail_len(len) + 1 && lead_blocks(len + 1)
            == lead_blocks(len),
        tail_len(len) == 16 ==> tail_len(len + 1) == 1 && lead_blocks(len + 1) == lead_blocks(len)
            + 1,
{
}

/// The absorbed state depends only on the blocks it absorbed.
proof fn lemma_absorb_prefix(s: Seq<u32>, m: Seq<u8>, m2: Seq<u8>, nb: nat, r: nat)
    requires
        16 * nb <= m.len() <= m2.len(),
        m2.subrange(0, m.len() as int) == m,
    ensures
        absorb(s, m, nb, r) == absorb(s, m2, nb, r),
    decreases nb,
{
    if nb > 0 {
        let j = (nb - 1) as nat;
        lemma_absorb_prefix(s, m, m2, j, r);
        assert(block_of(m, j) =~= block_of(m2, j)) by {
            assert forall|i: int| 0 <= i < 16 implies block_of(m, j)[i] == block_of(m2, j)[i] by {
                assert(m2.subrange(0, m.len() as int)[16 * j + i] == m2[16 * j + i]);
            }
        }
    }
}

/// Takes one more byte of message `m`: a full block waiting in the buffer is
/// first XORed into the state and permuted, then the byte is buffered.
fn push_byte<P: Permutation>(
    keys: &Keys,
    state: &mut [u32; 4],
    buf: &mut [u8; 16],
    buffered: &mut usize,
    byte: u8,
    Ghost(m): Ghost<Seq<u8>>,
)
    requires
        holds_message(keys.key@, old(state)@, old(buf)@, *old(buffered) as nat, m, P::rounds()),
    ensures
        holds_message(
            keys.key@,
            final(state)@,
            final(buf)@,
            *final(buffered) as nat,
            m.push(byte),
            P::rounds(),
        ),
{
    let ghost len = m.len();
    proof {
        lemma_tail_step(len);
    }
    if *buffered == 16 {
        proof {
            let nb = lead_blocks(len);
            assert(buf@.subrange(0, 16) =~= buf@);
            assert(block_of(m, nb) =~= m.subrange(len - 16, len as int));
        }
        xor_u8x16(state, buf);
        P::permute(state);
        *buffered = 0;
    }
    let ghost buf0 = buf@;
    let ghost b0 = *buffered as int;
    proof {
        if b0 > 0 {
            assert(buf0.subrange(0, b0) == m.subrange(len - b0, len as int));
        }
    }
    buf[*buffered] = byte;
    *buffered = *buffered + 1;
    proof {
        let m1 = m.push(byte);
        let nb = lead_blocks(len + 1);
        assert(m1.subrange(0, len as int) =~= m);
        lemma_absorb_prefix(keys.key@, m, m1, nb, P::rounds());
        assert forall|i: int| 0 <= i <= b0 implies #[trigger] buf@[i] == m1[len - b0 + i] by {
            if i < b0 {
                assert(buf0.subrange(0, b0)[i] == m.subrange(len - b0, len as int)[i]);
            }
        }
        assert(buf@.subrange(0, b0 + 1) =~= m1.subrange(len - b0, len as int + 1));
    }
}

/// An incremental Chaskey digester. It is also a `Hasher`, so it can be
/// used as one; `finish_128` gives the full 128-bit tag.
pub struct Digester<P: Permutation> {
    permutation: PhantomData<P>,
    keys: Keys,
    state: [u32; 4],
    buf: [u8; 16],
    /// How many bytes of `buf` hold the message's final block (0 to 16).
    buffered: usize,
    message: Ghost<Seq<u8>>,
}

impl<P: Permutation> Digester<P> {
    #[verifier::type_invariant]
    spec fn well_formed(self) -> bool {
        &&& self.keys.k1@ == times_two_spec(self.keys.key@)
        &&& self.keys.k2@ == times_two_spec(self.keys.k1@)
        &&& holds_message(
            self.keys.key@,
            self.state@,
            self.buf@,
            self.buffered as nat,
            self.message@,
            P::rounds(),
        )
    }

    /// The key the digester was made with.
    pub closed spec fn key(&self) -> Seq<u32> {
        self.keys.key@
    }

    /// The bytes written since the digester was made or last reset.
    pub closed spec fn message(&self) -> Seq<u8> {
        self.message@
    }

    /// Initialize a new digester with the given key.
    pub fn new(key: [u32; 4]) -> (d: Digester<P>)
        ensures
            d.key() == key@,
            d.message() == Seq::<u8>::empty(),
    {
        let keys = make_keys(key);
        let buf = [0u8; 16];
        proof {
            lemma_empty_message(key@, buf@, P::rounds());
        }
        let d = Digester {
            permutation: PhantomData,
            keys: keys,
            state: key,
            buf: buf,
            buffered: 0,
            message: Ghost(Seq::empty()),
        };
        d
    }

    /// Write data to the digester. A full block is absorbed into the state
    /// only once a byte after it arrives, so the final block of the message
    /// always waits in the buffer for `finish_128`.
    pub fn write(&mut self, bytes: &[u8])
        ensures
            final(self).key() == old(self).key(),
            final(self).message() == old(self).message() + bytes@,
    {
        proof {
            use_type_invariant(&*self);
        }
        let keys = self.keys;
        let mut state = self.state;
        let mut buf = self.buf;
        let mut buffered = self.buffered;
        let ghost mut m = self.message@;
        let mut j: usize = 0;
        while j < bytes.len()
            invariant
                j <= bytes.len(),
                keys == self.keys,
                keys.k1@ == times_two_spec(keys.key@),
                keys.k2@ == times_two_spec(keys.k1@),
                holds_message(keys.key@, state@, buf@, buffered as nat, m, P::rounds()),
                m == old(self).message() + bytes@.subrange(0, j as int),
            decreases bytes.len() - j,
        {
            let byte = bytes[j];
            push_byte::<P>(&keys, &mut state, &mut buf, &mut buffered, byte, Ghost(m));
            proof {
                m = m.push(byte);
            }
            j = j + 1;
            proof {
                assert(bytes@.subrange(0, j as int) =~= bytes@.subrange(0, j - 1).push(byte));
                assert(m =~= old(self).message() + bytes@.subrange(0, j as int));
            }
        }
        assert(bytes@.subrange(0, bytes.len() as int) =~= bytes@);
        *self = Digester {
            permutation: PhantomData,
            keys: keys,
            state: state,
            buf: buf,
            buffered: buffered,
            message: Ghost(m),
        };
    }

    /// The tag of the message written so far. The digester is left as it
    /// was, so calling this twice without a `write` in between gives the
    /// same tag.
    pub fn finish_128(&self) -> (t: Tag)
        ensures
            t@ == mac_spec(self.key(), self.message(), P::rounds()),
    {
        proof {
            use_type_invariant(self);
        }
        let ghost m = self.message@;
        let ghost len = m.len();
        proof {
            lemma_tail_step(len);
        }
        let mut result = self.state;
        let buflen = self.buffered;
        if buflen == 16 {
            assert(self.buf@.subrange(0, 16) =~= self.buf@);
            xor_u8x16(&mut result, &self.buf);
            xor_u32x4(&mut result, &self.keys.k1);
            P::permute(&mut result);
            xor_u32x4(&mut result, &self.keys.k1);
        } else {
            let ghost tail = self.buf@.subrange(0, buflen as int);
            let mut last = [0u8; 16];
            let mut i: usize = 0;
            while i < buflen
                invariant
                    i <= buflen < 16,
                    tail == self.buf@.subrange(0, buflen as int),
                    forall|k: int| 0 <= k < i ==> last@[k] == tail[k],
                    forall|k: int| i <= k < 16 ==> last@[k] == 0u8,
                decreases buflen - i,
            {
                last[i] = self.buf[i];
                i = i + 1;
            }
            last[buflen] = 0x01;
            assert(last@ =~= pad_block(tail));
            xor_u8x16(&mut result, &last);
            xor_u32x4(&mut result, &self.keys.k2);
            P::permute(&mut result);
            xor_u32x4(&mut result, &self.keys.k2);
        }
        Tag(result)
    }

    /// Reset the digester to its initial state, so it is ready to
    /// authenticate a new message with the same key as when initialized.
    pub fn reset(&mut self)
        ensures
            final(self).key() == old(self).key(),
            final(self).message() == Seq::<u8>::empty(),
    {
        proof {
            use_type_invariant(&*self);
        }
        let keys = self.keys;
        let buf = [0u8; 16];
        proof {
            lemma_empty_message(keys.key@, buf@, P::rounds());
        }
        *self = Digester {
            permutation: PhantomData,
            keys: keys,
            state: keys.key,
            buf: buf,
            buffered: 0,
            message: Ghost(Seq::empty()),
        };
    }
}

impl<P: Permutation> std::hash::Hasher for Digester<P> {
    fn write(&mut self, bytes: &[u8])
        ensures
            final(self).key() == old(self).key(),
            final(self).message() == old(self).message() + bytes@,
    {
        Digester::write(self, bytes);
    }

    /// The low 64 bits of the tag: its first word, then its second.
    fn finish(&self) -> (r: u64)
        ensures
            ({
                let t = mac_spec(self.key(), self.message(), P::rounds());
                r as int == t[0] as int + t[1] as int * 0x1_0000_0000
            }),
    {
        self.finish_128().to_u64()
    }
}

} // verus!
