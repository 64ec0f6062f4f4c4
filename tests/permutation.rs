use chaskey::permutation::{
    round, times_two, unround, xor_u32x4, xor_u8x16, Chaskey, Chaskey12, ChaskeyLTS, Permutation,
};
use quickcheck::{quickcheck, Arbitrary, Gen};

#[derive(PartialEq, Eq, Clone, Copy, Debug)]
struct Block([u32; 4]);

impl Arbitrary for Block {
    fn arbitrary(g: &mut Gen) -> Self {
        Block([
            u32::arbitrary(g),
            u32::arbitrary(g),
            u32::arbitrary(g),
            u32::arbitrary(g),
        ])
    }
}

fn round_unround_prop(msg: Block) -> bool {
    let mut buf = msg;
    round(&mut buf.0);
    unround(&mut buf.0);
    buf == msg
}

#[test]
fn round_unround() {
    quickcheck(round_unround_prop as fn(Block) -> bool);
}

fn permute_invert_prop<P: Permutation>(msg: Block) -> bool {
    let mut buf = msg;
    P::permute(&mut buf.0);
    P::invert(&mut buf.0);
    buf == msg
}

fn permute_invert<P: Permutation + 'static>() {
    quickcheck(permute_invert_prop::<P> as fn(Block) -> bool);
}

#[test]
fn permute8_invert8() {
    permute_invert::<Chaskey>()
}

#[test]
fn permute12_invert12() {
    permute_invert::<Chaskey12>()
}

#[test]
fn permute16_invert16() {
    permute_invert::<ChaskeyLTS>()
}

#[test]
fn unround_then_round_is_identity() {
    let start = [0x0123_4567, 0x89AB_CDEF, 0xFEDC_BA98, 0x7654_3210];
    let mut v = start;
    unround(&mut v);
    assert_ne!(v, start);
    round(&mut v);
    assert_eq!(v, start);
}

#[test]
fn round_of_zero_state_is_zero() {
    let mut v = [0u32; 4];
    round(&mut v);
    assert_eq!(v, [0, 0, 0, 0]);
}

#[test]
fn round_of_one_word() {
    // First half: v0 = 1, v2 = 0, v1 = 0 ^ 1 = 1, v3 = 0, v0 = rotl(1, 16).
    // Second half: v2 = 0 + 1 = 1, v0 = 0x10000 + 0, v1 = rotl(1, 7) ^ 1,
    // v3 = 0 ^ 0x10000, v2 = rotl(1, 16).
    let mut v = [1u32, 0, 0, 0];
    round(&mut v);
    assert_eq!(v, [0x10000, 0x81, 0x10000, 0x10000]);
}

#[test]
fn permutations_differ_by_round_count() {
    let start = [1u32, 2, 3, 4];
    let mut a = start;
    let mut b = start;
    let mut c = start;
    Chaskey::permute(&mut a);
    Chaskey12::permute(&mut b);
    ChaskeyLTS::permute(&mut c);
    let mut eight = start;
    for _ in 0..8 {
        round(&mut eight);
    }
    assert_eq!(a, eight);
    let mut twelve = eight;
    for _ in 0..4 {
        round(&mut twelve);
    }
    assert_eq!(b, twelve);
    assert_ne!(a, b);
    assert_ne!(b, c);
}

#[test]
fn times_two_without_carry_out() {
    assert_eq!(times_two([1, 0, 0, 0]), [2, 0, 0, 0]);
    assert_eq!(times_two([0x8000_0000, 0, 0, 0]), [0, 1, 0, 0]);
    assert_eq!(times_two([0, 0x8000_0001, 0, 0]), [0, 2, 1, 0]);
}

#[test]
fn times_two_with_carry_out() {
    assert_eq!(times_two([0, 0, 0, 0x8000_0000]), [0x87, 0, 0, 0]);
    assert_eq!(
        times_two([0xFFFF_FFFF, 0xFFFF_FFFF, 0xFFFF_FFFF, 0xFFFF_FFFF]),
        [0xFFFF_FF79, 0xFFFF_FFFF, 0xFFFF_FFFF, 0xFFFF_FFFF]
    );
}

#[test]
fn xor_words_into_state() {
    let mut s = [0xFFFF_0000u32, 1, 2, 3];
    xor_u32x4(&mut s, &[0x0000_FFFF, 1, 0, 0xF0]);
    assert_eq!(s, [0xFFFF_FFFF, 0, 2, 0xF3]);
}

#[test]
fn xor_bytes_into_state_little_endian() {
    let mut s = [0u32; 4];
    let bytes: [u8; 16] = [
        0x01, 0x02, 0x03, 0x04, 0x05, 0x06, 0x07, 0x08, 0x09, 0x0A, 0x0B, 0x0C, 0x0D, 0x0E, 0x0F,
        0x10,
    ];
    xor_u8x16(&mut s, &bytes);
    assert_eq!(s, [0x0403_0201, 0x0807_0605, 0x0C0B_0A09, 0x100F_0E0D]);
    xor_u8x16(&mut s, &bytes);
    assert_eq!(s, [0, 0, 0, 0]);
}
