use byteorder::{ByteOrder, LittleEndian};
use chaskey::cipher::{decrypt, encrypt, Chaskey, Chaskey12, ChaskeyLTS, Permutation};
use quickcheck::{quickcheck, Arbitrary, Gen};

#[derive(PartialEq, Eq, Clone, Copy, Debug)]
struct Block([u32; 4]);

impl Arbitrary for Block {
    fn arbitrary(g: &mut Gen) -> Self {
        Block([
            u32::arbitrary(g),
            u32::arbitrary(g),
            u32::arbitrary(g),
            u32::arbitrary(g),
        ])
    }
}

fn encrypt_decrypt_prop<P: Permutation>(msg: Block, key: Block) -> bool {
    let mut buf = msg;
    encrypt::<P>(&mut buf.0, &key.0);
    decrypt::<P>(&mut buf.0, &key.0);
    buf == msg
}

fn encrypt_decrypt<P: Permutation + 'static>() {
    quickcheck(encrypt_decrypt_prop::<P> as fn(Block, Block) -> bool);
}

#[test]
fn encrypt8_decrypt8() {
    encrypt_decrypt::<Chaskey>();
}

#[test]
fn encrypt12_decrypt12() {
    encrypt_decrypt::<Chaskey12>();
}

#[test]
fn encrypt16_decrypt16() {
    encrypt_decrypt::<ChaskeyLTS>();
}

fn to_u32x4(bytes: &[u8; 16]) -> [u32; 4] {
    [
        LittleEndian::read_u32(&bytes[0..4]),
        LittleEndian::read_u32(&bytes[4..8]),
        LittleEndian::read_u32(&bytes[8..12]),
        LittleEndian::read_u32(&bytes[12..16]),
    ]
}

/// A Chaskey-LTS (16 round) plaintext/ciphertext/key triple, taken from
/// FELIX.
#[test]
fn chaskey_lts_vectors() {
    const PLAINTEXT: [u8; 16] = [
        0xb8, 0x23, 0x28, 0x26, 0xfd, 0x5e, 0x40, 0x5e, 0x69, 0xa3, 0x01, 0xa9, 0x78, 0xea, 0x7a,
        0xd8,
    ];

    const CIPHERTEXT: [u8; 16] = [
        0xd5, 0x60, 0x8d, 0x4d, 0xa2, 0xbf, 0x34, 0x7b, 0xab, 0xf8, 0x77, 0x2f, 0xdf, 0xed, 0xde,
        0x07,
    ];

    const KEY: [u8; 16] = [
        0x56, 0x09, 0xe9, 0x68, 0x5f, 0x58, 0xe3, 0x29, 0x40, 0xec, 0xec, 0x98, 0xc5, 0x22, 0x98,
        0x2f,
    ];

    let key: [u32; 4] = to_u32x4(&KEY);
    let plaintext: [u32; 4] = to_u32x4(&PLAINTEXT);
    let ciphertext: [u32; 4] = to_u32x4(&CIPHERTEXT);

    let mut buf = plaintext;
    encrypt::<ChaskeyLTS>(&mut buf, &key);
    assert_eq!(&buf, &ciphertext);

    decrypt::<ChaskeyLTS>(&mut buf, &key);
    assert_eq!(&buf, &plaintext);
}

#[test]
fn cipher_depends_on_key_and_rounds() {
    let msg = [1u32, 2, 3, 4];
    let mut a = msg;
    let mut b = msg;
    let mut c = msg;
    encrypt::<Chaskey>(&mut a, &[0, 0, 0, 0]);
    encrypt::<Chaskey>(&mut b, &[0, 0, 0, 1]);
    encrypt::<Chaskey12>(&mut c, &[0, 0, 0, 0]);
    assert_ne!(a, msg);
    assert_ne!(a, b);
    assert_ne!(a, c);
}

#[test]
fn decrypt_then_encrypt_is_identity() {
    let key = [0xDEAD_BEEF, 0, 7, 0x8000_0000];
    let start = [9u32, 8, 7, 6];
    let mut buf = start;
    decrypt::<Chaskey12>(&mut buf, &key);
    assert_ne!(buf, start);
    encrypt::<Chaskey12>(&mut buf, &key);
    assert_eq!(buf, start);
}
