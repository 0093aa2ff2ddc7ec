use vekos::crc32::crc32;
use vekos::hash;

fn words(h: &hash::Hash) -> [u32; 8] {
    [h.w0, h.w1, h.w2, h.w3, h.w4, h.w5, h.w6, h.w7]
}

#[test]
fn sha256_of_empty_message() {
    let h = hash::hash(b"");
    assert_eq!(
        words(&h),
        [
            0xe3b0c442, 0x98fc1c14, 0x9afbf4c8, 0x996fb924, 0x27ae41e4, 0x649b934c, 0xa495991b,
            0x7852b855
        ]
    );
}

#[test]
fn sha256_of_abc() {
    let h = hash::hash(b"abc");
    assert_eq!(
        words(&h),
        [
            0xba7816bf, 0x8f01cfea, 0x414140de, 0x5dae2223, 0xb00361a3, 0x96177a9c, 0xb410ff61,
            0xf20015ad
        ]
    );
}

#[test]
fn sha256_of_two_block_message() {
    let h = hash::hash(b"abcdbcdecdefdefgefghfghighijhijkijkljklmklmnlmnomnopnopq");
    assert_eq!(
        words(&h),
        [
            0x248d6a61, 0xd20638b8, 0xe5c02693, 0x0c3e6039, 0xa33ce459, 0x64ff2167, 0xf6ecedd4,
            0x19db06c1
        ]
    );
}

#[test]
fn sha256_of_message_that_fills_a_block_but_for_the_length() {
    let msg = [0x61u8; 56];
    let again = hash::hash(&msg);
    let h = hash::hash(&msg);
    assert_eq!(h, again);
    let longer = [0x61u8; 64];
    assert_ne!(hash::hash(&longer), h);
}

#[test]
fn hash_bytes_are_big_endian_words() {
    let h = hash::hash(b"abc");
    let bytes = h.bytes();
    assert_eq!(bytes.len(), 32);
    assert_eq!(&bytes[0..4], &[0xba, 0x78, 0x16, 0xbf]);
    assert_eq!(&bytes[28..32], &[0xf2, 0x00, 0x15, 0xad]);
    assert_eq!(hash::Hash::from_bytes(&bytes), Some(h));
    assert_eq!(hash::Hash::from_bytes(&bytes[0..31]), None);
}

#[test]
fn combine_hashes_the_two_byte_forms() {
    let a = hash::hash(b"left");
    let b = hash::hash(b"right");
    let mut both = a.bytes();
    both.extend_from_slice(&b.bytes());
    assert_eq!(hash::combine(&a, &b), hash::hash(&both));
    assert_ne!(hash::combine(&a, &b), hash::combine(&b, &a));
}

#[test]
fn zero_hash_is_all_zero_bytes() {
    assert_eq!(hash::Hash::zero().bytes(), vec![0u8; 32]);
}

#[test]
fn bytewise_order_of_hashes() {
    let zero = hash::Hash::zero();
    let mut one = hash::Hash::zero();
    one.w7 = 1;
    let mut high = hash::Hash::zero();
    high.w0 = 0x0100_0000;
    assert!(zero.precedes(&one));
    assert!(one.precedes(&high));
    assert!(!high.precedes(&one));
    assert!(!one.precedes(&one));
}

#[test]
fn crc32_check_value() {
    assert_eq!(crc32(b"123456789"), 0xCBF4_3926);
    assert_eq!(crc32(b""), 0);
    assert_eq!(crc32(b"a"), 0xE8B7_BE43);
}

#[test]
fn hex_digits_of_hash() {
    let h = hash::hash(b"abc");
    assert_eq!(
        String::from_utf8(h.hex_digits()).unwrap(),
        "ba7816bf8f01cfea414140de5dae2223b00361a396177a9cb410ff61f20015ad"
    );
    assert_eq!(hash::to_hex(&[0x00, 0x9a, 0xff]), b"009aff".to_vec());
    assert_eq!(hash::to_hex(&[]), Vec::<u8>::new());
}

#[test]
fn crc32_detects_every_single_byte_change() {
    let message = b"operation proof".to_vec();
    let sum = crc32(&message);
    for at in 0..message.len() {
        for delta in 1..=255u8 {
            let mut changed = message.clone();
            changed[at] = changed[at].wrapping_add(delta);
            assert_ne!(crc32(&changed), sum);
        }
    }
}
