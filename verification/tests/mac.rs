use ascon_prng::buffer::BlockBuffer;
use ascon_prng::mac::tags_equal;
use ascon_prng::{AsconMac, AsconMacCore, MacError};

const KEY: [u8; 16] = [0, 1, 2, 3, 4, 5, 6, 7, 8, 9, 10, 11, 12, 13, 14, 15];

fn counting(n: usize) -> Vec<u8> {
    (0..n).map(|i| i as u8).collect()
}

fn tag_of(key: &[u8; 16], msg: &[u8]) -> [u8; 16] {
    let mut mac = AsconMac::new(key);
    mac.update(msg);
    mac.finalize()
}

#[test]
fn round_trip() {
    let input = b"This is our great input sequence";

    let mut mac = AsconMac::new(b"0123456789abcdef");
    mac.update(input);
    let output = mac.finalize();

    assert_eq!(
        &output[..],
        &[55, 200, 95, 61, 117, 243, 181, 94, 60, 50, 44, 233, 243, 135, 52, 117]
    );

    let mut mac = AsconMac::new(b"0123456789abcdef");
    mac.update(input);
    mac.verify(&output).unwrap();
}

#[test]
fn mac_of_empty_message() {
    assert_eq!(
        tag_of(&KEY, &[]),
        [235, 26, 246, 136, 130, 93, 102, 191, 45, 83, 225, 53, 249, 50, 51, 21]
    );
    // No call of `update` at all is the empty message too.
    assert_eq!(AsconMac::new(&KEY).finalize(), tag_of(&KEY, &[]));
}

#[test]
fn mac_around_the_block_boundary() {
    assert_eq!(
        tag_of(&KEY, &counting(1)),
        [129, 243, 195, 83, 124, 85, 149, 170, 160, 213, 120, 11, 159, 136, 160, 67]
    );
    assert_eq!(
        tag_of(&KEY, &counting(31)),
        [182, 66, 79, 212, 195, 86, 239, 29, 81, 6, 130, 177, 8, 105, 56, 144]
    );
    assert_eq!(
        tag_of(&KEY, &counting(32)),
        [137, 37, 35, 214, 16, 40, 121, 156, 80, 125, 22, 68, 18, 111, 3, 239]
    );
    assert_eq!(
        tag_of(&KEY, &counting(33)),
        [251, 191, 164, 124, 147, 100, 73, 155, 149, 38, 244, 205, 13, 148, 249, 228]
    );
    assert_eq!(
        tag_of(&KEY, &counting(64)),
        [237, 197, 99, 197, 160, 187, 103, 97, 7, 63, 138, 111, 182, 35, 130, 52]
    );
    assert_eq!(
        tag_of(&KEY, &counting(100)),
        [19, 233, 54, 54, 142, 185, 222, 74, 104, 136, 226, 71, 42, 130, 219, 193]
    );
}

#[test]
fn mac_is_deterministic() {
    let msg = counting(77);
    assert_eq!(tag_of(&KEY, &msg), tag_of(&KEY, &msg));
}

#[test]
fn mac_does_not_depend_on_how_the_message_is_cut() {
    let msg = counting(100);
    let whole = tag_of(&KEY, &msg);
    for cut in 0..=msg.len() {
        let mut mac = AsconMac::new(&KEY);
        mac.update(&msg[..cut]);
        mac.update(&msg[cut..]);
        assert_eq!(mac.finalize(), whole, "cut at {}", cut);
    }
    let mut mac = AsconMac::new(&KEY);
    for byte in &msg {
        mac.update(&[*byte]);
    }
    assert_eq!(mac.finalize(), whole);
}

#[test]
fn block_aligned_messages_of_different_lengths_have_different_tags() {
    let short = tag_of(&KEY, &[0u8; 32]);
    let long = tag_of(&KEY, &[0u8; 64]);
    assert_eq!(
        short,
        [197, 221, 152, 54, 169, 108, 59, 220, 171, 215, 153, 240, 42, 97, 160, 233]
    );
    assert_eq!(
        long,
        [231, 20, 238, 93, 191, 221, 184, 172, 220, 114, 152, 27, 76, 118, 98, 76]
    );
    assert_ne!(short, long);
    assert_ne!(tag_of(&KEY, &[]), tag_of(&KEY, &[0u8; 32]));
    // A message that ends like padding is not taken for the shorter one.
    assert_ne!(tag_of(&KEY, &[1, 2, 3]), tag_of(&KEY, &[1, 2, 3, 0x80]));
    assert_ne!(tag_of(&KEY, &[1, 2, 3]), tag_of(&KEY, &[1, 2, 3, 0]));
}

#[test]
fn verify_accepts_the_tag_and_nothing_else() {
    let msg = b"attack at dawn";
    let tag = tag_of(&KEY, msg);

    let mut mac = AsconMac::new(&KEY);
    mac.update(msg);
    assert_eq!(mac.verify(&tag), Ok(()));

    for byte in 0..16 {
        for bit in 0..8 {
            let mut tampered = tag;
            tampered[byte] ^= 1 << bit;
            let mut mac = AsconMac::new(&KEY);
            mac.update(msg);
            assert_eq!(mac.verify(&tampered), Err(MacError), "byte {} bit {}", byte, bit);
        }
    }
}

#[test]
fn verify_rejects_another_message_or_key() {
    let tag = tag_of(&KEY, b"attack at dawn");

    let mut mac = AsconMac::new(&KEY);
    mac.update(b"attack at dusk");
    assert_eq!(mac.verify(&tag), Err(MacError));

    let mut other = KEY;
    other[15] ^= 1;
    let mut mac = AsconMac::new(&other);
    mac.update(b"attack at dawn");
    assert_eq!(mac.verify(&tag), Err(MacError));
}

#[test]
fn tags_equal_looks_at_every_byte() {
    let a = [7u8; 16];
    assert!(tags_equal(&a, &a));
    for i in 0..16 {
        let mut b = a;
        b[i] = 8;
        assert!(!tags_equal(&a, &b));
        assert!(!tags_equal(&b, &a));
    }
}

#[test]
fn core_and_buffer_make_the_same_tag() {
    let msg = counting(70);
    let blocks: Vec<[u8; 32]> = msg
        .chunks_exact(32)
        .map(|chunk| <[u8; 32]>::try_from(chunk).unwrap())
        .collect();
    assert_eq!(blocks.len(), 2);

    let mut core = AsconMacCore::new(&KEY);
    core.update_blocks(&blocks);
    let mut buffer = BlockBuffer::from_pending(&msg[64..]).unwrap();
    let mut out = [0u8; 16];
    core.finalize_fixed_core(&mut buffer, &mut out);

    assert_eq!(out, tag_of(&KEY, &msg));
    assert_eq!(buffer.get_pos(), 0);
}

#[test]
fn core_with_no_blocks_is_the_keyed_state() {
    let mut core = AsconMacCore::new(&KEY);
    core.update_blocks(&[]);
    let mut buffer = BlockBuffer::new();
    let mut out = [0u8; 16];
    core.finalize_fixed_core(&mut buffer, &mut out);
    assert_eq!(out, tag_of(&KEY, &[]));
}
