use ascon_prng::buffer::BlockBuffer;
use ascon_prng::padding::pad_block;
use ascon_prng::sponge::{compress, extract, init};
use ascon_prng::word::{load_be, load_le, reverse_bytes, store_be};

const KEY: [u8; 16] = [0, 1, 2, 3, 4, 5, 6, 7, 8, 9, 10, 11, 12, 13, 14, 15];

fn counting_block() -> [u8; 32] {
    let mut block = [0u8; 32];
    for (i, byte) in block.iter_mut().enumerate() {
        *byte = i as u8;
    }
    block
}

#[test]
fn words_are_read_in_both_byte_orders() {
    let bytes = [0xaa, 1, 2, 3, 4, 5, 6, 7, 8, 0xbb];
    assert_eq!(load_be(&bytes, 1), 0x0102030405060708);
    assert_eq!(load_le(&bytes, 1), 0x0807060504030201);
    assert_eq!(load_be(&bytes, 0), 0xaa01020304050607);
    assert_eq!(load_le(&bytes, 2), 0xbb08070605040302);
}

#[test]
fn words_are_written_most_significant_byte_first() {
    assert_eq!(store_be(0x0102030405060708), [1, 2, 3, 4, 5, 6, 7, 8]);
    assert_eq!(store_be(0), [0; 8]);
    assert_eq!(store_be(u64::MAX), [0xff; 8]);
    assert_eq!(store_be(0x8000000000000001), [0x80, 0, 0, 0, 0, 0, 0, 1]);
}

#[test]
fn bytes_and_words_round_trip() {
    for w in [0u64, 1, 0x0123456789abcdef, u64::MAX, 0xdeadbeef00000000] {
        assert_eq!(load_be(&store_be(w), 0), w);
        assert_eq!(reverse_bytes(reverse_bytes(w)), w);
        assert_eq!(reverse_bytes(w), w.swap_bytes());
        assert_eq!(reverse_bytes(w).to_le_bytes(), w.to_be_bytes());
    }
}

#[test]
fn init_permutes_the_keyed_words() {
    assert_eq!(
        init(0x80808c0000000000, &KEY),
        [
            0xd604a26797fd5756,
            0x03bbbd08a3867bfd,
            0xebffed9b2f132c99,
            0x426139564900e124,
            0x8ca75927b09f1caf
        ]
    );
    assert_eq!(
        init(0, &[0u8; 16]),
        [
            0x78ea7ae5cfebb108,
            0x9b9bfb8513b560f7,
            0x6937f83e03d11a50,
            0x3fe53f36f2c1178c,
            0x045d648e4def12c9
        ]
    );
}

#[test]
fn compress_folds_the_block_and_the_flag() {
    let start = init(0x80808c0000000000, &KEY);

    let mut inner = start;
    compress(&mut inner, &counting_block(), 0);
    assert_eq!(
        inner,
        [
            0xdbeca5a1c6d4e636,
            0x6c45941eb7b97dd7,
            0x10b225f49d54f834,
            0xb422364860c88ad8,
            0x908c7c3378150050
        ]
    );

    let mut last = start;
    compress(&mut last, &counting_block(), 1);
    assert_eq!(
        last,
        [
            0x729a677039f90340,
            0x39974a3408006765,
            0x75edde2d2e49b8a8,
            0x83280ec9893546d1,
            0xbfb46c704297544c
        ]
    );
}

#[test]
fn extract_reads_two_words_and_leaves_the_state() {
    let state = init(0x80808c0000000000, &KEY);
    let copy = state;
    assert_eq!(
        extract(&state),
        [214, 4, 162, 103, 151, 253, 87, 86, 3, 187, 189, 8, 163, 134, 123, 253]
    );
    assert_eq!(state, copy);
    assert_eq!(extract(&[0x0102030405060708, 0x090a0b0c0d0e0f10, 1, 2, 3]), [
        1, 2, 3, 4, 5, 6, 7, 8, 9, 10, 11, 12, 13, 14, 15, 16
    ]);
}

#[test]
fn pad_block_marks_the_end_and_fills_with_zeros() {
    let mut expected = [0u8; 32];
    expected[0] = 0x80;
    assert_eq!(pad_block(&[]), expected);

    let mut expected = [0u8; 32];
    expected[..3].copy_from_slice(&[1, 2, 3]);
    expected[3] = 0x80;
    assert_eq!(pad_block(&[1, 2, 3]), expected);

    let mut expected = [0xffu8; 32];
    expected[31] = 0x80;
    assert_eq!(pad_block(&[0xff; 31]), expected);
}

#[test]
fn buffer_holds_fewer_bytes_than_a_block() {
    assert!(BlockBuffer::from_pending(&[0u8; 31]).is_some());
    assert!(BlockBuffer::from_pending(&[0u8; 32]).is_none());
    assert!(BlockBuffer::from_pending(&[0u8; 33]).is_none());
    assert_eq!(BlockBuffer::new().get_pos(), 0);
    assert_eq!(BlockBuffer::from_pending(&[9, 9, 9]).unwrap().get_pos(), 3);
}

#[test]
fn buffer_hands_out_a_block_when_it_is_full() {
    let mut buffer = BlockBuffer::new();
    for i in 0..31u8 {
        assert_eq!(buffer.push(i), None);
        assert_eq!(buffer.get_pos(), i as usize + 1);
    }
    assert_eq!(buffer.push(31), Some(counting_block()));
    assert_eq!(buffer.get_pos(), 0);
    assert_eq!(buffer.push(7), None);
    assert_eq!(buffer.get_pos(), 1);
}

#[test]
fn buffer_pads_what_is_pending() {
    let mut buffer = BlockBuffer::from_pending(&[1, 2, 3]).unwrap();
    assert_eq!(buffer.digest_pad(0x80), pad_block(&[1, 2, 3]));
    assert_eq!(buffer.get_pos(), 0);
    // Empty again: the next block is the padding of nothing.
    let mut expected = [0u8; 32];
    expected[0] = 0x01;
    assert_eq!(buffer.digest_pad(0x01), expected);

    let mut buffer = BlockBuffer::new();
    for _ in 0..40 {
        buffer.push(0xee);
    }
    let mut expected = [0u8; 32];
    expected[..8].copy_from_slice(&[0xee; 8]);
    expected[8] = 0x80;
    assert_eq!(buffer.digest_pad(0x80), expected);
}
