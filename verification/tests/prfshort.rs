use ascon_prng::{ascon_prf_short, ascon_prf_short_128};

const KEY: [u8; 16] = [0, 1, 2, 3, 4, 5, 6, 7, 8, 9, 10, 11, 12, 13, 14, 15];

fn counting(n: usize) -> Vec<u8> {
    (0..n).map(|i| i as u8).collect()
}

fn short(msg: &[u8], t: usize) -> Vec<u8> {
    let mut out = vec![0u8; t];
    ascon_prf_short(KEY, msg, &mut out);
    out
}

#[test]
fn short_known_outputs() {
    assert_eq!(
        short(&[], 16),
        [102, 141, 60, 90, 171, 196, 247, 251, 72, 214, 184, 24, 162, 52, 73, 40]
    );
    assert_eq!(
        short(&counting(8), 16),
        [24, 134, 101, 57, 189, 155, 223, 110, 179, 87, 231, 103, 118, 251, 26, 128]
    );
    assert_eq!(
        short(&counting(16), 16),
        [212, 44, 100, 2, 253, 205, 17, 110, 121, 169, 47, 170, 170, 224, 77, 117]
    );
    assert_eq!(short(&counting(16), 8), [123, 95, 249, 223, 126, 97, 54, 224]);
    assert_eq!(short(&counting(3), 5), [59, 80, 7, 218, 116]);
}

#[test]
fn short_128_is_the_full_length_case() {
    let data: [u8; 16] = counting(16).try_into().unwrap();
    assert_eq!(
        ascon_prf_short_128(KEY, &data),
        [212, 44, 100, 2, 253, 205, 17, 110, 121, 169, 47, 170, 170, 224, 77, 117]
    );
    assert_eq!(&ascon_prf_short_128(KEY, &data)[..], &short(&data, 16)[..]);
}

#[test]
fn short_is_deterministic() {
    assert_eq!(short(b"again", 16), short(b"again", 16));
    let data = [7u8; 16];
    assert_eq!(ascon_prf_short_128(KEY, &data), ascon_prf_short_128(KEY, &data));
}

#[test]
fn short_with_no_output_writes_nothing() {
    assert_eq!(short(&[], 0), Vec::<u8>::new());
    assert_eq!(short(&counting(16), 0), Vec::<u8>::new());
}

#[test]
fn the_lengths_are_part_of_the_input() {
    // A message is not the same as the message filled up with zeros.
    assert_ne!(short(&[1, 2, 3], 16), short(&[1, 2, 3, 0], 16));
    assert_ne!(short(&[], 16), short(&[0], 16));
    assert_ne!(short(&[0; 15], 16), short(&[0; 16], 16));
    // A shorter tag is not a prefix of a longer one.
    assert_ne!(&short(&counting(16), 16)[..8], &short(&counting(16), 8)[..]);
}

#[test]
fn short_depends_on_the_key() {
    let mut other = KEY;
    other[0] ^= 0x80;
    let mut a = [0u8; 16];
    let mut b = [0u8; 16];
    ascon_prf_short(KEY, b"same", &mut a);
    ascon_prf_short(other, b"same", &mut b);
    assert_ne!(a, b);
}

#[test]
fn short_is_set_apart_from_the_prf() {
    let mut prf = ascon_prng::AsconPrf::init(KEY);
    prf.feed(&counting(16));
    let mut long = [0u8; 16];
    prf.fetch(&mut long);
    assert_ne!(&long[..], &short(&counting(16), 16)[..]);
}
