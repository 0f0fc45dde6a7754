use pir_bench::bytes::{
    bytes_equal, checksum_bytes, read_hash, read_le16, read_le32, touch_pages, xor_into,
    zero_hash_value,
};

#[test]
fn checksum_of_known_strings() {
    assert_eq!(checksum_bytes(b""), 0xcbf29ce484222325);
    assert_eq!(checksum_bytes(b"a"), 0xaf63dc4c8601ec8c);
    assert_eq!(checksum_bytes(b"foobar"), 0x85944171f73967e8);
    assert_eq!(checksum_bytes(&[0, 1, 2, 3]), 0x4475327f98e05411);
}

#[test]
fn xor_of_equal_lengths() {
    let mut dst = vec![0x0f, 0xf0, 0x55];
    xor_into(&mut dst, &[0xff, 0xff, 0x55]);
    assert_eq!(dst, vec![0xf0, 0x0f, 0x00]);
}

#[test]
fn xor_of_different_lengths() {
    let mut dst = vec![1, 2, 3];
    xor_into(&mut dst, &[1]);
    assert_eq!(dst, vec![0, 2, 3]);
    let mut short = vec![1];
    xor_into(&mut short, &[3, 4, 5]);
    assert_eq!(short, vec![2]);
}

#[test]
fn xor_twice_restores() {
    let a: Vec<u8> = (0..100).map(|i| (i * 7 % 256) as u8).collect();
    let b: Vec<u8> = (0..100).map(|i| (i * 13 % 256) as u8).collect();
    let mut x = a.clone();
    xor_into(&mut x, &b);
    assert_ne!(x, a);
    xor_into(&mut x, &b);
    assert_eq!(x, a);
}

#[test]
fn xor_commutes() {
    let mut x = vec![1, 2, 3];
    let mut y = vec![200, 100, 50];
    let (a, b) = (x.clone(), y.clone());
    xor_into(&mut x, &b);
    xor_into(&mut y, &a);
    assert_eq!(x, y);
}

#[test]
fn one_byte_per_page_is_touched() {
    assert_eq!(touch_pages(&[]), 0);
    assert_eq!(touch_pages(&[7, 1, 2]), 7);
    let mut data = vec![0u8; 4096 * 2 + 1];
    data[0] = 1;
    data[1] = 0xff;
    data[4096] = 2;
    data[8192] = 4;
    assert_eq!(touch_pages(&data), 7);
    assert_eq!(touch_pages(&data[..8192]), 3);
    assert_eq!(touch_pages(&data[..4096]), 1);
}

#[test]
fn little_endian_numbers() {
    let data = [9, 0x34, 0x12, 0x78, 0x56, 0xff];
    assert_eq!(read_le16(&data, 1), 0x1234);
    assert_eq!(read_le32(&data, 1), 0x5678_1234);
    assert_eq!(read_le32(&[0xff, 0xff, 0xff, 0xff], 0), u32::MAX as usize);
}

#[test]
fn hashes_are_read() {
    let data: Vec<u8> = (0..40).collect();
    assert_eq!(read_hash(&data, 8).to_vec(), data[8..40].to_vec());
    assert_eq!(zero_hash_value(), [0u8; 32]);
}

#[test]
fn byte_strings_are_compared() {
    assert!(bytes_equal(&[], &[]));
    assert!(bytes_equal(&[1, 2], &[1, 2]));
    assert!(!bytes_equal(&[1, 2], &[1, 3]));
    assert!(!bytes_equal(&[1, 2], &[1, 2, 3]));
}
