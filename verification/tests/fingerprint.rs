use subfinder::error::Error;
use subfinder::fingerprint::{create_hash, tail_offset, to_hex16, HASH_BLK_SIZE};

fn window(first_bytes: &[u8]) -> Vec<u8> {
    let mut bytes = vec![0u8; 65536];
    bytes[..first_bytes.len()].copy_from_slice(first_bytes);
    bytes
}

#[test]
fn file_of_one_window_is_too_small() {
    let w = window(&[]);
    assert_eq!(create_hash(&w, &w, 65536), Err(Error::InputTooSmall));
    assert_eq!(create_hash(&w, &w, 0), Err(Error::InputTooSmall));
    assert_eq!(create_hash(&[], &[], 1), Err(Error::InputTooSmall));
    assert_eq!(tail_offset(HASH_BLK_SIZE), Err(Error::InputTooSmall));
}

#[test]
fn smallest_accepted_file() {
    let w = window(&[]);
    assert_eq!(create_hash(&w, &w, 65537), Ok("0000000000010001".to_string()));
    assert_eq!(tail_offset(65537), Ok(1));
}

#[test]
fn short_window_is_an_io_error() {
    let w = window(&[]);
    assert_eq!(create_hash(&w[..65535], &w, 200_000), Err(Error::IOError));
    assert_eq!(create_hash(&w, &w[..8], 200_000), Err(Error::IOError));
}

#[test]
fn empty_windows_give_the_size() {
    let w = window(&[]);
    assert_eq!(create_hash(&w, &w, 131072), Ok("0000000000020000".to_string()));
}

#[test]
fn words_are_little_endian() {
    let zero = window(&[]);
    let head = window(&[0x56, 0x07, 0x1e, 0x2c, 0x9f, 0x3d, 0x8a, 0x4b]);
    assert_eq!(create_hash(&head, &zero, 65537), Ok("4b8a3d9f2c1f0757".to_string()));
    let second = window(&[0, 1, 0, 0, 0, 0, 0, 0, 2]);
    assert_eq!(create_hash(&zero, &second, 65537), Ok("0000000000010103".to_string()));
}

#[test]
fn every_word_of_both_windows_counts() {
    let ones = vec![1u8; 65536];
    let word: u64 = 0x0101_0101_0101_0101;
    let expected = 100_000u64.wrapping_add(word.wrapping_mul(16384));
    assert_eq!(create_hash(&ones, &ones, 100_000), Ok(format!("{:016x}", expected)));
}

#[test]
fn sum_wraps_round() {
    let zero = window(&[]);
    let head = window(&[2]);
    assert_eq!(create_hash(&head, &zero, u64::MAX), Ok("0000000000000001".to_string()));
}

#[test]
fn fingerprint_is_repeatable_and_sixteen_lowercase_hex_digits() {
    let head = window(&[0xff, 0xab, 0xcd, 0xef, 0x12]);
    let tail = window(&[9, 8, 7, 6, 5, 4, 3, 2, 1]);
    let first = create_hash(&head, &tail, 1_000_000).unwrap();
    let second = create_hash(&head, &tail, 1_000_000).unwrap();
    assert_eq!(first, second);
    assert_eq!(first.len(), 16);
    assert!(first.chars().all(|c| c.is_ascii_digit() || ('a'..='f').contains(&c)));
}

#[test]
fn another_size_gives_another_fingerprint() {
    let head = window(&[1, 2, 3]);
    let tail = window(&[4, 5, 6]);
    assert_ne!(create_hash(&head, &tail, 70_000), create_hash(&head, &tail, 70_001));
}

#[test]
fn hex_is_padded_with_zeros() {
    assert_eq!(to_hex16(0), "0000000000000000");
    assert_eq!(to_hex16(0xabc), "0000000000000abc");
    assert_eq!(to_hex16(u64::MAX), "ffffffffffffffff");
    assert_eq!(to_hex16(0x4b8a3d9f2c1e0756), "4b8a3d9f2c1e0756");
}
