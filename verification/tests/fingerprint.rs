use archiver::hashing::{fingerprint, hash_folded, same_hash};
use archiver::normalize::{lower_ascii_byte, to_ascii_lowercase};
use archiver::preimage::{encode, push_decimal, push_list};
use archiver::store::{AlreadyExists, ArchiveStore};
use archiver::BookSummary;

const TITLE_AUTHOR_DIGEST: [u8; 32] = [
    0x53, 0x21, 0x0b, 0xed, 0xc1, 0x65, 0x12, 0x3c, 0x8d, 0x55, 0x5e, 0x5a, 0x37, 0xba, 0x56, 0x57,
    0x59, 0x5d, 0x14, 0x77, 0x4d, 0xcb, 0x36, 0x3d, 0xb8, 0x21, 0x8a, 0xea, 0xe8, 0xbc, 0x12, 0xc1,
];

const EMPTY_DIGEST: [u8; 32] = [
    0xe5, 0x93, 0xd2, 0x42, 0xdf, 0x3e, 0x05, 0x14, 0x60, 0x0e, 0xb1, 0xf1, 0x71, 0xf4, 0x02, 0x50,
    0xf4, 0x1c, 0x32, 0x5c, 0x09, 0xfc, 0x00, 0x9e, 0x72, 0x13, 0xcd, 0xfd, 0x5e, 0x2f, 0xa0, 0x76,
];

#[test]
fn lower_ascii_byte_agrees_with_std_on_every_byte() {
    for b in 0..=255u8 {
        assert_eq!(lower_ascii_byte(b), b.to_ascii_lowercase());
    }
    assert_eq!(lower_ascii_byte(b'A'), b'a');
    assert_eq!(lower_ascii_byte(b'Z'), b'z');
    assert_eq!(lower_ascii_byte(b'@'), b'@');
    assert_eq!(lower_ascii_byte(b'['), b'[');
    assert_eq!(lower_ascii_byte(0xc4), 0xc4);
}

#[test]
fn to_ascii_lowercase_folds_letters_only() {
    let all: Vec<u8> = (0..=255u8).collect();
    assert_eq!(to_ascii_lowercase(&all), all.to_ascii_lowercase());
    assert_eq!(to_ascii_lowercase(&b"Hello, World! 123".to_vec()), b"hello, world! 123".to_vec());
    assert_eq!(to_ascii_lowercase(&Vec::new()), Vec::<u8>::new());
}

#[test]
fn to_ascii_lowercase_is_idempotent() {
    let once = to_ascii_lowercase(&b"MiXeD \xc4\xd6 Case".to_vec());
    assert_eq!(to_ascii_lowercase(&once), once);
}

#[test]
fn push_decimal_writes_numbers_without_leading_zeros() {
    for (b, text) in [(0u8, "0"), (9, "9"), (10, "10"), (99, "99"), (100, "100"), (101, "101"), (255, "255")] {
        let mut out = vec![b'x'];
        push_decimal(&mut out, b);
        assert_eq!(out, format!("x{}", text).into_bytes());
    }
    for b in 0..=255u8 {
        let mut out = Vec::new();
        push_decimal(&mut out, b);
        assert_eq!(out, format!("{}", b).into_bytes());
    }
}

#[test]
fn push_list_appends_a_bracketed_list() {
    let mut out = b"ab".to_vec();
    push_list(&mut out, &vec![1, 20, 255]);
    assert_eq!(out, b"ab[1, 20, 255]".to_vec());
    push_list(&mut out, &Vec::new());
    assert_eq!(out, b"ab[1, 20, 255][]".to_vec());
    push_list(&mut out, &vec![0]);
    assert_eq!(out, b"ab[1, 20, 255][][0]".to_vec());
}

#[test]
fn encode_writes_both_lists() {
    assert_eq!(
        encode(&b"title".to_vec(), &b"author".to_vec()),
        b"[116, 105, 116, 108, 101][97, 117, 116, 104, 111, 114]".to_vec()
    );
    assert_eq!(encode(&Vec::new(), &Vec::new()), b"[][]".to_vec());
}

#[test]
fn encode_agrees_with_debug_formatting() {
    let all: Vec<u8> = (0..=255u8).collect();
    let some: Vec<u8> = vec![0, 7, 10, 64, 100, 200];
    assert_eq!(encode(&all, &some), format!("{:?}{:?}", all, some).into_bytes());
    assert_eq!(encode(&some, &Vec::new()), format!("{:?}{:?}", some, Vec::<u8>::new()).into_bytes());
}

#[test]
fn encode_keeps_title_and_author_apart() {
    assert_ne!(encode(&b"ab".to_vec(), &b"c".to_vec()), encode(&b"a".to_vec(), &b"bc".to_vec()));
    assert_ne!(encode(&vec![1, 2], &Vec::new()), encode(&vec![12], &Vec::new()));
    assert_ne!(encode(&vec![1], &Vec::new()), encode(&Vec::new(), &vec![1]));
}

#[test]
fn fingerprint_is_the_blake2_digest_of_the_pre_image() {
    assert_eq!(fingerprint(&b"title".to_vec(), &b"author".to_vec()), TITLE_AUTHOR_DIGEST);
    assert_eq!(fingerprint(&Vec::new(), &Vec::new()), EMPTY_DIGEST);
    let data = format!("{:?}{:?}", b"title".to_vec(), b"author".to_vec());
    assert_eq!(
        fingerprint(&b"title".to_vec(), &b"author".to_vec()),
        sp_crypto_hashing::blake2_256(data.as_bytes())
    );
}

#[test]
fn fingerprint_ignores_ascii_case() {
    assert_eq!(fingerprint(&b"Title".to_vec(), &b"Author".to_vec()), TITLE_AUTHOR_DIGEST);
    assert_eq!(
        fingerprint(&b"tItLe".to_vec(), &b"AUTHOR".to_vec()),
        fingerprint(&b"TITLE".to_vec(), &b"author".to_vec())
    );
}

#[test]
fn fingerprint_does_not_fold_other_bytes() {
    assert_ne!(fingerprint(&vec![0xc4], &Vec::new()), fingerprint(&vec![0xe4], &Vec::new()));
    assert_ne!(fingerprint(&b"@".to_vec(), &Vec::new()), fingerprint(&b"`".to_vec(), &Vec::new()));
}

#[test]
fn fingerprint_keeps_title_and_author_apart() {
    assert_ne!(
        fingerprint(&b"ab".to_vec(), &b"c".to_vec()),
        fingerprint(&b"a".to_vec(), &b"bc".to_vec())
    );
}

#[test]
fn hash_folded_does_not_fold() {
    assert_eq!(hash_folded(&b"title".to_vec(), &b"author".to_vec()), TITLE_AUTHOR_DIGEST);
    assert_ne!(hash_folded(&b"Title".to_vec(), &b"author".to_vec()), TITLE_AUTHOR_DIGEST);
}

#[test]
fn same_hash_compares_every_byte() {
    let a = [1u8; 32];
    let mut b = [1u8; 32];
    assert!(same_hash(&a, &b));
    b[31] = 2;
    assert!(!same_hash(&a, &b));
    b[31] = 1;
    b[0] = 0;
    assert!(!same_hash(&a, &b));
}

#[test]
fn store_inserts_once_per_digest() {
    let mut store: ArchiveStore<u64, u64> = ArchiveStore::new();
    let first = BookSummary { title: vec![1], author: vec![2], url: vec![3], archiver: 4u64, timestamp: 5u64 };
    let other = BookSummary { title: vec![6], author: vec![7], url: vec![8], archiver: 9u64, timestamp: 10u64 };
    assert!(!store.contains_key(&[0u8; 32]));
    assert_eq!(store.get(&[0u8; 32]), None);
    assert_eq!(store.insert([0u8; 32], first.clone()), Ok(()));
    assert!(store.contains_key(&[0u8; 32]));
    assert_eq!(store.insert([0u8; 32], other.clone()), Err(AlreadyExists));
    assert_eq!(store.get(&[0u8; 32]), Some(first.clone()));
    assert_eq!(store.insert([1u8; 32], other.clone()), Ok(()));
    assert_eq!(store.get(&[0u8; 32]), Some(first));
    assert_eq!(store.get(&[1u8; 32]), Some(other));
    assert!(!store.contains_key(&[2u8; 32]));
}
