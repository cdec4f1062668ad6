use yestary::ingest::{hash_chunks, HashIngester};
use yestary::names::{classify_file, FileKind, STAMP_SUFFIX};

const HELLO_HASH: &str = "2cf24dba5fb0a30e26e83b2ac5b9e29e1b161e5c1fa7425e73043362938b9824";
const EMPTY_HASH: &str = "e3b0c44298fc1c149afbf4c8996fb92427ae41e4649b934ca495991b7852b855";

#[test]
fn hash_of_hello() {
    let mut h = HashIngester::new();
    h.update(b"hello");
    assert_eq!(h.finish(), HELLO_HASH);
}

#[test]
fn hash_does_not_depend_on_chunking() {
    let whole = hash_chunks(&vec![b"hello".to_vec()]);
    let split = hash_chunks(&vec![b"he".to_vec(), vec![], b"l".to_vec(), b"lo".to_vec()]);
    assert_eq!(whole, HELLO_HASH);
    assert_eq!(split, HELLO_HASH);
}

#[test]
fn hash_of_nothing() {
    assert_eq!(hash_chunks(&vec![]), EMPTY_HASH);
    assert_eq!(HashIngester::new().finish(), EMPTY_HASH);
}

#[test]
fn hash_is_deterministic() {
    let data: Vec<u8> = (0..=255u8).cycle().take(5000).collect();
    let a = hash_chunks(&vec![data.clone()]);
    let b = hash_chunks(&data.chunks(7).map(|c| c.to_vec()).collect());
    assert_eq!(a, b);
    assert_eq!(a.len(), 64);
    assert!(a.chars().all(|c| c.is_ascii_digit() || ('a'..='f').contains(&c)));
}

#[test]
fn stamp_names() {
    assert_eq!(classify_file("a.notary_stamp"), FileKind::Stamp);
    assert_eq!(classify_file("a.pdf.notary_stamp"), FileKind::Stamp);
    assert_eq!(classify_file("notary_stamp"), FileKind::Stamp);
    assert_eq!(classify_file(STAMP_SUFFIX), FileKind::Stamp);
}

#[test]
fn document_names() {
    assert_eq!(classify_file("a.txt"), FileKind::Document);
    assert_eq!(classify_file("a.notary_stamp.txt"), FileKind::Document);
    assert_eq!(classify_file("a.notary_stam"), FileKind::Document);
    assert_eq!(classify_file("a.xnotary_stamp"), FileKind::Document);
    assert_eq!(classify_file(""), FileKind::Document);
    assert_eq!(classify_file("a."), FileKind::Document);
    assert_eq!(classify_file("é.notary_stamp"), FileKind::Stamp);
}
