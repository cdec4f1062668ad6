use yestary::store::{
    open_file, Change, FileState, Outcome, ReconciliationStore, StampRecord, VerifiedState,
};
use yestary::ingest::hash_chunks;
use yestary::names::FileKind;
use yestary::time::Timestamp;

const HELLO_HASH: &str = "2cf24dba5fb0a30e26e83b2ac5b9e29e1b161e5c1fa7425e73043362938b9824";

fn t() -> Timestamp {
    Timestamp { secs: 1704164645, nanos: 0 }
}

fn stamp(hash: &str, valid: bool) -> Outcome {
    Outcome::StampResult(StampRecord { hash: hash.to_string(), timestamp: t(), signature_valid: valid })
}

fn doc(hash: &str) -> Outcome {
    Outcome::DocumentHash(hash.to_string())
}

fn started(store: &mut ReconciliationStore, name: &str, token: u64) -> u64 {
    let (id, _) = open_file(store, name.to_string(), token).unwrap();
    id
}

fn state_of(store: &ReconciliationStore, id: u64) -> Option<&FileState> {
    store.records().iter().find(|r| r.id == id).map(|r| &r.state)
}

fn doc_verified(store: &ReconciliationStore, id: u64) -> Option<(String, VerifiedState)> {
    match state_of(store, id) {
        Some(FileState::Document { hash, verified }) => Some((hash.clone(), *verified)),
        _ => None,
    }
}

#[test]
fn document_then_valid_stamp_resolves_yes() {
    let mut store = ReconciliationStore::new();
    let d = started(&mut store, "hello.txt", 1);
    let s = started(&mut store, "hello.txt.notary_stamp", 2);
    let h = hash_chunks(&vec![b"hello".to_vec()]);
    assert_eq!(h, HELLO_HASH);
    assert!(store.submit(d, Outcome::DocumentHash(h)));
    assert_eq!(doc_verified(&store, d), Some((HELLO_HASH.to_string(), VerifiedState::Unknown)));
    assert!(store.submit(s, stamp(HELLO_HASH, true)));
    assert_eq!(doc_verified(&store, d), Some((HELLO_HASH.to_string(), VerifiedState::Yes(t()))));
    assert!(state_of(&store, s).is_none());
    assert_eq!(store.records().len(), 1);
}

#[test]
fn stamp_before_document_waits() {
    let mut store = ReconciliationStore::new();
    let s = started(&mut store, "x.notary_stamp", 1);
    assert!(store.submit(s, stamp(HELLO_HASH, true)));
    match state_of(&store, s) {
        Some(FileState::Stamp(r)) => {
            assert_eq!(r.hash, HELLO_HASH);
            assert_eq!(r.timestamp, t());
            assert!(r.signature_valid);
        },
        other => panic!("expected a stamp, got {:?}", other),
    }
    let other = started(&mut store, "other.txt", 2);
    assert!(store.submit(other, doc("00ff")));
    assert!(matches!(state_of(&store, s), Some(FileState::Stamp(_))));
    let d = started(&mut store, "hello.txt", 3);
    assert!(store.submit(d, doc(HELLO_HASH)));
    assert_eq!(doc_verified(&store, d), Some((HELLO_HASH.to_string(), VerifiedState::Yes(t()))));
    assert!(state_of(&store, s).is_none());
    assert_eq!(doc_verified(&store, other), Some(("00ff".to_string(), VerifiedState::Unknown)));
}

#[test]
fn invalid_stamp_resolves_no() {
    let mut store = ReconciliationStore::new();
    let d = started(&mut store, "hello.txt", 1);
    let s = started(&mut store, "hello.txt.notary_stamp", 2);
    assert!(store.submit(d, doc(HELLO_HASH)));
    assert!(store.submit(s, stamp(HELLO_HASH, false)));
    assert_eq!(doc_verified(&store, d), Some((HELLO_HASH.to_string(), VerifiedState::No)));
    assert!(state_of(&store, s).is_none());
}

#[test]
fn invalid_stamp_first_resolves_no() {
    let mut store = ReconciliationStore::new();
    let s = started(&mut store, "hello.txt.notary_stamp", 1);
    let d = started(&mut store, "hello.txt", 2);
    assert!(store.submit(s, stamp(HELLO_HASH, false)));
    assert!(store.submit(d, doc(HELLO_HASH)));
    assert_eq!(doc_verified(&store, d), Some((HELLO_HASH.to_string(), VerifiedState::No)));
    assert!(state_of(&store, s).is_none());
}

#[test]
fn arrival_order_gives_same_result() {
    let mut a = ReconciliationStore::new();
    let ad = started(&mut a, "d", 1);
    let as_ = started(&mut a, "s.notary_stamp", 2);
    a.submit(ad, doc(HELLO_HASH));
    a.submit(as_, stamp(HELLO_HASH, true));

    let mut b = ReconciliationStore::new();
    let bd = started(&mut b, "d", 1);
    let bs = started(&mut b, "s.notary_stamp", 2);
    b.submit(bs, stamp(HELLO_HASH, true));
    b.submit(bd, doc(HELLO_HASH));

    assert_eq!(doc_verified(&a, ad), doc_verified(&b, bd));
    assert_eq!(a.records().len(), 1);
    assert_eq!(b.records().len(), 1);
}

#[test]
fn duplicate_documents_first_match() {
    let mut store = ReconciliationStore::new();
    let d1 = started(&mut store, "a", 1);
    let d2 = started(&mut store, "b", 2);
    store.submit(d1, doc(HELLO_HASH));
    store.submit(d2, doc(HELLO_HASH));
    let s1 = started(&mut store, "s1.notary_stamp", 3);
    store.submit(s1, stamp(HELLO_HASH, true));
    assert_eq!(doc_verified(&store, d1), Some((HELLO_HASH.to_string(), VerifiedState::Yes(t()))));
    assert_eq!(doc_verified(&store, d2), Some((HELLO_HASH.to_string(), VerifiedState::Unknown)));
    let s2 = started(&mut store, "s2.notary_stamp", 4);
    store.submit(s2, stamp(HELLO_HASH, false));
    assert_eq!(doc_verified(&store, d2), Some((HELLO_HASH.to_string(), VerifiedState::No)));
    assert_eq!(store.records().len(), 2);
}

#[test]
fn resolved_document_does_not_take_second_stamp() {
    let mut store = ReconciliationStore::new();
    let d = started(&mut store, "a", 1);
    store.submit(d, doc(HELLO_HASH));
    let s1 = started(&mut store, "s1.notary_stamp", 2);
    store.submit(s1, stamp(HELLO_HASH, true));
    let s2 = started(&mut store, "s2.notary_stamp", 3);
    store.submit(s2, stamp(HELLO_HASH, false));
    assert_eq!(doc_verified(&store, d), Some((HELLO_HASH.to_string(), VerifiedState::Yes(t()))));
    assert!(matches!(state_of(&store, s2), Some(FileState::Stamp(_))));
}

#[test]
fn failure_marks_error_only_that_file() {
    let mut store = ReconciliationStore::new();
    let a = started(&mut store, "a", 1);
    let b = started(&mut store, "b", 2);
    assert!(store.submit(a, Outcome::Failed));
    assert!(matches!(state_of(&store, a), Some(FileState::Error)));
    assert!(matches!(state_of(&store, b), Some(FileState::Pending(2))));
    assert!(!store.submit(a, doc(HELLO_HASH)));
    assert!(matches!(state_of(&store, a), Some(FileState::Error)));
}

#[test]
fn removed_pending_record_is_cancelled_and_inert() {
    let mut store = ReconciliationStore::new();
    let a = started(&mut store, "a", 7);
    let b = started(&mut store, "b", 8);
    store.take_changes();
    let removed = store.remove(a).unwrap();
    assert!(matches!(removed.state, FileState::Pending(7)));
    assert_eq!(
        store.take_changes(),
        vec![Change::Cancel { id: a, token: 7 }, Change::Remove { index: 0, id: a }]
    );
    assert!(!store.submit(a, doc(HELLO_HASH)));
    assert_eq!(store.records().len(), 1);
    assert!(store.take_changes().is_empty());
    assert!(store.remove(a).is_none());
    assert!(matches!(state_of(&store, b), Some(FileState::Pending(8))));
}

#[test]
fn removing_terminal_record_needs_no_cancel() {
    let mut store = ReconciliationStore::new();
    let a = started(&mut store, "a", 7);
    store.submit(a, doc(HELLO_HASH));
    store.take_changes();
    store.remove(a);
    assert_eq!(store.take_changes(), vec![Change::Remove { index: 0, id: a }]);
}

#[test]
fn change_feed_of_a_match() {
    let mut store = ReconciliationStore::new();
    let s = started(&mut store, "s.notary_stamp", 1);
    let d = started(&mut store, "d", 2);
    assert_eq!(
        store.take_changes(),
        vec![
            Change::Insert { index: 0, id: s },
            Change::Update { index: 0, id: s },
            Change::Insert { index: 1, id: d },
            Change::Update { index: 1, id: d },
        ]
    );
    store.submit(s, stamp(HELLO_HASH, true));
    store.submit(d, doc(HELLO_HASH));
    assert_eq!(
        store.take_changes(),
        vec![
            Change::Update { index: 0, id: s },
            Change::Update { index: 1, id: d },
            Change::Remove { index: 0, id: s },
        ]
    );
}

#[test]
fn identifiers_are_not_reused() {
    let mut store = ReconciliationStore::new();
    let a = started(&mut store, "a", 1);
    store.remove(a);
    let b = started(&mut store, "b", 2);
    assert_ne!(a, b);
    assert!(store.submit(b, doc("ab")));
    assert!(!store.submit(a, doc("cd")));
}

#[test]
fn begin_only_moves_init() {
    let mut store = ReconciliationStore::new();
    let id = store.add_file("a".to_string()).unwrap();
    assert!(matches!(state_of(&store, id), Some(FileState::Init)));
    assert!(store.submit(id, doc("ab")));
    let mut fresh = ReconciliationStore::new();
    let id2 = fresh.add_file("a".to_string()).unwrap();
    assert!(fresh.begin(id2, 5));
    assert!(!fresh.begin(id2, 6));
    assert!(matches!(state_of(&fresh, id2), Some(FileState::Pending(5))));
    assert!(!fresh.begin(99, 1));
}

#[test]
fn open_file_classifies_by_name() {
    let mut store = ReconciliationStore::new();
    let (a, ka) = open_file(&mut store, "doc.pdf".to_string(), 1).unwrap();
    let (b, kb) = open_file(&mut store, "doc.pdf.notary_stamp".to_string(), 2).unwrap();
    assert_eq!(ka, FileKind::Document);
    assert_eq!(kb, FileKind::Stamp);
    assert_eq!((a, b), (0, 1));
}

#[test]
fn file_states_compare_by_content() {
    assert_eq!(FileState::Init, FileState::Init);
    assert_ne!(FileState::Pending(3), FileState::Pending(3));
    assert_ne!(FileState::Pending(3), FileState::Pending(4));
    let p = FileState::Pending(5);
    assert!(p != p);
    assert_ne!(FileState::Init, FileState::Error);
    let d = |h: &str, v| FileState::Document { hash: h.to_string(), verified: v };
    assert_eq!(d("ab", VerifiedState::No), d("ab", VerifiedState::No));
    assert_ne!(d("ab", VerifiedState::No), d("ab", VerifiedState::Unknown));
    assert_ne!(d("ab", VerifiedState::No), d("cd", VerifiedState::No));
    let st = |v| FileState::Stamp(StampRecord { hash: "ab".to_string(), timestamp: t(), signature_valid: v });
    assert_eq!(st(true), st(true));
    assert_ne!(st(true), st(false));
}
