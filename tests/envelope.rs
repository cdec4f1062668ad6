use sequoia_openpgp::cert::{CertBuilder, CipherSuite};
use sequoia_openpgp::serialize::SerializeInto;
use sequoia_openpgp::serialize::stream::{Armorer, LiteralWriter, Message, Signer};
use sequoia_openpgp::types::KeyFlags;
use sequoia_openpgp::Cert;
use std::io::Write;
use yestary::envelope::{
    check_envelope, decode_payload, key_from_text, open_envelope, read_stamp, stamp_outcome,
    PacketView, StampError, VerificationKey,
};
use yestary::keys::KeyError;
use yestary::store::{FileState, Outcome, ReconciliationStore, VerifiedState};
use yestary::time::Timestamp;

const HELLO_HASH: &str = "2cf24dba5fb0a30e26e83b2ac5b9e29e1b161e5c1fa7425e73043362938b9824";
const PAYLOAD: &str =
    "{\"hash\":\"2cf24dba5fb0a30e26e83b2ac5b9e29e1b161e5c1fa7425e73043362938b9824\",\"stamp\":\"2024-01-02T03:04:05Z\"}";

fn signing_cert() -> Cert {
    let (cert, _) = CertBuilder::new()
        .set_cipher_suite(CipherSuite::Cv25519)
        .set_primary_key_flags(KeyFlags::empty().set_signing().set_certification())
        .generate()
        .unwrap();
    cert
}

fn sign(cert: &Cert, payload: &[u8]) -> Vec<u8> {
    let keypair = cert.primary_key().key().clone().parts_into_secret().unwrap().into_keypair().unwrap();
    let mut sink = vec![];
    {
        let m = Message::new(&mut sink);
        let m = Armorer::new(m).build().unwrap();
        let m = Signer::new(m, keypair).build().unwrap();
        let mut w = LiteralWriter::new(m).build().unwrap();
        w.write_all(payload).unwrap();
        w.finalize().unwrap();
    }
    sink
}

fn key_of(cert: &Cert) -> VerificationKey {
    key_from_text(String::from_utf8(cert.armored().to_vec().unwrap()).unwrap()).unwrap()
}

fn stamped_at() -> Timestamp {
    Timestamp { secs: 1704164645, nanos: 0 }
}

#[test]
fn valid_stamp_reads_and_verifies() {
    let cert = signing_cert();
    let bytes = sign(&cert, PAYLOAD.as_bytes());
    let env = open_envelope(&bytes).unwrap();
    assert_eq!(env.key_id, cert.keyid().as_bytes().to_vec());
    assert_eq!(env.body, PAYLOAD.as_bytes().to_vec());
    let s = read_stamp(&env, &key_of(&cert)).unwrap();
    assert_eq!(s.hash, HELLO_HASH);
    assert_eq!(s.timestamp, stamped_at());
    assert!(s.signature_valid);
    assert!(!env.signature.is_empty());
}

#[test]
fn tampered_payload_is_not_valid() {
    let cert = signing_cert();
    let bytes = sign(&cert, PAYLOAD.as_bytes());
    let mut env = open_envelope(&bytes).unwrap();
    env.body = PAYLOAD.replace("04:05Z", "04:06Z").into_bytes();
    let s = read_stamp(&env, &key_of(&cert)).unwrap();
    assert!(!s.signature_valid);
    env.body = PAYLOAD.as_bytes().to_vec();
    assert!(read_stamp(&env, &key_of(&cert)).unwrap().signature_valid);
}

#[test]
fn stamp_checked_with_other_key_is_not_valid() {
    let cert = signing_cert();
    let other = signing_cert();
    let bytes = sign(&cert, PAYLOAD.as_bytes());
    let env = open_envelope(&bytes).unwrap();
    let s = read_stamp(&env, &key_of(&other)).unwrap();
    assert!(!s.signature_valid);
    assert_eq!(s.hash, HELLO_HASH);
}

#[test]
fn invalid_stamp_end_to_end_gives_no() {
    let cert = signing_cert();
    let other = signing_cert();
    let bytes = sign(&cert, PAYLOAD.as_bytes());
    let env = open_envelope(&bytes).unwrap();
    let outcome = stamp_outcome(read_stamp(&env, &key_of(&other)));
    let mut store = ReconciliationStore::new();
    let d = store.add_file("hello".to_string()).unwrap();
    let s = store.add_file("hello.notary_stamp".to_string()).unwrap();
    store.submit(d, Outcome::DocumentHash(HELLO_HASH.to_string()));
    store.submit(s, outcome);
    assert_eq!(store.records().len(), 1);
    match &store.records()[0].state {
        FileState::Document { hash, verified } => {
            assert_eq!(hash, HELLO_HASH);
            assert_eq!(*verified, VerifiedState::No);
        },
        other => panic!("unexpected {:?}", other),
    }
}

#[test]
fn garbage_is_malformed_envelope() {
    assert_eq!(open_envelope(b"not a message").err(), Some(StampError::MalformedEnvelope));
    assert_eq!(open_envelope(b"").err(), Some(StampError::MalformedEnvelope));
}

#[test]
fn bad_payload_is_malformed_payload() {
    let cert = signing_cert();
    let bytes = sign(&cert, b"{\"hash\":\"ab\"}");
    let env = open_envelope(&bytes).unwrap();
    assert_eq!(read_stamp(&env, &key_of(&cert)).err(), Some(StampError::MalformedPayload));
    assert!(matches!(stamp_outcome(read_stamp(&env, &key_of(&cert))), Outcome::Failed));
}

#[test]
fn payload_decoding() {
    let p = decode_payload(PAYLOAD.as_bytes()).unwrap();
    assert_eq!(p.hash, HELLO_HASH);
    assert_eq!(p.stamp, stamped_at());
    let p = decode_payload(b"{\"stamp\":\"1970-01-01T00:00:01.5+01:00\",\"hash\":\"x\",\"extra\":3}").unwrap();
    assert_eq!(p.hash, "x");
    assert_eq!(p.stamp, Timestamp { secs: -3599, nanos: 500_000_000 });
    for bad in [
        &b"not json"[..],
        b"[1,2]",
        b"{\"hash\":1,\"stamp\":\"2024-01-02T03:04:05Z\"}",
        b"{\"hash\":\"x\"}",
        b"{\"hash\":\"x\",\"stamp\":\"yesterday\"}",
    ] {
        assert_eq!(decode_payload(bad).err(), Some(StampError::MalformedPayload));
    }
}

#[test]
fn envelope_structure_checks() {
    let cert = signing_cert();
    let id = cert.keyid().as_bytes().to_vec();
    let sig = || PacketView::Signature { issuers: vec![Some(id.clone())], packet: vec![1, 2, 3] };
    let ops = |i: Option<Vec<u8>>| PacketView::OnePassSig { issuer: i };
    let lit = || PacketView::Literal { body: b"body".to_vec() };

    let ok = check_envelope(vec![ops(Some(id.clone())), lit(), sig(), PacketView::Other]).unwrap();
    assert_eq!(ok.key_id, id);
    assert_eq!(ok.body, b"body".to_vec());
    assert_eq!(ok.signature, vec![1, 2, 3]);

    assert_eq!(check_envelope(vec![ops(Some(id.clone())), lit()]).err(), Some(StampError::MalformedEnvelope));
    assert_eq!(check_envelope(vec![]).err(), Some(StampError::MalformedEnvelope));
    assert_eq!(check_envelope(vec![lit(), ops(Some(id.clone())), sig()]).err(), Some(StampError::MalformedEnvelope));
    assert_eq!(check_envelope(vec![ops(None), lit(), sig()]).err(), Some(StampError::UnsupportedKeyId));
    assert_eq!(check_envelope(vec![ops(Some(id.clone())), PacketView::Other, sig()]).err(), Some(StampError::MalformedEnvelope));
    assert_eq!(check_envelope(vec![ops(Some(id.clone())), lit(), lit()]).err(), Some(StampError::MalformedEnvelope));
    assert_eq!(check_envelope(vec![ops(Some(vec![0u8; 8])), lit(), sig()]).err(), Some(StampError::MalformedEnvelope));
    let other_issuer = PacketView::Signature { issuers: vec![None, Some(vec![1u8; 8])], packet: vec![] };
    assert_eq!(check_envelope(vec![ops(Some(id.clone())), lit(), other_issuer]).err(), Some(StampError::MalformedEnvelope));
}

#[test]
fn key_text_parsing() {
    let cert = signing_cert();
    let text = String::from_utf8(cert.armored().to_vec().unwrap()).unwrap();
    assert!(key_from_text(text).is_ok());
    assert_eq!(key_from_text("no key here".to_string()).err(), Some(KeyError::Parse));
}
