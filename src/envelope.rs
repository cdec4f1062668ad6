//! Signed stamps: the envelope that carries a stamp, its payload, and the
//! check of its signature.
//!
//! An envelope is an armored OpenPGP message of three packets: a one-pass
//! signature announcement, the literal payload, and the signature. The
//! payload is a JSON object `{"hash": <hex digest>, "stamp": <RFC 3339 time>}`.
//! A signature that fails to verify is no error: the stamp is still read, and
//! marked as not valid.
use crate::keys::{same_bytes, KeyError};
use crate::store::{Outcome, OutcomeModel, StampRecord};
use crate::time::Timestamp;
use sequoia_openpgp::parse::Parse;
use sequoia_openpgp::serialize::SerializeInto;
use sequoia_openpgp::{KeyID, Packet};
use std::str::FromStr;
use vstd::prelude::*;

verus! {

/// Why a stamp file could not be read.
#[derive(Clone, Copy, Debug, PartialEq, Eq, Structural)]
pub enum StampError {
    /// The stamp file could not be read.
    Read,
    /// The bytes are not an announcement, a literal and a signature, in that
    /// order, by one key.
    MalformedEnvelope,
    /// The announcement names its key in a form other than an 8-byte key ID.
    UnsupportedKeyId,
    /// The payload is not a JSON object with a string `hash` and an RFC 3339
    /// `stamp`.
    MalformedPayload,
    /// The key that signed the stamp could not be had.
    Key(KeyError),
}

/// A top-level packet of a message, as far as stamps need it.
pub enum PacketView {
    /// A one-pass signature announcement, with its issuer's 8-byte key ID
    /// where it has one.
    OnePassSig { issuer: Option<Vec<u8>> },
    /// Literal data.
    Literal { body: Vec<u8> },
    /// A signature, with the key IDs that its issuer subpackets name, and
    /// the packet itself, serialized.
    Signature { issuers: Vec<Option<Vec<u8>>>, packet: Vec<u8> },
    /// Any other packet.
    Other,
}

/// A packet as a mathematical value.
pub enum PacketModel {
    OnePassSig { issuer: Option<Seq<u8>> },
    Literal { body: Seq<u8> },
    Signature { issuers: Seq<Option<Seq<u8>>>, packet: Seq<u8> },
    Other,
}

/// The bytes of `o`, where it holds any.
pub open spec fn opt_bytes(o: Option<Vec<u8>>) -> Option<Seq<u8>> {
    match o {
        Some(v) => Some(v@),
        None => None,
    }
}

/// The models of the key IDs that a signature names.
pub open spec fn issuer_models(v: Seq<Option<Vec<u8>>>) -> Seq<Option<Seq<u8>>> {
    v.map_values(|o: Option<Vec<u8>>| opt_bytes(o))
}

impl View for PacketView {
    type V = PacketModel;

    open spec fn view(&self) -> PacketModel {
        match self {
            PacketView::OnePassSig { issuer } => PacketModel::OnePassSig { issuer: opt_bytes(*issuer) },
            PacketView::Literal { body } => PacketModel::Literal { body: body@ },
            PacketView::Signature { issuers, packet } => PacketModel::Signature {
                issuers: issuer_models(issuers@),
                packet: packet@,
            },
            PacketView::Other => PacketModel::Other,
        }
    }
}

/// The models of a sequence of packets.
pub open spec fn models(ps: Seq<PacketView>) -> Seq<PacketModel> {
    ps.map_values(|p: PacketView| p@)
}

/// The top-level packets of the OpenPGP message in `bytes`, or `None` where
/// `bytes` is not one.
pub uninterp spec fn packets_of(bytes: Seq<u8>) -> Option<Seq<PacketModel>>;

/// Relies on sequoia's `Message::from_bytes` (armored or binary input, checked
/// against the message grammar) and on reading its top-level packets in
/// order with `children`, the issuer of an announcement with `issuer`, a
/// literal's data with `body`, and a signature's issuers with `issuers`;
/// each signature packet is serialized again with `SerializeInto::to_vec`.
#[verifier::external_body]
fn read_packets(bytes: &[u8]) -> (r: Option<Vec<PacketView>>)
    ensures
        match r {
            Some(ps) => packets_of(bytes@) == Some(models(ps@)),
            None => packets_of(bytes@) is None,
        },
{
    let m = sequoia_openpgp::Message::from_bytes(bytes).ok()?;
    let id = |k: &KeyID| match k { KeyID::V4(b) => Some(b.to_vec()), _ => None };
    Some(m.children().map(|p| match p {
        Packet::OnePassSig(o) => PacketView::OnePassSig { issuer: id(o.issuer()) },
        Packet::Literal(l) => PacketView::Literal { body: l.body().to_vec() },
        Packet::Signature(s) => PacketView::Signature {
            issuers: s.issuers().map(id).collect(),
            packet: Packet::Signature(s.clone()).to_vec().unwrap_or_default(),
        },
        _ => PacketView::Other,
    }).collect())
}

/// An envelope whose structure has been checked.
pub struct Envelope {
    /// The 8-byte key ID that the announcement names.
    pub key_id: Vec<u8>,
    /// The literal payload, as signed.
    pub body: Vec<u8>,
    /// The trailing signature packet, serialized.
    pub signature: Vec<u8>,
}

/// An envelope as a mathematical value.
pub struct EnvelopeModel {
    pub key_id: Seq<u8>,
    pub body: Seq<u8>,
    pub signature: Seq<u8>,
}

impl View for Envelope {
    type V = EnvelopeModel;

    open spec fn view(&self) -> EnvelopeModel {
        EnvelopeModel { key_id: self.key_id@, body: self.body@, signature: self.signature@ }
    }
}

/// What an envelope with these packets yields: its key ID, payload and
/// signature, or the error. Packets after the third are not looked at.
pub open spec fn envelope_of(ps: Seq<PacketModel>) -> Result<EnvelopeModel, StampError> {
    if ps.len() < 3 || !(ps[0] is OnePassSig) {
        Err(StampError::MalformedEnvelope)
    } else if ps[0]->OnePassSig_issuer is None {
        Err(StampError::UnsupportedKeyId)
    } else if !(ps[1] is Literal) || !(ps[2] is Signature) {
        Err(StampError::MalformedEnvelope)
    } else if !ps[2]->Signature_issuers.contains(ps[0]->OnePassSig_issuer) {
        Err(StampError::MalformedEnvelope)
    } else {
        Ok(
            EnvelopeModel {
                key_id: ps[0]->OnePassSig_issuer->Some_0,
                body: ps[1]->Literal_body,
                signature: ps[2]->Signature_packet,
            },
        )
    }
}

/// Checks the packet sequence of an envelope: an announcement with an 8-byte
/// key ID, then the literal payload, then a signature whose issuers include
/// the announced key.
pub fn check_envelope(packets: Vec<PacketView>) -> (r: Result<Envelope, StampError>)
    ensures
        r is Ok <==> envelope_of(models(packets@)) is Ok,
        r matches Ok(e) ==> envelope_of(models(packets@)) == Ok::<EnvelopeModel, StampError>(e@),
        r matches Err(x) ==> envelope_of(models(packets@)) == Err::<EnvelopeModel, StampError>(x),
{
    let ghost ps = models(packets@);
    if packets.len() < 3 {
        return Err(StampError::MalformedEnvelope);
    }
    let mut rest = packets;
    let third = rest.remove(2);
    let second = rest.remove(1);
    let first = rest.remove(0);
    assert(first@ == ps[0] && second@ == ps[1] && third@ == ps[2]);
    let key_id = match first {
        PacketView::OnePassSig { issuer: Some(id) } => id,
        PacketView::OnePassSig { issuer: None } => return Err(StampError::UnsupportedKeyId),
        _ => return Err(StampError::MalformedEnvelope),
    };
    let body = match second {
        PacketView::Literal { body } => body,
        _ => return Err(StampError::MalformedEnvelope),
    };
    let (issuers, signature) = match third {
        PacketView::Signature { issuers, packet } => (issuers, packet),
        _ => return Err(StampError::MalformedEnvelope),
    };
    let ghost named = issuer_models(issuers@);
    let mut i: usize = 0;
    while i < issuers.len()
        invariant
            i <= issuers@.len(),
            named == issuer_models(issuers@),
            forall|j: int| 0 <= j < i ==> named[j] != Some(key_id@),
            ps[0] == (PacketModel::OnePassSig { issuer: Some(key_id@) }),
            ps[1] == (PacketModel::Literal { body: body@ }),
            ps[2] == (PacketModel::Signature { issuers: named, packet: signature@ }),
            ps.len() >= 3,
            ps == models(packets@),
        decreases issuers@.len() - i,
    {
        if let Some(k) = &issuers[i] {
            if same_bytes(k.as_slice(), key_id.as_slice()) {
                assert(named[i as int] == Some(key_id@));
                assert(named.contains(Some(key_id@)));
                return Ok(Envelope { key_id, body, signature });
            }
        }
        i = i + 1;
    }
    assert(!named.contains(Some(key_id@)));
    Err(StampError::MalformedEnvelope)
}

/// What the envelope in `bytes` yields, or the error.
pub open spec fn opened(bytes: Seq<u8>) -> Result<EnvelopeModel, StampError> {
    match packets_of(bytes) {
        None => Err(StampError::MalformedEnvelope),
        Some(ps) => envelope_of(ps),
    }
}

/// Reads the envelope in `bytes` and checks its structure.
pub fn open_envelope(bytes: &[u8]) -> (r: Result<Envelope, StampError>)
    ensures
        r is Ok <==> opened(bytes@) is Ok,
        r matches Ok(e) ==> opened(bytes@) == Ok::<EnvelopeModel, StampError>(e@),
        r matches Err(x) ==> opened(bytes@) == Err::<EnvelopeModel, StampError>(x),
{
    match read_packets(bytes) {
        None => Err(StampError::MalformedEnvelope),
        Some(ps) => check_envelope(ps),
    }
}

/// The member `key` of the JSON object in `doc`, where `doc` is one JSON
/// document, an object, and that member is a string.
pub uninterp spec fn json_string_member(doc: Seq<u8>, key: Seq<char>) -> Option<Seq<char>>;

/// Relies on `serde_json::from_slice` into a `serde_json::Value`, then on
/// `Value::get` for the member and `Value::as_str` for its text.
#[verifier::external_body]
fn string_member(doc: &[u8], key: &str) -> (r: Option<String>)
    ensures
        match r {
            Some(v) => json_string_member(doc@, key@) == Some(v@),
            None => json_string_member(doc@, key@) is None,
        },
{
    let v: serde_json::Value = serde_json::from_slice(doc).ok()?;
    Some(v.get(key)?.as_str()?.to_string())
}

/// The instant that the RFC 3339 date-time `s` names, where it is one.
pub uninterp spec fn rfc3339_instant(s: Seq<char>) -> Option<Timestamp>;

/// Relies on chrono's `DateTime::parse_from_rfc3339`, and on `timestamp` and
/// `timestamp_subsec_nanos` for the instant that the result names.
#[verifier::external_body]
fn parse_rfc3339(s: &str) -> (r: Option<Timestamp>)
    ensures
        r == rfc3339_instant(s@),
{
    let t = chrono::DateTime::parse_from_rfc3339(s).ok()?;
    Some(Timestamp { secs: t.timestamp(), nanos: t.timestamp_subsec_nanos() })
}

/// The claim that a stamp carries: a content hash and the instant it was
/// stamped.
#[derive(Debug)]
pub struct SerialStamp {
    pub hash: String,
    pub stamp: Timestamp,
}

/// The hash and instant of the payload `body`, where it is a JSON object with
/// a string `hash` and a string `stamp` that is an RFC 3339 date-time.
pub open spec fn payload_of(body: Seq<u8>) -> Option<(Seq<char>, Timestamp)> {
    match json_string_member(body, "hash"@) {
        None => None,
        Some(h) => match json_string_member(body, "stamp"@) {
            None => None,
            Some(s) => match rfc3339_instant(s) {
                None => None,
                Some(t) => Some((h, t)),
            },
        },
    }
}

/// Reads the payload of a stamp.
pub fn decode_payload(body: &[u8]) -> (r: Result<SerialStamp, StampError>)
    ensures
        r is Ok <==> payload_of(body@) is Some,
        r matches Ok(p) ==> payload_of(body@) == Some((p.hash@, p.stamp)),
        r matches Err(e) ==> e == StampError::MalformedPayload,
{
    let hash = match string_member(body, "hash") {
        Some(h) => h,
        None => return Err(StampError::MalformedPayload),
    };
    let stamp = match string_member(body, "stamp") {
        Some(s) => s,
        None => return Err(StampError::MalformedPayload),
    };
    match parse_rfc3339(stamp.as_str()) {
        Some(stamp) => Ok(SerialStamp { hash, stamp }),
        None => Err(StampError::MalformedPayload),
    }
}

/// Whether `packet` is one serialized signature packet, `key` one
/// certificate, and the signature is good over `message` by the primary key
/// of that certificate.
pub uninterp spec fn signature_verifies(packet: Seq<u8>, key: Seq<char>, message: Seq<u8>) -> bool;

/// Relies on sequoia's `Packet::from_bytes` for the signature packet,
/// `Cert::from_str` for the certificate, and `Signature::verify_message`
/// against its primary key (`Cert::primary_key`).
#[verifier::external_body]
fn signature_holds(packet: &[u8], key: &str, message: &[u8]) -> (r: bool)
    ensures
        r == signature_verifies(packet@, key@, message@),
{
    let Ok(Packet::Signature(sig)) = Packet::from_bytes(packet) else { return false };
    let Ok(cert) = sequoia_openpgp::Cert::from_str(key) else { return false };
    sig.verify_message(cert.primary_key().key(), message).is_ok()
}

/// The stamp that a payload and the result of its signature check make.
pub fn stamp_record(payload: SerialStamp, signature_valid: bool) -> (r: StampRecord)
    ensures
        r.hash@ == payload.hash@,
        r.timestamp == payload.stamp,
        r.signature_valid == signature_valid,
{
    StampRecord { hash: payload.hash, timestamp: payload.stamp, signature_valid }
}

/// Reads the stamp in an opened envelope, checking its signature with `key`,
/// the certificate of the key that the announcement names. A signature that
/// fails is no error: the stamp is read all the same and marked not valid.
pub fn read_stamp(envelope: &Envelope, key: &VerificationKey) -> (r: Result<StampRecord, StampError>)
    ensures
        r is Ok <==> payload_of(envelope.body@) is Some,
        r matches Ok(s) ==> payload_of(envelope.body@) == Some((s.hash@, s.timestamp)),
        r matches Ok(s) ==> s.signature_valid == signature_verifies(
            envelope.signature@,
            key@,
            envelope.body@,
        ),
        r matches Err(e) ==> e == StampError::MalformedPayload,
{
    let payload = decode_payload(envelope.body.as_slice())?;
    let valid = signature_holds(envelope.signature.as_slice(), key.text.as_str(), envelope.body.as_slice());
    Ok(stamp_record(payload, valid))
}

/// What the task of a stamp file reports to the store: the stamp, or a
/// failure for any error on the way.
pub fn stamp_outcome(r: Result<StampRecord, StampError>) -> (o: Outcome)
    ensures
        match r {
            Ok(s) => o@ == (OutcomeModel::StampResult {
                hash: s.hash@,
                timestamp: s.timestamp,
                valid: s.signature_valid,
            }),
            Err(_) => o@ == OutcomeModel::Failed,
        },
{
    match r {
        Ok(s) => Outcome::StampResult(s),
        Err(_) => Outcome::Failed,
    }
}

/// Whether `text` is one armored or binary OpenPGP certificate.
pub uninterp spec fn is_cert_text(text: Seq<char>) -> bool;

/// Relies on sequoia's `Cert::from_str`, which parses one armored or binary
/// certificate.
#[verifier::external_body]
fn parse_cert(text: &str) -> (r: bool)
    ensures
        r == is_cert_text(text@),
{
    sequoia_openpgp::Cert::from_str(text).is_ok()
}

/// The verification key of a signer: the text of its certificate.
#[derive(Debug)]
pub struct VerificationKey {
    text: String,
}

impl View for VerificationKey {
    type V = Seq<char>;

    closed spec fn view(&self) -> Seq<char> {
        self.text@
    }
}

/// The verification key in the fetched text `text`, where it holds one
/// certificate.
pub fn key_from_text(text: String) -> (r: Result<VerificationKey, KeyError>)
    ensures
        r is Ok <==> is_cert_text(text@),
        r matches Ok(k) ==> k@ == text@,
        r matches Err(e) ==> e == KeyError::Parse,
{
    if parse_cert(text.as_str()) {
        Ok(VerificationKey { text })
    } else {
        Err(KeyError::Parse)
    }
}

} // verus!
