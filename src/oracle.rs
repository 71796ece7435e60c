//! Oracle announcements and attestations, and the cryptography that ties an
//! outcome label to the point under which its signatures are encrypted.
use vstd::prelude::*;
use crate::codec::{bytes_view, decode_bytes, text_bytes};
use crate::ledger::BetError;
use dlc::secp256k1_zkp::{Message as OracleMessage, Secp256k1, XOnlyPublicKey};
use dlc_messages::oracle_msgs::{EventDescriptor, OracleAnnouncement, OracleAttestation};
use lightning::util::ser::Readable;
use schnorr_fun::adaptor::{Adaptor, EncryptedSignature};
use schnorr_fun::fun::marker::{EvenY, NonZero, Normal, Public, Zero};
use schnorr_fun::fun::{Point, Scalar};
use schnorr_fun::nonce::Deterministic;
use schnorr_fun::Schnorr;
use sha2::{Digest, Sha256};

verus! {

/// What the settlement logic reads of an oracle announcement: the oracle's
/// x-only key, its nonces, and the outcome labels when the event is an
/// enumeration (`None` for any other kind of event).
pub struct Announcement {
    pub oracle_public_key: Vec<u8>,
    pub nonces: Vec<Vec<u8>>,
    pub outcomes: Option<Vec<String>>,
}

pub struct AnnouncementView {
    pub oracle_public_key: Seq<u8>,
    pub nonces: Seq<Seq<u8>>,
    pub outcomes: Option<Seq<Seq<char>>>,
}

impl View for Announcement {
    type V = AnnouncementView;

    open spec fn view(&self) -> AnnouncementView {
        AnnouncementView {
            oracle_public_key: self.oracle_public_key@,
            nonces: self.nonces.deep_view(),
            outcomes: self.outcomes.deep_view(),
        }
    }
}

/// What the settlement logic reads of an oracle attestation: the oracle's
/// key, its 64-byte Schnorr signatures and the attested outcome labels.
pub struct Attestation {
    pub oracle_public_key: Vec<u8>,
    pub signatures: Vec<Vec<u8>>,
    pub outcomes: Vec<String>,
}

pub struct AttestationView {
    pub oracle_public_key: Seq<u8>,
    pub signatures: Seq<Seq<u8>>,
    pub outcomes: Seq<Seq<char>>,
}

impl View for Attestation {
    type V = AttestationView;

    open spec fn view(&self) -> AttestationView {
        AttestationView {
            oracle_public_key: self.oracle_public_key@,
            signatures: self.signatures.deep_view(),
            outcomes: self.outcomes.deep_view(),
        }
    }
}

pub open spec fn announcement_view(r: Option<Announcement>) -> Option<AnnouncementView> {
    match r {
        Some(a) => Some(a@),
        None => None,
    }
}

pub open spec fn attestation_view(r: Option<Attestation>) -> Option<AttestationView> {
    match r {
        Some(a) => Some(a@),
        None => None,
    }
}

/// The announcement that the DLC wire format encodes in these bytes.
pub uninterp spec fn announcement_read(b: Seq<u8>) -> Option<AnnouncementView>;

/// The attestation that the DLC wire format encodes in these bytes.
pub uninterp spec fn attestation_read(b: Seq<u8>) -> Option<AttestationView>;

/// SHA-256 of the UTF-8 bytes of a label.
pub uninterp spec fn sha256_of(s: Seq<char>) -> Seq<u8>;

/// The compressed point under which signatures for the outcome with this
/// digest are encrypted, given the oracle's key and nonces.
pub uninterp spec fn adaptor_point_of(
    oracle_key: Seq<u8>,
    nonces: Seq<Seq<u8>>,
    digest: Seq<u8>,
) -> Option<Seq<u8>>;

/// Whether `sig` (a serialized encrypted signature) is a valid encryption,
/// under the point `encryption_key`, of a signature by the x-only key
/// `verification_key` over `message`.
pub uninterp spec fn encrypted_sig_valid(
    verification_key: Seq<u8>,
    encryption_key: Seq<u8>,
    message: Seq<u8>,
    sig: Seq<u8>,
) -> bool;

/// Whether the first half of a 64-byte Schnorr signature is a valid x-only
/// nonce point.
pub uninterp spec fn sig_nonce_valid(sig: Seq<u8>) -> bool;

/// The 64-byte Schnorr signature obtained by decrypting a serialized
/// encrypted signature with a scalar; `None` where the bytes do not decode.
pub uninterp spec fn decrypted_sig(scalar: Seq<u8>, sig: Seq<u8>) -> Option<Seq<u8>>;

/// The order of the secp256k1 group.
pub open spec fn group_order() -> int {
    (0xFFFFFFFFFFFFFFFFFFFFFFFFFFFFFFFE * (0x10000000000000000 * 0x10000000000000000)
        + 0xBAAEDCE6AF48A03BBFD25E8CD0364141) as int
}

/// The big-endian integer written by some bytes.
pub open spec fn be_value(b: Seq<u8>) -> int
    decreases b.len(),
{
    if b.len() == 0 {
        0
    } else {
        be_value(b.drop_last()) * 256 + b.last()
    }
}

/// Whether 32 bytes are a nonzero scalar of the group, in big-endian form.
pub open spec fn is_nonzero_scalar(b: Seq<u8>) -> bool {
    b.len() == 32 && 0 < be_value(b) < group_order()
}

/// Relies on `OracleAnnouncement::read` of dlc-messages (through lightning's
/// `Readable`): the announcement depends on the bytes alone.
#[verifier::external_body]
fn read_announcement(b: &Vec<u8>) -> (r: Option<Announcement>)
    ensures
        announcement_view(r) == announcement_read(b@),
{
    let a = OracleAnnouncement::read(&mut std::io::Cursor::new(b)).ok()?;
    let outcomes = match a.oracle_event.event_descriptor {
        EventDescriptor::EnumEvent(d) => Some(d.outcomes),
        EventDescriptor::DigitDecompositionEvent(_) => None,
    };
    let nonces = a.oracle_event.oracle_nonces.iter().map(|n| n.serialize().to_vec()).collect();
    Some(Announcement { oracle_public_key: a.oracle_public_key.serialize().to_vec(), nonces, outcomes })
}

/// Relies on `OracleAttestation::read` of dlc-messages: the attestation
/// depends on the bytes alone, and each signature serializes to 64 bytes.
#[verifier::external_body]
fn read_attestation(b: &Vec<u8>) -> (r: Option<Attestation>)
    ensures
        attestation_view(r) == attestation_read(b@),
        r is Some ==> forall|i: int|
            0 <= i < r->0.signatures@.len() ==> #[trigger] r->0.signatures@[i]@.len() == 64,
{
    let a = OracleAttestation::read(&mut std::io::Cursor::new(b)).ok()?;
    let signatures = a.signatures.iter().map(|s| s.serialize().to_vec()).collect();
    Some(Attestation { oracle_public_key: a.oracle_public_key.serialize().to_vec(), signatures, outcomes: a.outcomes })
}

/// Parses an oracle announcement given as hexadecimal or base64 text.
pub fn oracle_announcement_from_str(s: &str) -> (r: Option<Announcement>)
    ensures
        announcement_view(r) == match text_bytes(s@) {
            Some(b) => announcement_read(b),
            None => None,
        },
{
    match decode_bytes(s) {
        Some(b) => read_announcement(&b),
        None => None,
    }
}

/// Parses an oracle attestation given as hexadecimal or base64 text.
pub fn oracle_attestation_from_str(s: &str) -> (r: Option<Attestation>)
    ensures
        attestation_view(r) == match text_bytes(s@) {
            Some(b) => attestation_read(b),
            None => None,
        },
        r is Some ==> forall|i: int|
            0 <= i < r->0.signatures@.len() ==> #[trigger] r->0.signatures@[i]@.len() == 64,
{
    match decode_bytes(s) {
        Some(b) => read_attestation(&b),
        None => None,
    }
}

/// Relies on sha2's `Sha256::digest` over the label's UTF-8 bytes.
#[verifier::external_body]
fn outcome_digest(label: &str) -> (r: Vec<u8>)
    ensures
        r@ == sha256_of(label@),
        r@.len() == 32,
{
    Sha256::digest(label.as_bytes()).to_vec()
}

/// Relies on dlc's `get_adaptor_point_from_oracle_info`, for one oracle and
/// one digest: the point depends on the oracle key, the nonces and the
/// digest alone, and is given in its 33-byte compressed form.
#[verifier::external_body]
fn oracle_adaptor_point(oracle_key: &Vec<u8>, nonces: &Vec<Vec<u8>>, digest: &Vec<u8>) -> (r: Option<Vec<u8>>)
    ensures
        bytes_view(r) == adaptor_point_of(oracle_key@, nonces.deep_view(), digest@),
{
    let public_key = XOnlyPublicKey::from_slice(oracle_key).ok()?;
    let nonces = nonces.iter().map(|n| XOnlyPublicKey::from_slice(n)).collect::<Result<Vec<_>, _>>().ok()?;
    let msg = OracleMessage::from_digest_slice(digest).ok()?;
    let info = dlc::OracleInfo { public_key, nonces };
    let point = dlc::get_adaptor_point_from_oracle_info(&Secp256k1::verification_only(), &[info], &[vec![msg]]).ok()?;
    Some(point.serialize().to_vec())
}

/// The encryption point for the signatures made for `outcome`.
pub open spec fn outcome_point(ann: AnnouncementView, outcome: Seq<char>) -> Option<Seq<u8>> {
    adaptor_point_of(ann.oracle_public_key, ann.nonces, sha256_of(outcome))
}

/// Derives the point under which signatures for `outcome` are encrypted:
/// the label is hashed and combined with the oracle's key and nonces.
pub fn adaptor_point(ann: &Announcement, outcome: &str) -> (r: Option<Vec<u8>>)
    ensures
        bytes_view(r) == outcome_point(ann@, outcome@),
{
    let digest = outcome_digest(outcome);
    oracle_adaptor_point(&ann.oracle_public_key, &ann.nonces, &digest)
}

/// Relies on schnorr_fun's `Adaptor::verify_encrypted_signature` (keys read
/// with `Point::from_xonly_bytes` and `Point::from_bytes`, the signature with
/// bincode): the answer depends on the four byte strings alone.
#[verifier::external_body]
pub(crate) fn verify_encrypted(verification_key: &Vec<u8>, encryption_key: &Vec<u8>, message: &Vec<u8>, sig: &Vec<u8>) -> (r: bool)
    ensures
        r == encrypted_sig_valid(verification_key@, encryption_key@, message@, sig@),
{
    let vk: Option<Point<EvenY, Public, NonZero>> = <[u8; 32]>::try_from(&verification_key[..]).ok().and_then(Point::from_xonly_bytes);
    let ek: Option<Point<Normal, Public, NonZero>> = <[u8; 33]>::try_from(&encryption_key[..]).ok().and_then(Point::from_bytes);
    let es: Option<EncryptedSignature> = bincode::deserialize(sig).ok();
    let schnorr = Schnorr::<Sha256, _>::new(Deterministic::<Sha256>::default());
    match (vk, ek, es) {
        (Some(vk), Some(ek), Some(es)) => schnorr.verify_encrypted_signature(&vk, &ek, schnorr_fun::Message::<Public>::raw(message), &es),
        _ => false,
    }
}

/// Relies on dlc's `secp_utils::schnorrsig_decompose`: it fails only where
/// the nonce half is no x-only key, and hands back the last 32 bytes.
#[verifier::external_body]
fn decompose_signature(sig: &Vec<u8>) -> (r: Option<Vec<u8>>)
    requires
        sig@.len() == 64,
    ensures
        r is Some <==> sig_nonce_valid(sig@),
        r is Some ==> r->0@ == sig@.subrange(32, 64),
{
    let sig = dlc::secp256k1_zkp::schnorr::Signature::from_slice(sig).ok()?;
    let (_, s) = dlc::secp_utils::schnorrsig_decompose(&sig).ok()?;
    Some(s.to_vec())
}

/// Relies on secp256kfun's `Scalar::from_slice` and `non_zero`: 32 bytes,
/// big-endian, below the group order, and not zero.
#[verifier::external_body]
fn scalar_in_range(b: &Vec<u8>) -> (r: bool)
    ensures
        r == is_nonzero_scalar(b@),
{
    Scalar::<Public, Zero>::from_slice(b).and_then(|s| s.non_zero()).is_some()
}

/// Splits an attestation signature and keeps its scalar half, the secret
/// that unlocks the signatures encrypted for the attested outcome.  Fails
/// with `InvalidScalar` where the signature does not split or the scalar is
/// zero or out of range.
pub fn extract_signing_scalar(sig: &Vec<u8>) -> (r: Result<Vec<u8>, BetError>)
    requires
        sig@.len() == 64,
    ensures
        r is Ok <==> sig_nonce_valid(sig@) && is_nonzero_scalar(sig@.subrange(32, 64)),
        r is Ok ==> r->Ok_0@ == sig@.subrange(32, 64),
        r is Err ==> r == Err::<Vec<u8>, BetError>(BetError::InvalidScalar),
{
    match decompose_signature(sig) {
        Some(s) => {
            if scalar_in_range(&s) {
                Ok(s)
            } else {
                Err(BetError::InvalidScalar)
            }
        },
        None => Err(BetError::InvalidScalar),
    }
}

/// Relies on schnorr_fun's `Adaptor::decrypt_signature` (the signature read
/// with bincode): the result depends on the scalar and the bytes alone.
#[verifier::external_body]
pub(crate) fn decrypt_signature(scalar: &Vec<u8>, sig: &Vec<u8>) -> (r: Option<Vec<u8>>)
    requires
        is_nonzero_scalar(scalar@),
    ensures
        bytes_view(r) == decrypted_sig(scalar@, sig@),
{
    let y = Scalar::<Public, Zero>::from_slice(scalar)?.non_zero()?;
    let es: EncryptedSignature = bincode::deserialize(sig).ok()?;
    let schnorr = Schnorr::<Sha256, _>::new(Deterministic::<Sha256>::default());
    Some(schnorr.decrypt_signature(y, es).to_bytes().to_vec())
}

} // verus!
