use dlc::secp256k1_zkp::{Keypair, Message as OracleMessage, Secp256k1, SecretKey};
use dlc_messages::oracle_msgs::{
    DigitDecompositionEventDescriptor, EnumEventDescriptor, EventDescriptor, OracleAnnouncement,
    OracleAttestation, OracleEvent,
};
use lightning::util::ser::Writeable;
use note_duel::ledger::Bet;
use note_duel::ledger::{BetError, Ledger};
use note_duel::listing::{list_events_impl, list_pending_events_impl};
use note_duel::message::UnsignedMessage;
use note_duel::models::{add_sigs, create_bet, get_counts, reject_bet};
use note_duel::oracle::{adaptor_point, extract_signing_scalar, oracle_announcement_from_str, oracle_attestation_from_str};
use note_duel::resolver::{handle_bet, handle_event, SideError};
use note_duel::ledger::Sig;
use nostr::event::{Event, Kind, Tag, UnsignedEvent};
use nostr::types::Timestamp;
use schnorr_fun::adaptor::EncryptedSign;
use schnorr_fun::fun::marker::{EvenY, NonZero, Normal, Public};
use schnorr_fun::fun::{KeyPair, Point, Scalar};
use schnorr_fun::nonce::Deterministic;
use schnorr_fun::Schnorr;
use sha2::{Digest, Sha256};

const EVENT_ID: [u8; 32] = [5u8; 32];

fn hex(bytes: &[u8]) -> String {
    bytes.iter().map(|b| format!("{:02x}", b)).collect()
}

struct Oracle {
    keypair: Keypair,
    nonce: [u8; 32],
}

fn oracle() -> Oracle {
    let secp = Secp256k1::new();
    let sk = SecretKey::from_slice(&[7u8; 32]).unwrap();
    Oracle { keypair: Keypair::from_secret_key(&secp, &sk), nonce: [9u8; 32] }
}

fn announcement(o: &Oracle, descriptor: EventDescriptor) -> Vec<u8> {
    let secp = Secp256k1::new();
    let nonce_key = Keypair::from_secret_key(&secp, &SecretKey::from_slice(&o.nonce).unwrap());
    let ann = OracleAnnouncement {
        announcement_signature: secp
            .sign_schnorr_no_aux_rand(&OracleMessage::from_digest([1u8; 32]), &o.keypair),
        oracle_public_key: o.keypair.x_only_public_key().0,
        oracle_event: OracleEvent {
            oracle_nonces: vec![nonce_key.x_only_public_key().0],
            event_maturity_epoch: 0,
            event_descriptor: descriptor,
            event_id: "coin".to_string(),
        },
    };
    ann.encode()
}

fn enum_announcement(o: &Oracle, outcomes: &[&str]) -> String {
    hex(&announcement(
        o,
        EventDescriptor::EnumEvent(EnumEventDescriptor {
            outcomes: outcomes.iter().map(|s| s.to_string()).collect(),
        }),
    ))
}

fn oracle_signature(o: &Oracle, outcome: &str, nonce: &[u8; 32]) -> dlc::secp256k1_zkp::schnorr::Signature {
    let secp = Secp256k1::new();
    let digest: [u8; 32] = Sha256::digest(outcome.as_bytes()).into();
    dlc::secp_utils::schnorrsig_sign_with_nonce(&secp, &OracleMessage::from_digest(digest), &o.keypair, nonce)
}

fn attestation(o: &Oracle, outcome: &str) -> String {
    attestation_with(o, outcome, oracle_signature(o, outcome, &o.nonce))
}

fn attestation_with(o: &Oracle, outcome: &str, sig: dlc::secp256k1_zkp::schnorr::Signature) -> String {
    let att = OracleAttestation {
        event_id: "coin".to_string(),
        oracle_public_key: o.keypair.x_only_public_key().0,
        signatures: vec![sig],
        outcomes: vec![outcome.to_string()],
    };
    hex(&att.encode())
}

struct Party {
    secret: [u8; 32],
    keypair: KeyPair<EvenY>,
}

fn schnorr() -> Schnorr<Sha256, Deterministic<Sha256>> {
    Schnorr::<Sha256, _>::new(Deterministic::<Sha256>::default())
}

fn party(seed: u8) -> Party {
    let secret = [seed; 32];
    let sk = Scalar::from_bytes_mod_order(secret).non_zero().unwrap();
    Party { secret, keypair: schnorr().new_keypair(sk) }
}

fn nostr_keys(p: &Party) -> nostr::key::Keys {
    nostr::key::Keys::new(nostr::key::SecretKey::from_slice(&p.secret).unwrap())
}

fn unsigned_event(p: &Party, content: &str) -> UnsignedEvent {
    let mut ev = UnsignedEvent::new(
        nostr_keys(p).public_key(),
        Timestamp::from_secs(1_700_000_000),
        Kind::TextNote,
        Vec::<Tag>::new(),
        content,
    );
    ev.ensure_id();
    ev
}

fn message(p: &Party, content: &str) -> UnsignedMessage {
    UnsignedMessage::from_json(&unsigned_event(p, content).as_json()).expect("valid message")
}

fn encrypt(p: &Party, point: &[u8], message_id: &[u8]) -> Vec<u8> {
    let bytes: [u8; 33] = point.try_into().unwrap();
    let ek: Point<Normal, Public, NonZero> = Point::from_bytes(bytes).unwrap();
    let es = schnorr().encrypted_sign(&p.keypair, &ek, schnorr_fun::Message::<Public>::raw(message_id));
    bincode::serialize(&es).unwrap()
}

struct Setup {
    ledger: Ledger,
    ann_text: String,
    a: Party,
    b: Party,
    win_a: UnsignedMessage,
    lose_a: UnsignedMessage,
    win_b: UnsignedMessage,
    lose_b: UnsignedMessage,
    oracle: Oracle,
}

fn setup() -> Setup {
    let oracle = oracle();
    let a = party(11);
    let b = party(22);
    Setup {
        ledger: Ledger::new(),
        ann_text: enum_announcement(&oracle, &["Heads", "Tails"]),
        win_a: message(&a, "a wins"),
        lose_a: message(&a, "a loses"),
        win_b: message(&b, "b wins"),
        lose_b: message(&b, "b loses"),
        a,
        b,
        oracle,
    }
}

fn point(s: &Setup, outcome: &str) -> Vec<u8> {
    let ann = oracle_announcement_from_str(&s.ann_text).unwrap();
    adaptor_point(&ann, outcome).expect("adaptor point")
}

/// Party A bets on heads: its heads signature completes its win message.
fn sigs_a(s: &Setup) -> Vec<(String, Vec<u8>)> {
    vec![
        ("Heads".to_string(), encrypt(&s.a, &point(s, "Heads"), &s.win_a.id)),
        ("Tails".to_string(), encrypt(&s.a, &point(s, "Tails"), &s.lose_a.id)),
    ]
}

/// Party B bets on tails.
fn sigs_b(s: &Setup) -> Vec<(String, Vec<u8>)> {
    vec![
        ("Heads".to_string(), encrypt(&s.b, &point(s, "Heads"), &s.lose_b.id)),
        ("Tails".to_string(), encrypt(&s.b, &point(s, "Tails"), &s.win_b.id)),
    ]
}

fn create(s: &mut Setup, sigs: &Vec<(String, Vec<u8>)>) -> Result<i32, BetError> {
    create_bet(
        &mut s.ledger,
        &s.ann_text.clone(),
        s.win_a.duplicate(),
        s.lose_a.duplicate(),
        s.win_b.duplicate(),
        s.lose_b.duplicate(),
        EVENT_ID.to_vec(),
        sigs,
    )
}

fn active_bet() -> (Setup, i32) {
    let mut s = setup();
    let sa = sigs_a(&s);
    let id = create(&mut s, &sa).expect("created");
    let sb = sigs_b(&s);
    add_sigs(&mut s.ledger, id, &sb).expect("replied");
    (s, id)
}

#[test]
fn create_records_pending_bet() {
    let mut s = setup();
    let sa = sigs_a(&s);
    let id = create(&mut s, &sa).expect("created");
    assert_eq!(id, 1);
    let bet = Bet::get_by_id(&s.ledger, id).unwrap();
    assert!(bet.needs_reply);
    assert_eq!(bet.user_a(), s.win_a.pubkey);
    assert_eq!(bet.user_b(), s.win_b.pubkey);
    assert_eq!(bet.oracle_event_id(), EVENT_ID.to_vec());
    let sigs = Sig::get_by_bet_id(&s.ledger, id);
    assert_eq!(sigs.len(), 2);
    assert!(sigs.iter().all(|x| x.is_party_a));
    let heads = Sig::get_by_params(&s.ledger, id, "Heads", true).unwrap();
    assert!(heads.is_win);
    let tails = Sig::get_by_params(&s.ledger, id, "Tails", true).unwrap();
    assert!(!tails.is_win);
    assert!(Sig::get_by_params(&s.ledger, id, "Heads", false).is_none());
}

#[test]
fn create_then_reply_activates() {
    let (s, id) = active_bet();
    let bet = Bet::get_by_id(&s.ledger, id).unwrap();
    assert!(!bet.needs_reply);
    assert_eq!(bet.win_outcome_event_id(), None);
    assert_eq!(bet.lose_outcome_event_id(), None);
    let heads_b = Sig::get_by_params(&s.ledger, id, "Heads", false).unwrap();
    assert!(!heads_b.is_win);
    let counts = get_counts(&s.ledger);
    assert_eq!(counts.active, 1);
    assert_eq!(counts.completed, 0);
    assert_eq!(Bet::get_unfinished_bets(&s.ledger), vec![EVENT_ID.to_vec()]);
}

#[test]
fn count_mismatch_rejected_for_zero_one_and_three() {
    let mut s = setup();
    let full = sigs_a(&s);
    let none: Vec<(String, Vec<u8>)> = vec![];
    let one = vec![full[0].clone()];
    let mut three = full.clone();
    three.push(("Edge".to_string(), full[0].1.clone()));
    assert_eq!(create(&mut s, &none), Err(BetError::OutcomeCountMismatch));
    assert_eq!(create(&mut s, &one), Err(BetError::OutcomeCountMismatch));
    assert_eq!(create(&mut s, &three), Err(BetError::OutcomeCountMismatch));
    assert!(Bet::get_by_id(&s.ledger, 1).is_none());
    assert_eq!(Sig::get_by_bet_id(&s.ledger, 1).len(), 0);
}

#[test]
fn reply_count_mismatch_rejected() {
    let mut s = setup();
    let sa = sigs_a(&s);
    let id = create(&mut s, &sa).unwrap();
    let sb = sigs_b(&s);
    let one = vec![sb[0].clone()];
    assert_eq!(add_sigs(&mut s.ledger, id, &one).err(), Some(BetError::OutcomeCountMismatch));
    assert!(Bet::get_by_id(&s.ledger, id).unwrap().needs_reply);
}

#[test]
fn signature_under_wrong_point_rejected() {
    let mut s = setup();
    let sigs = vec![
        ("Heads".to_string(), encrypt(&s.a, &point(&s, "Tails"), &s.win_a.id)),
        ("Tails".to_string(), encrypt(&s.a, &point(&s, "Tails"), &s.lose_a.id)),
    ];
    assert_eq!(create(&mut s, &sigs), Err(BetError::VerificationFailed));
    assert!(Bet::get_by_id(&s.ledger, 1).is_none());
}

#[test]
fn signature_by_wrong_party_rejected() {
    let mut s = setup();
    let sa = sigs_a(&s);
    let id = create(&mut s, &sa).unwrap();
    // Party A's signatures offered as B's reply.
    assert_eq!(add_sigs(&mut s.ledger, id, &sa).err(), Some(BetError::VerificationFailed));
}

#[test]
fn ambiguous_signature_rejected() {
    let mut s = setup();
    s.lose_a = s.win_a.duplicate();
    let sa = sigs_a(&s);
    assert_eq!(create(&mut s, &sa), Err(BetError::VerificationFailed));
}

#[test]
fn malformed_announcement_rejected() {
    let mut s = setup();
    let sa = sigs_a(&s);
    s.ann_text = "not an announcement".to_string();
    assert_eq!(create(&mut s, &sa), Err(BetError::MalformedCommitment));
}

#[test]
fn numeric_event_rejected() {
    let mut s = setup();
    let sa = sigs_a(&s);
    s.ann_text = hex(&announcement(
        &s.oracle,
        EventDescriptor::DigitDecompositionEvent(DigitDecompositionEventDescriptor {
            base: 2,
            is_signed: false,
            unit: "x".to_string(),
            precision: 0,
            nb_digits: 1,
        }),
    ));
    assert_eq!(create(&mut s, &sa), Err(BetError::UnsupportedEvent));
}

#[test]
fn announcement_accepted_as_base64() {
    let s = setup();
    let bytes = announcement(&s.oracle, EventDescriptor::EnumEvent(EnumEventDescriptor {
        outcomes: vec!["Heads".to_string(), "Tails".to_string()],
    }));
    let from_b64 = oracle_announcement_from_str(&base64::encode(&bytes)).unwrap();
    let from_hex = oracle_announcement_from_str(&s.ann_text).unwrap();
    assert_eq!(from_b64.nonces, from_hex.nonces);
    assert_eq!(from_b64.outcomes, Some(vec!["Heads".to_string(), "Tails".to_string()]));
    assert_eq!(from_b64.oracle_public_key.len(), 32);
}

#[test]
fn reply_errors() {
    let (mut s, id) = active_bet();
    let sb = sigs_b(&s);
    assert_eq!(add_sigs(&mut s.ledger, id, &sb).err(), Some(BetError::AlreadyReplied));
    assert_eq!(add_sigs(&mut s.ledger, 99, &sb).err(), Some(BetError::NotFound));
}

#[test]
fn two_party_heads_settlement() {
    let (mut s, id) = active_bet();
    let att = attestation(&s.oracle, "Heads");
    let res = handle_event(&mut s.ledger, Some(EVENT_ID.to_vec()), &att).expect("handled");
    assert!(res.errors.is_empty());
    let published = res.published;
    assert_eq!(published.len(), 2);
    assert_eq!(published[0].id, s.win_a.id);
    assert_eq!(published[1].id, s.lose_b.id);

    // Each completed message is a validly signed event, the same event that
    // signing the unsigned message with the party's own key gives.
    let ev_a = Event::from_json(&published[0].json).unwrap();
    assert!(ev_a.verify().is_ok());
    let keys_a = nostr_keys(&s.a);
    let plain = schnorr().sign(&s.a.keypair, schnorr_fun::Message::<Public>::raw(&s.win_a.id));
    let direct_a = unsigned_event(&s.a, "a wins")
        .add_signature(nostr::event::Signature::from_slice(&plain.to_bytes()).unwrap())
        .unwrap();
    assert_eq!(ev_a.id, direct_a.id);
    assert_eq!(ev_a.pubkey, direct_a.pubkey);
    assert_eq!(ev_a.content, direct_a.content);
    assert_eq!(ev_a.pubkey, keys_a.public_key());

    let ev_b = Event::from_json(&published[1].json).unwrap();
    assert!(ev_b.verify().is_ok());
    assert_eq!(ev_b.content, "b loses");
    assert_eq!(ev_b.pubkey, nostr_keys(&s.b).public_key());

    let bet = Bet::get_by_id(&s.ledger, id).unwrap();
    assert_eq!(bet.win_outcome_event_id(), Some(s.win_a.id.clone()));
    assert_eq!(bet.lose_outcome_event_id(), Some(s.lose_b.id.clone()));
    let counts = get_counts(&s.ledger);
    assert_eq!(counts.active, 0);
    assert_eq!(counts.completed, 1);
    assert_eq!(Bet::get_event_ids(&s.ledger), vec![s.win_a.id.clone(), s.lose_b.id.clone()]);
    assert!(Bet::get_unfinished_bets(&s.ledger).is_empty());
}

#[test]
fn tails_settlement_pays_b() {
    let (mut s, id) = active_bet();
    let att = attestation(&s.oracle, "Tails");
    let res = handle_event(&mut s.ledger, Some(EVENT_ID.to_vec()), &att).unwrap();
    assert!(res.errors.is_empty());
    let published = res.published;
    assert_eq!(published.len(), 2);
    assert_eq!(published[0].id, s.lose_a.id);
    assert_eq!(published[1].id, s.win_b.id);
    let bet = Bet::get_by_id(&s.ledger, id).unwrap();
    assert_eq!(bet.win_outcome_event_id(), Some(s.win_b.id.clone()));
    assert_eq!(bet.lose_outcome_event_id(), Some(s.lose_a.id.clone()));
}

#[test]
fn second_delivery_changes_nothing() {
    let (mut s, id) = active_bet();
    let att = attestation(&s.oracle, "Heads");
    let first = handle_event(&mut s.ledger, Some(EVENT_ID.to_vec()), &att).unwrap();
    assert_eq!(first.published.len(), 2);
    let before = Bet::get_by_id(&s.ledger, id).unwrap();
    let second = handle_event(&mut s.ledger, Some(EVENT_ID.to_vec()), &att).unwrap();
    assert!(second.published.is_empty());
    assert!(second.errors.is_empty());
    let after = Bet::get_by_id(&s.ledger, id).unwrap();
    assert_eq!(after.win_outcome_event_id(), before.win_outcome_event_id());
    assert_eq!(after.lose_outcome_event_id(), before.lose_outcome_event_id());
}

#[test]
fn unanticipated_outcome_settles_with_zero_ids() {
    let (mut s, id) = active_bet();
    let att = attestation(&s.oracle, "Edge");
    let res = handle_event(&mut s.ledger, Some(EVENT_ID.to_vec()), &att).unwrap();
    assert!(res.errors.is_empty());
    let published = res.published;
    assert!(published.is_empty());
    let bet = Bet::get_by_id(&s.ledger, id).unwrap();
    assert_eq!(bet.win_outcome_event_id(), Some(vec![0u8; 32]));
    assert_eq!(bet.lose_outcome_event_id(), Some(vec![0u8; 32]));
}

#[test]
fn pending_bet_not_settled() {
    let mut s = setup();
    let sa = sigs_a(&s);
    let id = create(&mut s, &sa).unwrap();
    let att = attestation(&s.oracle, "Heads");
    let res = handle_event(&mut s.ledger, Some(EVENT_ID.to_vec()), &att).unwrap();
    assert!(res.errors.is_empty());
    let published = res.published;
    assert!(published.is_empty());
    let parsed = oracle_attestation_from_str(&att).unwrap();
    assert_eq!(handle_bet(&mut s.ledger, &parsed, id).err(), Some(BetError::NotActive));
    assert!(Bet::get_by_id(&s.ledger, id).unwrap().win_outcome_event_id().is_none());
}

#[test]
fn other_event_untouched() {
    let (mut s, id) = active_bet();
    let att = attestation(&s.oracle, "Heads");
    let res = handle_event(&mut s.ledger, Some(vec![6u8; 32]), &att).unwrap();
    assert!(res.published.is_empty());
    assert!(Bet::get_by_id(&s.ledger, id).unwrap().win_outcome_event_id().is_none());
}

#[test]
fn attestation_message_errors() {
    let (mut s, _) = active_bet();
    let att = attestation(&s.oracle, "Heads");
    assert_eq!(handle_event(&mut s.ledger, None, &att).err(), Some(BetError::NoEventTag));
    assert_eq!(
        handle_event(&mut s.ledger, Some(EVENT_ID.to_vec()), "zz").err(),
        Some(BetError::MalformedCommitment)
    );
}

#[test]
fn attestation_scalar_is_second_half() {
    let s = setup();
    let parsed = oracle_attestation_from_str(&attestation(&s.oracle, "Heads")).unwrap();
    let sig = &parsed.signatures[0];
    assert_eq!(sig.len(), 64);
    let scalar = extract_signing_scalar(sig).unwrap();
    assert_eq!(scalar, sig[32..64].to_vec());
    let mut zero = sig.clone();
    for b in zero[32..64].iter_mut() {
        *b = 0;
    }
    assert_eq!(extract_signing_scalar(&zero), Err(BetError::InvalidScalar));
}

#[test]
fn outcome_points_differ() {
    let s = setup();
    let heads = point(&s, "Heads");
    let tails = point(&s, "Tails");
    assert_eq!(heads.len(), 33);
    assert_ne!(heads, tails);
}

#[test]
fn set_outcome_is_idempotent() {
    let (mut s, id) = active_bet();
    let w = vec![3u8; 32];
    assert_eq!(Bet::set_win_outcome_event_id(&mut s.ledger, id, &w), Ok(()));
    assert_eq!(Bet::set_win_outcome_event_id(&mut s.ledger, id, &w), Ok(()));
    assert_eq!(
        Bet::set_win_outcome_event_id(&mut s.ledger, id, &vec![4u8; 32]),
        Err(BetError::AlreadySettled)
    );
    assert_eq!(Bet::set_lose_outcome_event_id(&mut s.ledger, 42, &w), Err(BetError::NotFound));
    assert_eq!(Bet::get_by_id(&s.ledger, id).unwrap().win_outcome_event_id(), Some(w));
}

#[test]
fn reject_by_party_only() {
    let mut s = setup();
    let sa = sigs_a(&s);
    let id = create(&mut s, &sa).unwrap();
    reject_bet(&mut s.ledger, id, &vec![9u8; 32]);
    assert!(Bet::get_by_id(&s.ledger, id).is_some());
    let b_key = s.win_b.pubkey.clone();
    reject_bet(&mut s.ledger, id, &b_key);
    assert!(Bet::get_by_id(&s.ledger, id).is_none());
    assert!(Sig::get_by_bet_id(&s.ledger, id).is_empty());
}

#[test]
fn pending_listing_splits_outcomes() {
    let mut s = setup();
    let sa = sigs_a(&s);
    let id = create(&mut s, &sa).unwrap();
    let listed = list_pending_events_impl(&s.ledger, &s.win_b.pubkey);
    assert_eq!(listed.len(), 1);
    assert_eq!(listed[0].bet.id, id);
    // The asking party has no win signatures yet: every outcome is listed
    // as its own, none as its counterparty's.
    assert_eq!(listed[0].user_outcomes, vec!["Heads".to_string(), "Tails".to_string()]);
    assert!(listed[0].counterparty_outcomes.is_empty());
    assert!(list_pending_events_impl(&s.ledger, &s.win_a.pubkey).is_empty());
    assert_eq!(Bet::get_pending_bets(&s.ledger, &s.win_b.pubkey).len(), 1);
}

#[test]
fn active_listing_shows_both_parties() {
    let (s, id) = active_bet();
    let listed = list_events_impl(&s.ledger, &s.win_a.pubkey);
    assert_eq!(listed.len(), 1);
    assert_eq!(listed[0].bet.id, id);
    let mut mine = listed[0].user_outcomes.clone();
    mine.sort();
    assert_eq!(mine, vec!["Heads".to_string(), "Tails".to_string()]);
    assert_eq!(list_events_impl(&s.ledger, &s.win_b.pubkey).len(), 1);
    assert!(list_events_impl(&s.ledger, &vec![1u8; 32]).is_empty());
    assert_eq!(Bet::get_active_bets(&s.ledger, &s.win_b.pubkey).len(), 1);
    assert_eq!(Bet::get_by_oracle_event(&s.ledger, &EVENT_ID.to_vec()).len(), 1);
}

#[test]
fn unusable_scalar_reported_per_side() {
    let (mut s, id) = active_bet();
    let mut raw = oracle_signature(&s.oracle, "Heads", &s.oracle.nonce).serialize();
    for b in raw[32..64].iter_mut() {
        *b = 0;
    }
    let sig = dlc::secp256k1_zkp::schnorr::Signature::from_slice(&raw).unwrap();
    let att = attestation_with(&s.oracle, "Heads", sig);
    let res = handle_event(&mut s.ledger, Some(EVENT_ID.to_vec()), &att).unwrap();
    assert!(res.published.is_empty());
    assert_eq!(
        res.errors,
        vec![
            SideError { bet_id: id, is_party_a: Some(true), error: BetError::InvalidScalar },
            SideError { bet_id: id, is_party_a: Some(false), error: BetError::InvalidScalar },
        ]
    );
    let bet = Bet::get_by_id(&s.ledger, id).unwrap();
    assert_eq!(bet.win_outcome_event_id(), None);
    assert_eq!(bet.lose_outcome_event_id(), None);
}

#[test]
fn wrong_oracle_nonce_fails_decryption() {
    let (mut s, id) = active_bet();
    let sig = oracle_signature(&s.oracle, "Heads", &[8u8; 32]);
    let att = attestation_with(&s.oracle, "Heads", sig);
    let res = handle_event(&mut s.ledger, Some(EVENT_ID.to_vec()), &att).unwrap();
    assert!(res.published.is_empty());
    assert_eq!(
        res.errors,
        vec![
            SideError { bet_id: id, is_party_a: Some(true), error: BetError::VerificationFailed },
            SideError { bet_id: id, is_party_a: Some(false), error: BetError::VerificationFailed },
        ]
    );
    assert_eq!(Bet::get_by_id(&s.ledger, id).unwrap().win_outcome_event_id(), None);
}

#[test]
fn swapped_outcome_signatures_rejected() {
    let mut s = setup();
    let sa = sigs_a(&s);
    let swapped = vec![
        ("Heads".to_string(), sa[1].1.clone()),
        ("Tails".to_string(), sa[0].1.clone()),
    ];
    assert_eq!(create(&mut s, &swapped), Err(BetError::VerificationFailed));
    assert!(Bet::get_by_id(&s.ledger, 1).is_none());
}

#[test]
fn zero_id_over_recorded_id_reported() {
    let (mut s, id) = active_bet();
    let w = vec![3u8; 32];
    Bet::set_win_outcome_event_id(&mut s.ledger, id, &w).unwrap();
    let att = attestation(&s.oracle, "Edge");
    let res = handle_event(&mut s.ledger, Some(EVENT_ID.to_vec()), &att).unwrap();
    assert!(res.published.is_empty());
    assert_eq!(res.errors, vec![SideError { bet_id: id, is_party_a: None, error: BetError::AlreadySettled }]);
    let bet = Bet::get_by_id(&s.ledger, id).unwrap();
    assert_eq!(bet.win_outcome_event_id(), Some(w));
    assert_eq!(bet.lose_outcome_event_id(), Some(vec![0u8; 32]));
}
