//! Settlement of bets once an oracle attests to an outcome.
use vstd::prelude::*;
use crate::bet::{with_lose, with_win};
use crate::ledger::{lemma_bet_position_unique, Bet, BetError, BetView, Ledger, Sig, SigView};
use crate::message::{SignedMessage, SignedMessageView, UnsignedMessage, UnsignedMessageView, signed_of};
use crate::oracle::{
    Attestation, AttestationView, decrypt_signature, decrypted_sig, extract_signing_scalar,
    is_nonzero_scalar, sig_nonce_valid,
};
use crate::sig::sig_for;
use crate::codec::{bytes_view, text_bytes};
use crate::oracle::{attestation_read, oracle_attestation_from_str};

verus! {

/// The id recorded for an outcome that pays nobody: 32 zero bytes.
pub open spec fn zero_id() -> Seq<u8> {
    Seq::new(32, |i: int| 0u8)
}

/// The scalar that the first attestation signature reveals, if it is usable.
pub open spec fn attested_scalar(att: AttestationView) -> Option<Seq<u8>> {
    if att.signatures.len() > 0 && att.signatures[0].len() == 64 && sig_nonce_valid(att.signatures[0])
        && is_nonzero_scalar(att.signatures[0].subrange(32, 64)) {
        Some(att.signatures[0].subrange(32, 64))
    } else {
        None
    }
}

/// The payout message that a party's signature for one side completes.
pub open spec fn unsigned_for(b: BetView, is_party_a: bool, is_win: bool) -> UnsignedMessageView {
    if is_party_a {
        if is_win { b.win_a } else { b.lose_a }
    } else {
        if is_win { b.win_b } else { b.lose_b }
    }
}

/// The outcome id recorded for one side.
pub open spec fn column(b: BetView, is_win: bool) -> Option<Seq<u8>> {
    if is_win { b.win_outcome_event_id } else { b.lose_outcome_event_id }
}

pub open spec fn set_column(b: BetView, is_win: bool, id: Seq<u8>) -> BetView {
    if is_win { with_win(b, id) } else { with_lose(b, id) }
}

/// The message that a signature completes once decrypted with `scalar`.
pub open spec fn side_message(b: BetView, s: SigView, scalar: Seq<u8>) -> Option<SignedMessageView> {
    match decrypted_sig(scalar, s.sig) {
        Some(plain) => signed_of(unsigned_for(b, s.is_party_a, s.is_win).json, plain),
        None => None,
    }
}

/// Settling one party's signature: the side it completes is recorded and its
/// message published, unless that side is already recorded or the
/// signature does not decrypt to a valid one.
pub open spec fn settle_side(b: BetView, s: Option<SigView>, scalar: Option<Seq<u8>>) -> (BetView, Seq<SignedMessageView>) {
    match s {
        None => (b, Seq::empty()),
        Some(s) => if column(b, s.is_win) is Some {
            (b, Seq::empty())
        } else {
            match scalar {
                None => (b, Seq::empty()),
                Some(k) => match side_message(b, s, k) {
                    Some(m) => (set_column(b, s.is_win, m.id), seq![m]),
                    None => (b, Seq::empty()),
                },
            }
        },
    }
}

pub open spec fn or_zero(o: Option<Seq<u8>>) -> Option<Seq<u8>> {
    match o {
        Some(x) => Some(x),
        None => Some(zero_id()),
    }
}

/// Settling a bet on the signatures of its two parties for the attested
/// outcome.  With neither, the bet is settled with no payout: both ids
/// become the zero id and nothing is published.  Otherwise party A's side
/// and then party B's side are settled, each on its own.
pub open spec fn settle(b: BetView, sig_a: Option<SigView>, sig_b: Option<SigView>, scalar: Option<Seq<u8>>) -> (BetView, Seq<SignedMessageView>) {
    if sig_a is None && sig_b is None {
        (
            BetView {
                win_outcome_event_id: or_zero(b.win_outcome_event_id),
                lose_outcome_event_id: or_zero(b.lose_outcome_event_id),
                ..b
            },
            Seq::empty(),
        )
    } else {
        let (b1, m1) = settle_side(b, sig_a, scalar);
        let (b2, m2) = settle_side(b1, sig_b, scalar);
        (b2, m1 + m2)
    }
}

/// What an attestation does to one bet, given the ledger's signatures.
pub open spec fn resolution(sigs: Seq<SigView>, b: BetView, att: AttestationView) -> (BetView, Seq<SignedMessageView>) {
    let outcome = att.outcomes[0];
    settle(b, sig_for(sigs, b.id, outcome, true), sig_for(sigs, b.id, outcome, false), attested_scalar(att))
}

/// A failure met while settling one bet, reported and not fatal: the
/// party whose side failed, or `None` for the bet as a whole.
#[derive(PartialEq, Eq, Clone, Copy, Debug)]
pub struct SideError {
    pub bet_id: i32,
    pub is_party_a: Option<bool>,
    pub error: BetError,
}

/// What settling one party's signature reports: `InvalidScalar` when the
/// attestation's scalar is unusable, `VerificationFailed` when the
/// signature does not decrypt into a valid signature of its message, and
/// nothing when the side is settled, already recorded, or has no signature.
pub open spec fn side_errors(b: BetView, s: Option<SigView>, scalar: Option<Seq<u8>>) -> Seq<SideError> {
    match s {
        None => Seq::empty(),
        Some(s) => if column(b, s.is_win) is Some {
            Seq::empty()
        } else {
            let err = |e: BetError| seq![SideError { bet_id: b.id, is_party_a: Some(s.is_party_a), error: e }];
            match scalar {
                None => err(BetError::InvalidScalar),
                Some(k) => match side_message(b, s, k) {
                    Some(m) => Seq::empty(),
                    None => err(BetError::VerificationFailed),
                },
            }
        },
    }
}

/// Recording the zero id over an id already recorded is refused.
pub open spec fn zero_conflict(b: BetView, current: Option<Seq<u8>>) -> Seq<SideError> {
    match current {
        Some(x) => if x != zero_id() {
            seq![SideError { bet_id: b.id, is_party_a: None, error: BetError::AlreadySettled }]
        } else {
            Seq::empty()
        },
        None => Seq::empty(),
    }
}

/// What settling a bet reports, in the order of `settle`.
pub open spec fn settle_errors(b: BetView, sig_a: Option<SigView>, sig_b: Option<SigView>, scalar: Option<Seq<u8>>) -> Seq<SideError> {
    if sig_a is None && sig_b is None {
        zero_conflict(b, b.win_outcome_event_id) + zero_conflict(b, b.lose_outcome_event_id)
    } else {
        side_errors(b, sig_a, scalar) + side_errors(settle_side(b, sig_a, scalar).0, sig_b, scalar)
    }
}

pub open spec fn resolution_errors(sigs: Seq<SigView>, b: BetView, att: AttestationView) -> Seq<SideError> {
    let outcome = att.outcomes[0];
    settle_errors(b, sig_for(sigs, b.id, outcome, true), sig_for(sigs, b.id, outcome, false), attested_scalar(att))
}

/// The messages to publish and the failures to report.
pub struct Resolution {
    pub published: Vec<SignedMessage>,
    pub errors: Vec<SideError>,
}

pub open spec fn signed_seq(v: Seq<SignedMessage>) -> Seq<SignedMessageView> {
    v.map_values(|m: SignedMessage| m@)
}

pub open spec fn opt_sig(s: Option<Sig>) -> Option<SigView> {
    match s {
        Some(x) => Some(x@),
        None => None,
    }
}

fn zero_event_id() -> (r: Vec<u8>)
    ensures
        r@ == zero_id(),
{
    let mut r: Vec<u8> = Vec::new();
    let mut i: usize = 0;
    while i < 32
        invariant
            i <= 32,
            r@ == Seq::new(i as nat, |k: int| 0u8),
        decreases 32 - i,
    {
        r.push(0u8);
        i = i + 1;
        assert(r@ =~= Seq::new(i as nat, |k: int| 0u8));
    }
    r
}

fn attestation_scalar(att: &Attestation) -> (r: Option<Vec<u8>>)
    ensures
        bytes_view(r) == attested_scalar(att@),
        r is Some ==> is_nonzero_scalar(r->0@),
{
    if att.signatures.len() == 0 {
        return None;
    }
    assert(att@.signatures[0] == att.signatures@[0]@);
    if att.signatures[0].len() != 64 {
        return None;
    }
    match extract_signing_scalar(&att.signatures[0]) {
        Ok(k) => Some(k),
        Err(_) => None,
    }
}

/// Settles one party's signature on the bet at position `i`.
fn settle_side_at(
    conn: &mut Ledger,
    i: usize,
    sig: &Option<Sig>,
    scalar: &Option<Vec<u8>>,
    out: &mut Resolution,
)
    requires
        old(conn)@.wf(),
        i < old(conn)@.bets.len(),
        !old(conn)@.bets[i as int].needs_reply,
        scalar is Some ==> is_nonzero_scalar(scalar->0@),
    ensures
        final(conn)@.wf(),
        final(conn)@.sigs == old(conn)@.sigs,
        final(conn)@.next_id == old(conn)@.next_id,
        final(conn)@.bets == old(conn)@.bets.update(
            i as int,
            settle_side(old(conn)@.bets[i as int], opt_sig(*sig), bytes_view(*scalar)).0,
        ),
        signed_seq(final(out).published@) == signed_seq(old(out).published@) + settle_side(
            old(conn)@.bets[i as int],
            opt_sig(*sig),
            bytes_view(*scalar),
        ).1,
        final(out).errors@ == old(out).errors@ + side_errors(
            old(conn)@.bets[i as int],
            opt_sig(*sig),
            bytes_view(*scalar),
        ),
{
    let ghost before = conn@;
    let ghost b = before.bets[i as int];
    assert(before.bets.update(i as int, b) =~= before.bets);
    assert(signed_seq(out.published@) + Seq::<SignedMessageView>::empty() =~= signed_seq(out.published@));
    assert(out.errors@ + Seq::<SideError>::empty() =~= out.errors@);
    let s = match sig {
        None => {
            return;
        },
        Some(s) => s,
    };
    assert(b == conn.bets@[i as int]@);
    let bet = &conn.bets[i];
    let id = bet.id;
    let taken = if s.is_win {
        bet.win_outcome_event_id.is_some()
    } else {
        bet.lose_outcome_event_id.is_some()
    };
    if taken {
        return;
    }
    let failure = SideError { bet_id: id, is_party_a: Some(s.is_party_a), error: BetError::InvalidScalar };
    let k = match scalar {
        None => {
            out.errors.push(failure);
            assert(out.errors@ =~= old(out).errors@ + seq![failure]);
            return;
        },
        Some(k) => k,
    };
    let failure = SideError { error: BetError::VerificationFailed, ..failure };
    let plain = match decrypt_signature(k, &s.sig) {
        None => {
            out.errors.push(failure);
            assert(out.errors@ =~= old(out).errors@ + seq![failure]);
            return;
        },
        Some(p) => p,
    };
    let unsigned: &UnsignedMessage = if s.is_party_a {
        if s.is_win { &bet.win_a } else { &bet.lose_a }
    } else {
        if s.is_win { &bet.win_b } else { &bet.lose_b }
    };
    let m = match unsigned.add_signature(&plain) {
        None => {
            out.errors.push(failure);
            assert(out.errors@ =~= old(out).errors@ + seq![failure]);
            return;
        },
        Some(m) => m,
    };
    assert(before.bet_at(id, i as int));
    let ghost mv = m@;
    let recorded = if s.is_win {
        Bet::set_win_outcome_event_id(conn, id, &m.id)
    } else {
        Bet::set_lose_outcome_event_id(conn, id, &m.id)
    };
    // The side was empty and the bet active, so recording cannot fail.
    assert(recorded is Ok);
    let ghost prev = out.published@;
    out.published.push(m);
    assert(signed_seq(out.published@) =~= signed_seq(prev).push(mv));
    assert(seq![mv] =~= Seq::empty().push(mv));
    assert(signed_seq(out.published@) =~= signed_seq(prev) + seq![mv]);
}

/// Records the zero id on one side of the bet at position `i`, reporting a
/// different id already recorded there.
fn record_zero(conn: &mut Ledger, i: usize, win: bool, z: &Vec<u8>, out: &mut Resolution)
    requires
        old(conn)@.wf(),
        i < old(conn)@.bets.len(),
        !old(conn)@.bets[i as int].needs_reply,
        z@ == zero_id(),
    ensures
        final(conn)@.wf(),
        final(conn)@.sigs == old(conn)@.sigs,
        final(conn)@.next_id == old(conn)@.next_id,
        ({
            let b = old(conn)@.bets[i as int];
            let cur = if win { b.win_outcome_event_id } else { b.lose_outcome_event_id };
            &&& final(conn)@.bets == old(conn)@.bets.update(
                i as int,
                if win {
                    BetView { win_outcome_event_id: or_zero(cur), ..b }
                } else {
                    BetView { lose_outcome_event_id: or_zero(cur), ..b }
                },
            )
            &&& final(out).errors@ == old(out).errors@ + zero_conflict(b, cur)
            &&& final(out).published@ == old(out).published@
        }),
{
    let ghost before = conn@;
    let ghost b = before.bets[i as int];
    let id = conn.bets[i].id;
    assert(before.bet_at(id, i as int));
    let recorded = if win {
        Bet::set_win_outcome_event_id(conn, id, z)
    } else {
        Bet::set_lose_outcome_event_id(conn, id, z)
    };
    let ghost cur = if win { b.win_outcome_event_id } else { b.lose_outcome_event_id };
    match recorded {
        Ok(()) => {
            assert(out.errors@ + zero_conflict(b, cur) =~= out.errors@);
            proof {
                if cur is Some {
                    assert(before.bets.update(
                        i as int,
                        if win { BetView { win_outcome_event_id: or_zero(cur), ..b } } else { BetView { lose_outcome_event_id: or_zero(cur), ..b } },
                    ) =~= before.bets);
                }
            }
        },
        Err(e) => {
            let failure = SideError { bet_id: id, is_party_a: None, error: e };
            out.errors.push(failure);
            assert(out.errors@ =~= old(out).errors@ + zero_conflict(b, cur));
            assert(before.bets.update(
                i as int,
                if win { BetView { win_outcome_event_id: or_zero(cur), ..b } } else { BetView { lose_outcome_event_id: or_zero(cur), ..b } },
            ) =~= before.bets);
        },
    }
}

/// Settles the bet at position `i` on the attested `outcome`.
fn settle_at(conn: &mut Ledger, i: usize, outcome: &str, scalar: &Option<Vec<u8>>) -> (r: Resolution)
    requires
        old(conn)@.wf(),
        i < old(conn)@.bets.len(),
        !old(conn)@.bets[i as int].needs_reply,
        scalar is Some ==> is_nonzero_scalar(scalar->0@),
    ensures
        final(conn)@.wf(),
        final(conn)@.sigs == old(conn)@.sigs,
        final(conn)@.next_id == old(conn)@.next_id,
        ({
            let b = old(conn)@.bets[i as int];
            let sa = sig_for(old(conn)@.sigs, b.id, outcome@, true);
            let sb = sig_for(old(conn)@.sigs, b.id, outcome@, false);
            let s = settle(b, sa, sb, bytes_view(*scalar));
            &&& final(conn)@.bets == old(conn)@.bets.update(i as int, s.0)
            &&& signed_seq(r.published@) == s.1
            &&& r.errors@ == settle_errors(b, sa, sb, bytes_view(*scalar))
        }),
{
    let ghost before = conn@;
    let ghost b = before.bets[i as int];
    let id = conn.bets[i].id;
    let sig_a = Sig::get_by_params(conn, id, outcome, true);
    let sig_b = Sig::get_by_params(conn, id, outcome, false);
    assert(opt_sig(sig_a) == sig_for(before.sigs, b.id, outcome@, true));
    assert(opt_sig(sig_b) == sig_for(before.sigs, b.id, outcome@, false));
    let mut out = Resolution { published: Vec::new(), errors: Vec::new() };
    assert(signed_seq(out.published@) =~= Seq::<SignedMessageView>::empty());
    assert(out.errors@ =~= Seq::<SideError>::empty());
    if sig_a.is_none() && sig_b.is_none() {
        let z = zero_event_id();
        record_zero(conn, i, true, &z, &mut out);
        record_zero(conn, i, false, &z, &mut out);
        assert(conn@.bets =~= before.bets.update(
            i as int,
            BetView {
                win_outcome_event_id: or_zero(b.win_outcome_event_id),
                lose_outcome_event_id: or_zero(b.lose_outcome_event_id),
                ..b
            },
        ));
        assert(out.errors@ =~= zero_conflict(b, b.win_outcome_event_id) + zero_conflict(b, b.lose_outcome_event_id));
        return out;
    }
    settle_side_at(conn, i, &sig_a, scalar, &mut out);
    settle_side_at(conn, i, &sig_b, scalar, &mut out);
    proof {
        let (b1, m1) = settle_side(b, opt_sig(sig_a), bytes_view(*scalar));
        assert(Seq::<SignedMessageView>::empty() + m1 =~= m1);
        assert(Seq::<SideError>::empty() + side_errors(b, opt_sig(sig_a), bytes_view(*scalar)) =~= side_errors(b, opt_sig(sig_a), bytes_view(*scalar)));
        assert(before.bets.update(i as int, b1).update(i as int, settle_side(b1, opt_sig(sig_b), bytes_view(*scalar)).0)
            =~= before.bets.update(i as int, settle_side(b1, opt_sig(sig_b), bytes_view(*scalar)).0));
    }
    out
}

/// Settles the bet with this id on an attestation: the first attested
/// outcome picks each party's signature, and the first attestation
/// signature's scalar decrypts it.  Hands back the messages to publish and
/// the failures of single sides, which do not stop the other side.
pub fn handle_bet(conn: &mut Ledger, attestation: &Attestation, bet_id: i32) -> (r: Result<Resolution, BetError>)
    requires
        old(conn)@.wf(),
    ensures
        final(conn)@.wf(),
        final(conn)@.sigs == old(conn)@.sigs,
        final(conn)@.next_id == old(conn)@.next_id,
        !old(conn)@.has_bet(bet_id) ==> r == Err::<Resolution, BetError>(BetError::NotFound)
            && final(conn)@ == old(conn)@,
        forall|i: int| #[trigger] old(conn)@.bet_at(bet_id, i) ==> {
            let b = old(conn)@.bets[i];
            if b.needs_reply {
                r == Err::<Resolution, BetError>(BetError::NotActive) && final(conn)@ == old(conn)@
            } else if attestation@.outcomes.len() == 0 {
                r == Err::<Resolution, BetError>(BetError::NoOutcome) && final(conn)@ == old(conn)@
            } else {
                let s = resolution(old(conn)@.sigs, b, attestation@);
                &&& r is Ok
                &&& signed_seq(r->Ok_0.published@) == s.1
                &&& r->Ok_0.errors@ == resolution_errors(old(conn)@.sigs, b, attestation@)
                &&& final(conn)@.bets == old(conn)@.bets.update(i, s.0)
            }
        },
{
    let ghost before = conn@;
    let i = match conn.find_bet(bet_id) {
        Some(i) => i,
        None => {
            return Err(BetError::NotFound);
        },
    };
    proof {
        lemma_bet_position_unique(before, bet_id, i as int);
    }
    assert(before.bets[i as int] == conn.bets@[i as int]@);
    if conn.bets[i].needs_reply {
        return Err(BetError::NotActive);
    }
    if attestation.outcomes.len() == 0 {
        return Err(BetError::NoOutcome);
    }
    assert(attestation@.outcomes[0] == attestation.outcomes@[0]@);
    let scalar = attestation_scalar(attestation);
    let out = settle_at(conn, i, attestation.outcomes[0].as_str(), &scalar);
    Ok(out)
}

/// The attestation that a message's text carries.
pub open spec fn attestation_text(s: Seq<char>) -> Option<AttestationView> {
    match text_bytes(s) {
        Some(b) => attestation_read(b),
        None => None,
    }
}

/// An attestation for this oracle event settles this bet: it is on that
/// event and both parties have signed.
pub open spec fn event_applies(b: BetView, event: Seq<u8>) -> bool {
    b.oracle_event_id == event && !b.needs_reply
}

/// The messages that settling every applicable bet publishes, bet by bet.
pub open spec fn event_messages(sigs: Seq<SigView>, bets: Seq<BetView>, event: Seq<u8>, att: AttestationView) -> Seq<SignedMessageView>
    decreases bets.len(),
{
    if bets.len() == 0 {
        Seq::empty()
    } else {
        event_messages(sigs, bets.drop_last(), event, att) + if event_applies(bets.last(), event) {
            resolution(sigs, bets.last(), att).1
        } else {
            Seq::empty()
        }
    }
}

/// The failures that settling every applicable bet reports, bet by bet.
pub open spec fn event_errors(sigs: Seq<SigView>, bets: Seq<BetView>, event: Seq<u8>, att: AttestationView) -> Seq<SideError>
    decreases bets.len(),
{
    if bets.len() == 0 {
        Seq::empty()
    } else {
        event_errors(sigs, bets.drop_last(), event, att) + if event_applies(bets.last(), event) {
            resolution_errors(sigs, bets.last(), att)
        } else {
            Seq::empty()
        }
    }
}

/// The bets once every applicable one is settled.
pub open spec fn event_settled(sigs: Seq<SigView>, bets: Seq<BetView>, event: Seq<u8>, att: AttestationView) -> Seq<BetView> {
    Seq::new(
        bets.len(),
        |j: int|
            if event_applies(bets[j], event) {
                resolution(sigs, bets[j], att).0
            } else {
                bets[j]
            },
    )
}

/// Handles an attestation message: `event` is the oracle event it refers
/// to and `content` the attestation in hexadecimal or base64.  Every
/// replied bet on that event is settled; the messages to publish and the
/// failures of single sides are handed back.
pub fn handle_event(conn: &mut Ledger, event: Option<Vec<u8>>, content: &str) -> (r: Result<Resolution, BetError>)
    requires
        old(conn)@.wf(),
    ensures
        final(conn)@.wf(),
        final(conn)@.sigs == old(conn)@.sigs,
        final(conn)@.next_id == old(conn)@.next_id,
        match event {
            None => r == Err::<Resolution, BetError>(BetError::NoEventTag) && final(conn)@ == old(conn)@,
            Some(e) => match attestation_text(content@) {
                None => r == Err::<Resolution, BetError>(BetError::MalformedCommitment) && final(conn)@ == old(conn)@,
                Some(att) => if att.outcomes.len() == 0 {
                    r == Err::<Resolution, BetError>(BetError::NoOutcome) && final(conn)@ == old(conn)@
                } else {
                    &&& r is Ok
                    &&& signed_seq(r->Ok_0.published@) == event_messages(old(conn)@.sigs, old(conn)@.bets, e@, att)
                    &&& r->Ok_0.errors@ == event_errors(old(conn)@.sigs, old(conn)@.bets, e@, att)
                    &&& final(conn)@.bets == event_settled(old(conn)@.sigs, old(conn)@.bets, e@, att)
                },
            },
        },
{
    let e = match event {
        None => {
            return Err(BetError::NoEventTag);
        },
        Some(e) => e,
    };
    let attestation = match oracle_attestation_from_str(content) {
        None => {
            return Err(BetError::MalformedCommitment);
        },
        Some(a) => a,
    };
    if attestation.outcomes.len() == 0 {
        return Err(BetError::NoOutcome);
    }
    assert(attestation@.outcomes[0] == attestation.outcomes@[0]@);
    let scalar = attestation_scalar(&attestation);
    let ghost before = conn@;
    let ghost att = attestation@;
    let mut out = Resolution { published: Vec::new(), errors: Vec::new() };
    assert(signed_seq(out.published@) =~= Seq::<SignedMessageView>::empty());
    assert(out.errors@ =~= Seq::<SideError>::empty());
    let mut i: usize = 0;
    while i < conn.bets.len()
        invariant
            conn@.wf(),
            conn@.sigs == before.sigs,
            conn@.next_id == before.next_id,
            conn@.bets.len() == before.bets.len(),
            i <= before.bets.len(),
            att == attestation@,
            att.outcomes.len() > 0,
            att.outcomes[0] == attestation.outcomes@[0]@,
            bytes_view(scalar) == attested_scalar(att),
            scalar is Some ==> is_nonzero_scalar(scalar->0@),
            forall|j: int| i <= j < before.bets.len() ==> conn@.bets[j] == before.bets[j],
            forall|j: int| 0 <= j < i ==> conn@.bets[j] == event_settled(before.sigs, before.bets, e@, att)[j],
            signed_seq(out.published@) == event_messages(before.sigs, before.bets.take(i as int), e@, att),
            out.errors@ == event_errors(before.sigs, before.bets.take(i as int), e@, att),
        decreases before.bets.len() - i,
    {
        let ghost cur = conn@;
        assert(before.bets.take(i + 1).drop_last() =~= before.bets.take(i as int));
        assert(cur.bets[i as int] == conn.bets@[i as int]@);
        let applies = !conn.bets[i].needs_reply && crate::ledger::bytes_eq(&conn.bets[i].oracle_event_id, &e);
        if applies {
            let mut res = settle_at(conn, i, attestation.outcomes[0].as_str(), &scalar);
            let ghost prev = out.published@;
            let ghost prev_errors = out.errors@;
            out.published.append(&mut res.published);
            out.errors.append(&mut res.errors);
            assert(signed_seq(out.published@) =~= signed_seq(prev) + resolution(before.sigs, before.bets[i as int], att).1);
            assert(out.errors@ =~= prev_errors + resolution_errors(before.sigs, before.bets[i as int], att));
        } else {
            assert(signed_seq(out.published@) =~= signed_seq(out.published@) + Seq::<SignedMessageView>::empty());
            assert(out.errors@ =~= out.errors@ + Seq::<SideError>::empty());
        }
        i = i + 1;
    }
    assert(before.bets.take(i as int) =~= before.bets);
    assert(conn@.bets =~= event_settled(before.sigs, before.bets, e@, att));
    Ok(out)
}

/// Settling one side never changes the bet's id or its messages, and only
/// fills a side that was empty.
proof fn lemma_settle_side_frame(b: BetView, s: Option<SigView>, k: Option<Seq<u8>>)
    ensures
        ({
            let b1 = settle_side(b, s, k).0;
            &&& b1.id == b.id
            &&& b1.win_a == b.win_a && b1.lose_a == b.lose_a
            &&& b1.win_b == b.win_b && b1.lose_b == b.lose_b
            &&& b.win_outcome_event_id is Some ==> b1.win_outcome_event_id == b.win_outcome_event_id
            &&& b.lose_outcome_event_id is Some ==> b1.lose_outcome_event_id == b.lose_outcome_event_id
            &&& settle_side(b, s, k).1.len() <= 1
        }),
{
}

/// Settling a side again on a later state of the bet, which kept its
/// messages and every id that the first settling filled, changes nothing and
/// publishes nothing.
proof fn lemma_settle_side_again(b: BetView, later: BetView, s: Option<SigView>, k: Option<Seq<u8>>)
    requires
        later.win_a == b.win_a && later.lose_a == b.lose_a,
        later.win_b == b.win_b && later.lose_b == b.lose_b,
        settle_side(b, s, k).0.win_outcome_event_id is Some ==> later.win_outcome_event_id is Some,
        settle_side(b, s, k).0.lose_outcome_event_id is Some ==> later.lose_outcome_event_id is Some,
    ensures
        settle_side(later, s, k).0 == later,
        settle_side(later, s, k).1.len() == 0,
{
    match s {
        None => {},
        Some(sv) => {
            if column(b, sv.is_win) is None {
                match k {
                    None => {},
                    Some(kk) => {
                        assert(unsigned_for(later, sv.is_party_a, sv.is_win) == unsigned_for(b, sv.is_party_a, sv.is_win));
                        assert(side_message(later, sv, kk) == side_message(b, sv, kk));
                    },
                }
            }
        },
    }
}

/// Delivering the same attestation twice: the second delivery leaves the
/// bet as the first left it and publishes nothing; the first publishes at
/// most one message for each party.
pub proof fn lemma_resolution_idempotent(sigs: Seq<SigView>, b: BetView, att: AttestationView)
    requires
        att.outcomes.len() > 0,
    ensures
        ({
            let (b1, m1) = resolution(sigs, b, att);
            let (b2, m2) = resolution(sigs, b1, att);
            &&& b2 == b1
            &&& m2.len() == 0
            &&& m1.len() <= 2
        }),
{
    let o = att.outcomes[0];
    let sa = sig_for(sigs, b.id, o, true);
    let sb = sig_for(sigs, b.id, o, false);
    let k = attested_scalar(att);
    if sa is None && sb is None {
    } else {
        let (ba, ma) = settle_side(b, sa, k);
        let (bb, mb) = settle_side(ba, sb, k);
        lemma_settle_side_frame(b, sa, k);
        lemma_settle_side_frame(ba, sb, k);
        assert(bb.id == b.id);
        // The second delivery settles A's side on `bb`.
        lemma_settle_side_again(b, bb, sa, k);
        let (ca, na) = settle_side(bb, sa, k);
        assert(ca == bb);
        // and B's side on `bb` again.
        lemma_settle_side_again(ba, bb, sb, k);
        assert(na.len() == 0);
        assert(na + settle_side(ca, sb, k).1 =~= Seq::<SignedMessageView>::empty());
    }
}

/// When neither party signed for the attested outcome, an unsettled bet is
/// settled with the zero id on both sides and nothing is published.
pub proof fn lemma_unanticipated_outcome(sigs: Seq<SigView>, b: BetView, att: AttestationView)
    requires
        att.outcomes.len() > 0,
        sig_for(sigs, b.id, att.outcomes[0], true) is None,
        sig_for(sigs, b.id, att.outcomes[0], false) is None,
        b.win_outcome_event_id is None,
        b.lose_outcome_event_id is None,
    ensures
        resolution(sigs, b, att).0.win_outcome_event_id == Some(zero_id()),
        resolution(sigs, b, att).0.lose_outcome_event_id == Some(zero_id()),
        resolution(sigs, b, att).1.len() == 0,
{
}

/// Settling never changes which bet it is, its event, or whether it
/// waits for a reply.
proof fn lemma_resolution_frame(sigs: Seq<SigView>, b: BetView, att: AttestationView)
    ensures
        resolution(sigs, b, att).0.id == b.id,
        resolution(sigs, b, att).0.oracle_event_id == b.oracle_event_id,
        resolution(sigs, b, att).0.needs_reply == b.needs_reply,
{
}

proof fn lemma_event_messages_none(sigs: Seq<SigView>, bets: Seq<BetView>, event: Seq<u8>, att: AttestationView)
    requires
        forall|j: int| 0 <= j < bets.len() && event_applies(bets[j], event) ==> (#[trigger] resolution(sigs, bets[j], att)).1.len() == 0,
    ensures
        event_messages(sigs, bets, event, att).len() == 0,
    decreases bets.len(),
{
    if bets.len() > 0 {
        let init = bets.drop_last();
        assert forall|j: int| 0 <= j < init.len() && event_applies(init[j], event) implies (#[trigger] resolution(sigs, init[j], att)).1.len() == 0 by {
            assert(init[j] == bets[j]);
        }
        lemma_event_messages_none(sigs, init, event, att);
        assert(bets.last() == bets[bets.len() - 1]);
    }
}

/// Delivering the same attestation message twice: the second delivery
/// leaves every bet as the first left it and publishes nothing.
pub proof fn lemma_event_idempotent(sigs: Seq<SigView>, bets: Seq<BetView>, event: Seq<u8>, att: AttestationView)
    requires
        att.outcomes.len() > 0,
    ensures
        event_settled(sigs, event_settled(sigs, bets, event, att), event, att) == event_settled(sigs, bets, event, att),
        event_messages(sigs, event_settled(sigs, bets, event, att), event, att).len() == 0,
{
    let once = event_settled(sigs, bets, event, att);
    assert forall|j: int| 0 <= j < bets.len() implies (event_applies(#[trigger] once[j], event) <==> event_applies(bets[j], event)) && (event_applies(bets[j], event) ==> resolution(sigs, once[j], att) == (once[j], Seq::<SignedMessageView>::empty())) by {
        lemma_resolution_frame(sigs, bets[j], att);
        if event_applies(bets[j], event) {
            lemma_resolution_idempotent(sigs, bets[j], att);
            assert(resolution(sigs, once[j], att).1 =~= Seq::<SignedMessageView>::empty());
        }
    }
    assert(event_settled(sigs, once, event, att) =~= once);
    lemma_event_messages_none(sigs, once, event, att);
}

/// With an attestation whose scalar is unusable, nothing is recorded or
/// published, and each party that signed for the attested outcome, on a
/// side not yet recorded, is reported with `InvalidScalar`.
pub proof fn lemma_unusable_scalar_reported(sigs: Seq<SigView>, b: BetView, att: AttestationView, is_party_a: bool)
    requires
        att.outcomes.len() > 0,
        attested_scalar(att) is None,
        sig_for(sigs, b.id, att.outcomes[0], is_party_a) is Some,
        column(b, sig_for(sigs, b.id, att.outcomes[0], is_party_a)->0.is_win) is None,
    ensures
        resolution(sigs, b, att).0 == b,
        resolution(sigs, b, att).1.len() == 0,
        resolution_errors(sigs, b, att).contains(
            SideError { bet_id: b.id, is_party_a: Some(is_party_a), error: BetError::InvalidScalar },
        ),
{
    let o = att.outcomes[0];
    let sa = sig_for(sigs, b.id, o, true);
    let sb = sig_for(sigs, b.id, o, false);
    let want = SideError { bet_id: b.id, is_party_a: Some(is_party_a), error: BetError::InvalidScalar };
    let ea = side_errors(b, sa, None);
    let eb = side_errors(b, sb, None);
    assert(settle_side(b, sa, None).0 == b);
    assert(resolution_errors(sigs, b, att) == ea + eb);
    if is_party_a {
        assert(ea == seq![want]);
        assert((ea + eb)[0] == want);
    } else {
        assert(eb == seq![want]);
        assert((ea + eb)[ea.len() as int] == want);
    }
    assert(Seq::<SignedMessageView>::empty() + Seq::<SignedMessageView>::empty() =~= Seq::<SignedMessageView>::empty());
}

} // verus!
