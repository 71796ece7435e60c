//! Classification of submitted encrypted signatures as win or lose.
use vstd::prelude::*;
use crate::oracle::{Announcement, AnnouncementView, adaptor_point, encrypted_sig_valid, outcome_point, verify_encrypted};
use crate::ledger::BetError;

verus! {

/// Which payout message an encrypted signature completes once decrypted.
#[derive(PartialEq, Eq, Structural, Clone, Copy, Debug)]
pub enum Classification {
    Win,
    Lose,
    Invalid,
}

/// One side when exactly one of the two checks holds; otherwise `Invalid`,
/// also when both hold, since the signature is then ambiguous.
pub open spec fn classification(win_ok: bool, lose_ok: bool) -> Classification {
    if win_ok && !lose_ok {
        Classification::Win
    } else if lose_ok && !win_ok {
        Classification::Lose
    } else {
        Classification::Invalid
    }
}

/// Whether `sig` is an encryption, under the point of `outcome`, of a
/// signature by `signer` over `message`.
pub open spec fn sig_encrypts(
    ann: AnnouncementView,
    outcome: Seq<char>,
    signer: Seq<u8>,
    message: Seq<u8>,
    sig: Seq<u8>,
) -> bool {
    match outcome_point(ann, outcome) {
        Some(point) => encrypted_sig_valid(signer, point, message, sig),
        None => false,
    }
}

pub open spec fn classify_spec(
    ann: AnnouncementView,
    outcome: Seq<char>,
    signer: Seq<u8>,
    win_message: Seq<u8>,
    lose_message: Seq<u8>,
    sig: Seq<u8>,
) -> Classification {
    classification(
        sig_encrypts(ann, outcome, signer, win_message, sig),
        sig_encrypts(ann, outcome, signer, lose_message, sig),
    )
}

/// Decides between two independent checks.
pub fn classify_checks(win_ok: bool, lose_ok: bool) -> (r: Classification)
    ensures
        r == classification(win_ok, lose_ok),
{
    if win_ok && !lose_ok {
        Classification::Win
    } else if lose_ok && !win_ok {
        Classification::Lose
    } else {
        Classification::Invalid
    }
}

/// Classifies an encrypted signature submitted for `outcome` by the holder of
/// the x-only key `signer`, against the ids of its win and lose messages.
pub fn classify(
    sig: &Vec<u8>,
    outcome: &str,
    signer: &Vec<u8>,
    win_message: &Vec<u8>,
    lose_message: &Vec<u8>,
    ann: &Announcement,
) -> (r: Classification)
    ensures
        r == classify_spec(ann@, outcome@, signer@, win_message@, lose_message@, sig@),
{
    match adaptor_point(ann, outcome) {
        Some(point) => {
            let win_ok = verify_encrypted(signer, &point, win_message, sig);
            let lose_ok = verify_encrypted(signer, &point, lose_message, sig);
            classify_checks(win_ok, lose_ok)
        },
        None => Classification::Invalid,
    }
}

/// A signature made under the outcome's point over the win message, and not
/// over the lose message, is classified as a win; in the mirror case, as a
/// loss.  It is never `Invalid`.
pub proof fn lemma_legitimate_signature_classified(
    ann: AnnouncementView,
    outcome: Seq<char>,
    signer: Seq<u8>,
    win_message: Seq<u8>,
    lose_message: Seq<u8>,
    sig: Seq<u8>,
)
    ensures
        sig_encrypts(ann, outcome, signer, win_message, sig) && !sig_encrypts(
            ann,
            outcome,
            signer,
            lose_message,
            sig,
        ) ==> classify_spec(ann, outcome, signer, win_message, lose_message, sig)
            == Classification::Win,
        sig_encrypts(ann, outcome, signer, lose_message, sig) && !sig_encrypts(
            ann,
            outcome,
            signer,
            win_message,
            sig,
        ) ==> classify_spec(ann, outcome, signer, win_message, lose_message, sig)
            == Classification::Lose,
{
}

/// A signature that is not a valid encryption under the outcome's point, for
/// either message, is classified `Invalid`.
pub proof fn lemma_foreign_signature_invalid(
    ann: AnnouncementView,
    outcome: Seq<char>,
    signer: Seq<u8>,
    win_message: Seq<u8>,
    lose_message: Seq<u8>,
    sig: Seq<u8>,
)
    requires
        !sig_encrypts(ann, outcome, signer, win_message, sig),
        !sig_encrypts(ann, outcome, signer, lose_message, sig),
    ensures
        classify_spec(ann, outcome, signer, win_message, lose_message, sig)
            == Classification::Invalid,
{
}

/// A submitted signature, once classified.
pub struct CheckedSig {
    pub outcome: String,
    pub sig: Vec<u8>,
    pub is_win: bool,
}

pub struct CheckedSigView {
    pub outcome: Seq<char>,
    pub sig: Seq<u8>,
    pub is_win: bool,
}

impl View for CheckedSig {
    type V = CheckedSigView;

    open spec fn view(&self) -> CheckedSigView {
        CheckedSigView { outcome: self.outcome@, sig: self.sig@, is_win: self.is_win }
    }
}

pub open spec fn checked_view(v: Seq<CheckedSig>) -> Seq<CheckedSigView> {
    v.map_values(|c: CheckedSig| c@)
}

/// No outcome label is submitted twice.
pub open spec fn distinct_outcomes(sigs: Seq<(Seq<char>, Seq<u8>)>) -> bool {
    forall|i: int, j: int| 0 <= i < j < sigs.len() ==> #[trigger] sigs[i].0 != #[trigger] sigs[j].0
}

/// Why a set of submitted signatures is refused, if it is: an event that is
/// not an enumeration, a count that differs from the number of outcomes
/// (decided before any signature is looked at), or a signature that
/// classifies as neither side.
pub open spec fn submission_error(
    ann: AnnouncementView,
    signer: Seq<u8>,
    win_message: Seq<u8>,
    lose_message: Seq<u8>,
    sigs: Seq<(Seq<char>, Seq<u8>)>,
) -> Option<BetError> {
    match ann.outcomes {
        None => Some(BetError::UnsupportedEvent),
        Some(outcomes) => if sigs.len() != outcomes.len() {
            Some(BetError::OutcomeCountMismatch)
        } else if exists|i: int|
            0 <= i < sigs.len() && classify_spec(
                ann,
                #[trigger] sigs[i].0,
                signer,
                win_message,
                lose_message,
                sigs[i].1,
            ) == Classification::Invalid {
            Some(BetError::VerificationFailed)
        } else {
            None
        },
    }
}

/// The classified form of accepted signatures.
pub open spec fn checked_of(
    ann: AnnouncementView,
    signer: Seq<u8>,
    win_message: Seq<u8>,
    lose_message: Seq<u8>,
    sigs: Seq<(Seq<char>, Seq<u8>)>,
) -> Seq<CheckedSigView> {
    Seq::new(
        sigs.len(),
        |i: int|
            CheckedSigView {
                outcome: sigs[i].0,
                sig: sigs[i].1,
                is_win: classify_spec(ann, sigs[i].0, signer, win_message, lose_message, sigs[i].1)
                    == Classification::Win,
            },
    )
}

/// Checks the signatures one party submits for a bet: one per outcome of
/// the oracle's event, each a win or a lose signature by `signer`.
pub fn check_sigs(
    ann: &Announcement,
    signer: &Vec<u8>,
    win_message: &Vec<u8>,
    lose_message: &Vec<u8>,
    sigs: &Vec<(String, Vec<u8>)>,
) -> (r: Result<Vec<CheckedSig>, BetError>)
    ensures
        match submission_error(ann@, signer@, win_message@, lose_message@, sigs.deep_view()) {
            Some(e) => r == Err::<Vec<CheckedSig>, BetError>(e),
            None => r is Ok && checked_view(r->Ok_0@) == checked_of(
                ann@,
                signer@,
                win_message@,
                lose_message@,
                sigs.deep_view(),
            ),
        },
{
    let n = match &ann.outcomes {
        None => {
            return Err(BetError::UnsupportedEvent);
        },
        Some(o) => o.len(),
    };
    assert(ann@.outcomes is Some && ann@.outcomes->0.len() == n);
    assert(sigs.deep_view().len() == sigs@.len());
    if sigs.len() != n {
        return Err(BetError::OutcomeCountMismatch);
    }
    let ghost subs = sigs.deep_view();
    let mut out: Vec<CheckedSig> = Vec::new();
    let mut i: usize = 0;
    while i < sigs.len()
        invariant
            i <= sigs@.len(),
            subs == sigs.deep_view(),
            subs.len() == sigs@.len(),
            ann@.outcomes is Some && ann@.outcomes->0.len() == sigs@.len(),
            forall|k: int|
                0 <= k < i ==> classify_spec(
                    ann@,
                    #[trigger] subs[k].0,
                    signer@,
                    win_message@,
                    lose_message@,
                    subs[k].1,
                ) != Classification::Invalid,
            checked_view(out@) == checked_of(ann@, signer@, win_message@, lose_message@, subs).take(
                i as int,
            ),
        decreases sigs.len() - i,
    {
        let (outcome, sig) = &sigs[i];
        assert(subs[i as int].0 == outcome@ && subs[i as int].1 =~= sig@);
        let c = classify(sig, outcome.as_str(), signer, win_message, lose_message, ann);
        if c == Classification::Invalid {
            assert(classify_spec(ann@, subs[i as int].0, signer@, win_message@, lose_message@, subs[i as int].1) == Classification::Invalid);
            assert(subs.len() == sigs@.len());
            return Err(BetError::VerificationFailed);
        }
        let s = sig.clone();
        assert(s@ =~= sig@);
        let ghost prev = out@;
        let item = CheckedSig { outcome: outcome.clone(), sig: s, is_win: c == Classification::Win };
        let ghost iv = item@;
        out.push(item);
        assert(checked_view(out@) =~= checked_view(prev).push(iv));
        assert(checked_view(out@) =~= checked_of(ann@, signer@, win_message@, lose_message@, subs).take(
            i + 1,
        ));
        i = i + 1;
    }
    assert(checked_of(ann@, signer@, win_message@, lose_message@, subs).take(i as int) =~= checked_of(
        ann@,
        signer@,
        win_message@,
        lose_message@,
        subs,
    ));
    Ok(out)
}

/// Submitting a number of signatures other than the event's number of
/// outcomes is refused as a count mismatch, whatever the signatures are.
pub proof fn lemma_count_mismatch_rejected(
    ann: AnnouncementView,
    signer: Seq<u8>,
    win_message: Seq<u8>,
    lose_message: Seq<u8>,
    sigs: Seq<(Seq<char>, Seq<u8>)>,
)
    requires
        ann.outcomes is Some,
        sigs.len() != ann.outcomes->0.len(),
    ensures
        submission_error(ann, signer, win_message, lose_message, sigs) == Some(BetError::OutcomeCountMismatch),
{
}

} // verus!
