//! The ledger's transactional operations: each checks everything it needs
//! before it changes anything, so a refused operation leaves no trace.
use vstd::prelude::*;
use crate::adaptor::{checked_of, check_sigs, distinct_outcomes, submission_error};
use crate::bet::{fresh_bet, is_completed, is_unfinished, replied};
use crate::codec::text_bytes;
use crate::ledger::{lemma_bet_position_unique, Bet, BetError, BetView, Ledger, SigView, bytes_eq};
use crate::message::{UnsignedMessage, is_read};
use crate::oracle::{AnnouncementView, announcement_read, oracle_announcement_from_str};
use crate::sig::sig_rows;
use crate::ledger::Sig;
use crate::codec::decode_bytes;

verus! {

/// The announcement that a submitted text stands for.
pub open spec fn announcement_text(s: Seq<char>) -> Option<AnnouncementView> {
    match text_bytes(s) {
        Some(b) => announcement_read(b),
        None => None,
    }
}

/// Why a new bet is refused, if it is.
pub open spec fn create_error(
    ann: Option<AnnouncementView>,
    signer: Seq<u8>,
    win_message: Seq<u8>,
    lose_message: Seq<u8>,
    sigs: Seq<(Seq<char>, Seq<u8>)>,
) -> Option<BetError> {
    match ann {
        None => Some(BetError::MalformedCommitment),
        Some(a) => submission_error(a, signer, win_message, lose_message, sigs),
    }
}

/// Active bets (replied, no win outcome yet) and completed ones.
pub struct Counts {
    pub active: i64,
    pub completed: i64,
}

/// Records a bet proposed by party A, with A's encrypted signatures, one per
/// outcome of the oracle's event.  Each signature must be by the author of
/// `win_a` and complete either `win_a` or `lose_a`.  Hands back the new id.
pub fn create_bet(
    conn: &mut Ledger,
    oracle_announcement: &str,
    win_a: UnsignedMessage,
    lose_a: UnsignedMessage,
    win_b: UnsignedMessage,
    lose_b: UnsignedMessage,
    oracle_event_id: Vec<u8>,
    sigs: &Vec<(String, Vec<u8>)>,
) -> (r: Result<i32, BetError>)
    requires
        old(conn)@.wf(),
        is_read(win_a@),
        is_read(lose_a@),
        is_read(win_b@),
        is_read(lose_b@),
        distinct_outcomes(sigs.deep_view()),
    ensures
        final(conn)@.wf(),
        ({
            let ann = announcement_text(oracle_announcement@);
            match create_error(ann, win_a@.pubkey, win_a@.id, lose_a@.id, sigs.deep_view()) {
                Some(e) => r == Err::<i32, BetError>(e) && final(conn)@ == old(conn)@,
                None => if old(conn)@.next_id == i32::MAX {
                    r == Err::<i32, BetError>(BetError::LedgerFull) && final(conn)@ == old(conn)@
                } else {
                    let id = old(conn)@.next_id;
                    &&& r == Ok::<i32, BetError>(id)
                    &&& final(conn)@.next_id == id + 1
                    &&& final(conn)@.bets == old(conn)@.bets.push(
                        fresh_bet(
                            id,
                            text_bytes(oracle_announcement@)->0,
                            ann->0,
                            win_a@,
                            lose_a@,
                            win_b@,
                            lose_b@,
                            oracle_event_id@,
                        ),
                    )
                    &&& final(conn)@.sigs == old(conn)@.sigs + sig_rows(
                        id,
                        true,
                        checked_of(ann->0, win_a@.pubkey, win_a@.id, lose_a@.id, sigs.deep_view()),
                    )
                },
            }
        }),
{
    let raw = decode_bytes(oracle_announcement);
    let announcement = match oracle_announcement_from_str(oracle_announcement) {
        Some(a) => a,
        None => {
            return Err(BetError::MalformedCommitment);
        },
    };
    let raw = match raw {
        Some(b) => b,
        None => {
            return Err(BetError::MalformedCommitment);
        },
    };
    let ghost cof = checked_of(announcement@, win_a@.pubkey, win_a@.id, lose_a@.id, sigs.deep_view());
    let checked = match check_sigs(&announcement, &win_a.pubkey, &win_a.id, &lose_a.id, sigs) {
        Ok(c) => c,
        Err(e) => {
            return Err(e);
        },
    };
    assert(crate::adaptor::checked_view(checked@) == cof);
    assert(cof.len() == sigs.deep_view().len());
    let bet = match Bet::create(conn, raw, announcement, win_a, lose_a, win_b, lose_b, oracle_event_id) {
        Ok(b) => b,
        Err(e) => {
            return Err(e);
        },
    };
    proof {
        assert forall|i: int, j: int| 0 <= i < j < checked@.len() implies #[trigger] checked@[i].outcome@ != #[trigger] checked@[j].outcome@ by {
            assert(checked@[i]@ == cof[i]);
            assert(checked@[j]@ == cof[j]);
            assert(sigs.deep_view()[i].0 != sigs.deep_view()[j].0);
        }
    }
    Sig::create_all(conn, bet.id, true, checked);
    Ok(bet.id)
}

/// Records party B's reply to a pending bet: B's encrypted signatures, one
/// per outcome, each by the author of `win_b` and completing `win_b` or
/// `lose_b`.  The bet becomes active, and its new state is handed back.
pub fn add_sigs(conn: &mut Ledger, bet_id: i32, sigs: &Vec<(String, Vec<u8>)>) -> (r: Result<Bet, BetError>)
    requires
        old(conn)@.wf(),
        distinct_outcomes(sigs.deep_view()),
    ensures
        final(conn)@.wf(),
        !old(conn)@.has_bet(bet_id) ==> r == Err::<Bet, BetError>(BetError::NotFound) && final(conn)@ == old(conn)@,
        forall|i: int| #[trigger] old(conn)@.bet_at(bet_id, i) ==> {
            let b = old(conn)@.bets[i];
            if !b.needs_reply {
                r == Err::<Bet, BetError>(BetError::AlreadyReplied) && final(conn)@ == old(conn)@
            } else {
                match submission_error(b.announcement, b.user_b, b.win_b.id, b.lose_b.id, sigs.deep_view()) {
                    Some(e) => r == Err::<Bet, BetError>(e) && final(conn)@ == old(conn)@,
                    None => {
                        &&& r is Ok
                        &&& r->Ok_0@ == replied(b)
                        &&& final(conn)@.bets == old(conn)@.bets.update(i, replied(b))
                        &&& final(conn)@.next_id == old(conn)@.next_id
                        &&& final(conn)@.sigs == old(conn)@.sigs + sig_rows(
                            bet_id,
                            false,
                            checked_of(b.announcement, b.user_b, b.win_b.id, b.lose_b.id, sigs.deep_view()),
                        )
                    },
                }
            }
        },
{
    let ghost before = conn@;
    let i = match conn.find_bet(bet_id) {
        Some(i) => i,
        None => {
            return Err(BetError::NotFound);
        },
    };
    proof {
        lemma_bet_position_unique(before, bet_id, i as int);
    }
    assert(before.bets[i as int] == conn.bets@[i as int]@);
    if !conn.bets[i].needs_reply {
        return Err(BetError::AlreadyReplied);
    }
    let ghost b = before.bets[i as int];
    let ghost cof = checked_of(b.announcement, b.user_b, b.win_b.id, b.lose_b.id, sigs.deep_view());
    let checked = {
        let bet = &conn.bets[i];
        match check_sigs(&bet.announcement, &bet.user_b, &bet.win_b.id, &bet.lose_b.id, sigs) {
            Ok(c) => c,
            Err(e) => {
                return Err(e);
            },
        }
    };
    assert(crate::adaptor::checked_view(checked@) == cof);
    assert(cof.len() == sigs.deep_view().len());
    proof {
        assert(crate::ledger::pending_ok(before, before.bets[i as int]));
    }
    let out = match Bet::set_needs_reply(conn, bet_id) {
        Ok(o) => o,
        Err(e) => {
            return Err(e);
        },
    };
    proof {
        assert forall|x: int, y: int| 0 <= x < y < checked@.len() implies #[trigger] checked@[x].outcome@ != #[trigger] checked@[y].outcome@ by {
            assert(checked@[x]@ == cof[x]);
            assert(checked@[y]@ == cof[y]);
            assert(sigs.deep_view()[x].0 != sigs.deep_view()[y].0);
        }
        assert forall|k: int| 0 <= k < conn@.sigs.len() implies !(#[trigger] conn@.sigs[k].bet_id == bet_id && conn@.sigs[k].is_party_a == false) by {
            if conn@.sigs[k].bet_id == bet_id {
                assert(before.sigs[k].bet_id == before.bets[i as int].id);
            }
        }
        assert forall|x: int| 0 <= x < conn@.bets.len() && #[trigger] conn@.bets[x].id == bet_id implies !conn@.bets[x].needs_reply by {
            if x != i {
                assert(before.bet_at(bet_id, x));
            }
        }
    }
    Sig::create_all(conn, bet_id, false, checked);
    Ok(out)
}

/// Withdraws a bet, with all its signatures, when `requester` is one of
/// its parties; anything else changes nothing.
pub fn reject_bet(conn: &mut Ledger, bet_id: i32, requester: &Vec<u8>)
    requires
        old(conn)@.wf(),
    ensures
        final(conn)@.wf(),
        !old(conn)@.has_bet(bet_id) ==> final(conn)@ == old(conn)@,
        forall|i: int| #[trigger] old(conn)@.bet_at(bet_id, i) ==> {
            let b = old(conn)@.bets[i];
            if requester@ == b.user_a || requester@ == b.user_b {
                &&& final(conn)@.bets == old(conn)@.bets.remove(i)
                &&& final(conn)@.sigs == old(conn)@.sigs.filter(|s: SigView| s.bet_id != bet_id)
                &&& final(conn)@.next_id == old(conn)@.next_id
            } else {
                final(conn)@ == old(conn)@
            }
        },
{
    let ghost before = conn@;
    match conn.find_bet(bet_id) {
        None => {},
        Some(i) => {
            proof {
                lemma_bet_position_unique(before, bet_id, i as int);
            }
            assert(before.bets[i as int] == conn.bets@[i as int]@);
            let party = bytes_eq(requester, &conn.bets[i].user_a) || bytes_eq(requester, &conn.bets[i].user_b);
            if party {
                Sig::delete_by_bet_id(conn, bet_id);
                let ghost mid = conn@;
                assert(mid.bet_at(bet_id, i as int));
                Bet::delete_by_bet_id(conn, bet_id);
            }
        },
    }
}

/// How many bets are active and how many are completed.
pub fn get_counts(conn: &Ledger) -> (r: Counts)
    requires
        conn@.wf(),
    ensures
        r.active == conn@.bets.filter(|b: BetView| is_unfinished(b)).len(),
        r.completed == conn@.bets.filter(|b: BetView| is_completed(b)).len(),
{
    let active = Bet::get_active_event_count(conn);
    let completed = Bet::get_completed_event_count(conn);
    Counts { active, completed }
}

/// A bet just created waits for its counterparty; once the counterparty's
/// reply is accepted it is active: no longer waiting, and with neither
/// outcome recorded.
pub proof fn lemma_create_then_reply(
    id: i32,
    oracle_announcement: Seq<u8>,
    announcement: AnnouncementView,
    win_a: crate::message::UnsignedMessageView,
    lose_a: crate::message::UnsignedMessageView,
    win_b: crate::message::UnsignedMessageView,
    lose_b: crate::message::UnsignedMessageView,
    oracle_event_id: Seq<u8>,
)
    ensures
        ({
            let b = fresh_bet(id, oracle_announcement, announcement, win_a, lose_a, win_b, lose_b, oracle_event_id);
            &&& b.needs_reply
            &&& !replied(b).needs_reply
            &&& replied(b).win_outcome_event_id is None
            &&& replied(b).lose_outcome_event_id is None
        }),
{
}

} // verus!
