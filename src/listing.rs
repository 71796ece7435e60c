//! What a party is shown of its bets: for each bet, the outcomes on which it
//! wins and those on which its counterparty does.
use vstd::prelude::*;
use crate::bet::lemma_filter_step;
use crate::ledger::{Bet, BetView, Ledger, SigView, bytes_eq};
use crate::codec::{bytes_view, hex_bytes};

verus! {

/// A bet as shown to one of its parties.
pub struct UserBet {
    pub bet: Bet,
    pub user_outcomes: Vec<String>,
    pub counterparty_outcomes: Vec<String>,
}

/// The outcomes of one party's signatures on a bet; only its win
/// signatures when `win_only`.
pub open spec fn party_outcomes(sigs: Seq<SigView>, bet_id: i32, is_party_a: bool, win_only: bool) -> Set<Seq<char>> {
    Set::new(
        |o: Seq<char>|
            exists|k: int|
                0 <= k < sigs.len() && #[trigger] sigs[k].bet_id == bet_id && sigs[k].is_party_a == is_party_a
                    && (!win_only || sigs[k].is_win) && sigs[k].outcome == o,
    )
}

pub open spec fn strings_set(v: Vec<String>) -> Set<Seq<char>> {
    v.deep_view().to_set()
}

/// A pending bet is listed when its event enumerates outcomes.
pub open spec fn pending_listed(b: BetView, user: Seq<u8>) -> bool {
    b.needs_reply && b.user_b == user && b.announcement.outcomes is Some
}

/// On a pending bet, the outcomes that the asking party's own win
/// signatures cover are its own and the event's other outcomes its
/// counterparty's.  The asking party is party B, which has not signed yet,
/// so every outcome is shown as its own.
pub open spec fn pending_split(sigs: Seq<SigView>, b: BetView, user: Seq<u8>) -> (Set<Seq<char>>, Set<Seq<char>>) {
    let is_a = b.win_a.pubkey == user;
    let mine = party_outcomes(sigs, b.id, is_a, true);
    let rest = b.announcement.outcomes->0.to_set().difference(mine);
    if is_a { (mine, rest) } else { (rest, mine) }
}

/// On an active bet, each party's outcomes are those it signed for.
pub open spec fn active_split(sigs: Seq<SigView>, b: BetView, user: Seq<u8>) -> (Set<Seq<char>>, Set<Seq<char>>) {
    let a = party_outcomes(sigs, b.id, true, false);
    let bo = party_outcomes(sigs, b.id, false, false);
    if b.user_a == user { (a, bo) } else { (bo, a) }
}

fn string_in(v: &Vec<String>, s: &String) -> (r: bool)
    ensures
        r == v.deep_view().contains(s@),
{
    let mut i: usize = 0;
    while i < v.len()
        invariant
            i <= v@.len(),
            forall|k: int| 0 <= k < i ==> v.deep_view()[k] != s@,
        decreases v.len() - i,
    {
        assert(v.deep_view()[i as int] == v@[i as int]@);
        if v[i] == *s {
            return true;
        }
        i = i + 1;
    }
    false
}

fn push_string(v: &mut Vec<String>, s: &String)
    ensures
        final(v).deep_view() == old(v).deep_view().push(s@),
{
    let c = s.clone();
    let ghost prev = v.deep_view();
    v.push(c);
    assert(v.deep_view() =~= prev.push(s@));
}

/// The outcomes of one party's signatures on a bet.
fn collect_outcomes(conn: &Ledger, bet_id: i32, is_party_a: bool, win_only: bool) -> (r: Vec<String>)
    ensures
        strings_set(r) == party_outcomes(conn@.sigs, bet_id, is_party_a, win_only),
{
    let mut r: Vec<String> = Vec::new();
    let mut i: usize = 0;
    while i < conn.sigs.len()
        invariant
            i <= conn.sigs@.len(),
            forall|o: Seq<char>|
                r.deep_view().contains(o) <==> exists|k: int|
                    0 <= k < i && #[trigger] conn@.sigs[k].bet_id == bet_id && conn@.sigs[k].is_party_a
                        == is_party_a && (!win_only || conn@.sigs[k].is_win) && conn@.sigs[k].outcome == o,
        decreases conn.sigs.len() - i,
    {
        let s = &conn.sigs[i];
        assert(conn@.sigs[i as int] == s@);
        let ghost prev = r.deep_view();
        if s.bet_id == bet_id && s.is_party_a == is_party_a && (!win_only || s.is_win) {
            push_string(&mut r, &s.outcome);
        }
        proof {
            let ii = i as int;
            assert forall|o: Seq<char>|
                r.deep_view().contains(o) <==> exists|k: int|
                    0 <= k < ii + 1 && #[trigger] conn@.sigs[k].bet_id == bet_id && conn@.sigs[k].is_party_a
                        == is_party_a && (!win_only || conn@.sigs[k].is_win) && conn@.sigs[k].outcome == o by {
                let hit = conn@.sigs[ii].bet_id == bet_id && conn@.sigs[ii].is_party_a == is_party_a
                    && (!win_only || conn@.sigs[ii].is_win);
                assert(hit ==> r.deep_view() == prev.push(s.outcome@));
                assert(!hit ==> r.deep_view() == prev);
                if r.deep_view().contains(o) {
                    let m = choose|m: int| 0 <= m < r.deep_view().len() && r.deep_view()[m] == o;
                    if m < prev.len() {
                        assert(prev[m] == o);
                        assert(prev.contains(o));
                        let k = choose|k: int|
                            0 <= k < ii && #[trigger] conn@.sigs[k].bet_id == bet_id && conn@.sigs[k].is_party_a
                                == is_party_a && (!win_only || conn@.sigs[k].is_win) && conn@.sigs[k].outcome == o;
                        assert(0 <= k < ii + 1);
                    } else {
                        assert(hit && o == conn@.sigs[ii].outcome);
                    }
                }
                if exists|k: int|
                    0 <= k < ii + 1 && #[trigger] conn@.sigs[k].bet_id == bet_id && conn@.sigs[k].is_party_a
                        == is_party_a && (!win_only || conn@.sigs[k].is_win) && conn@.sigs[k].outcome == o {
                    let k = choose|k: int|
                        0 <= k < ii + 1 && #[trigger] conn@.sigs[k].bet_id == bet_id && conn@.sigs[k].is_party_a
                            == is_party_a && (!win_only || conn@.sigs[k].is_win) && conn@.sigs[k].outcome == o;
                    if k < ii {
                        assert(prev.contains(o));
                        let m = choose|m: int| 0 <= m < prev.len() && prev[m] == o;
                        assert(r.deep_view()[m] == o);
                    } else {
                        assert(r.deep_view()[prev.len() as int] == o);
                    }
                }
            }
        }
        i = i + 1;
    }
    proof {
        assert forall|o: Seq<char>| strings_set(r).contains(o) <==> party_outcomes(conn@.sigs, bet_id, is_party_a, win_only).contains(o) by {
            if exists|k: int|
                0 <= k < conn@.sigs.len() && #[trigger] conn@.sigs[k].bet_id == bet_id && conn@.sigs[k].is_party_a == is_party_a
                    && (!win_only || conn@.sigs[k].is_win) && conn@.sigs[k].outcome == o {
                assert(r.deep_view().contains(o));
            }
        }
        assert(strings_set(r) =~= party_outcomes(conn@.sigs, bet_id, is_party_a, win_only));
    }
    r
}

/// The strings of `all` that `taken` does not hold.
fn outcomes_except(all: &Vec<String>, taken: &Vec<String>) -> (r: Vec<String>)
    ensures
        strings_set(r) == strings_set(*all).difference(strings_set(*taken)),
{
    let mut r: Vec<String> = Vec::new();
    let mut i: usize = 0;
    while i < all.len()
        invariant
            i <= all@.len(),
            forall|o: Seq<char>|
                r.deep_view().contains(o) <==> (all.deep_view().take(i as int).contains(o) && !taken.deep_view().contains(o)),
        decreases all.len() - i,
    {
        let ghost prev = r.deep_view();
        assert(all.deep_view()[i as int] == all@[i as int]@);
        if !string_in(taken, &all[i]) {
            push_string(&mut r, &all[i]);
        }
        proof {
            let t0 = all.deep_view().take(i as int);
            let t1 = all.deep_view().take(i + 1);
            assert(t1 =~= t0.push(all@[i as int]@));
            assert forall|o: Seq<char>|
                r.deep_view().contains(o) <==> (t1.contains(o) && !taken.deep_view().contains(o)) by {
                if r.deep_view().contains(o) {
                    let m = choose|m: int| 0 <= m < r.deep_view().len() && r.deep_view()[m] == o;
                    if m < prev.len() {
                        assert(prev[m] == o);
                        assert(prev.contains(o));
                        let q = choose|q: int| 0 <= q < t0.len() && t0[q] == o;
                        assert(t1[q] == o);
                    } else {
                        assert(t1[i as int] == o);
                    }
                }
                if t1.contains(o) && !taken.deep_view().contains(o) {
                    let q = choose|q: int| 0 <= q < t1.len() && t1[q] == o;
                    if q < i {
                        assert(t0[q] == o);
                        assert(prev.contains(o));
                        let m = choose|m: int| 0 <= m < prev.len() && prev[m] == o;
                        assert(r.deep_view()[m] == o);
                    } else {
                        assert(r.deep_view()[prev.len() as int] == o);
                    }
                }
            }
        }
        i = i + 1;
    }
    assert(all.deep_view().take(i as int) =~= all.deep_view());
    assert(strings_set(r) =~= strings_set(*all).difference(strings_set(*taken)));
    r
}

pub open spec fn listed_bets(v: Seq<UserBet>) -> Seq<BetView> {
    v.map_values(|u: UserBet| u.bet@)
}

/// The bets waiting for `user`'s reply whose events enumerate outcomes,
/// each with the outcomes on which `user` and its counterparty win.
pub fn list_pending_events_impl(conn: &Ledger, user: &Vec<u8>) -> (r: Vec<UserBet>)
    ensures
        listed_bets(r@) == conn@.bets.filter(|b: BetView| pending_listed(b, user@)),
        forall|j: int| 0 <= j < r@.len() ==> (strings_set(#[trigger] r@[j].user_outcomes), strings_set(
            r@[j].counterparty_outcomes,
        )) == pending_split(conn@.sigs, r@[j].bet@, user@),
{
    let ghost all = conn@.bets;
    let mut r: Vec<UserBet> = Vec::new();
    let mut i: usize = 0;
    while i < conn.bets.len()
        invariant
            i <= conn.bets@.len(),
            all == conn@.bets,
            listed_bets(r@) == all.take(i as int).filter(|b: BetView| pending_listed(b, user@)),
            forall|j: int| 0 <= j < r@.len() ==> (strings_set(#[trigger] r@[j].user_outcomes), strings_set(
                r@[j].counterparty_outcomes,
            )) == pending_split(conn@.sigs, r@[j].bet@, user@),
        decreases conn.bets.len() - i,
    {
        proof {
            lemma_filter_step(all, |b: BetView| pending_listed(b, user@), i as int);
        }
        let b = &conn.bets[i];
        assert(all[i as int] == b@);
        if b.needs_reply && bytes_eq(&b.user_b, user) && b.announcement.outcomes.is_some() {
            let all_outcomes = match &b.announcement.outcomes {
                Some(o) => o,
                None => {
                    i = i + 1;
                    continue;
                },
            };
            let is_a = bytes_eq(&b.win_a.pubkey, user);
            let mine = collect_outcomes(conn, b.id, is_a, true);
            let rest = outcomes_except(all_outcomes, &mine);
            let ghost split = pending_split(conn@.sigs, b@, user@);
            let entry = if is_a {
                UserBet { bet: b.duplicate(), user_outcomes: mine, counterparty_outcomes: rest }
            } else {
                UserBet { bet: b.duplicate(), user_outcomes: rest, counterparty_outcomes: mine }
            };
            assert((strings_set(entry.user_outcomes), strings_set(entry.counterparty_outcomes)) == split);
            let ghost prev = r@;
            let ghost ev = entry.bet@;
            r.push(entry);
            assert(listed_bets(r@) =~= listed_bets(prev).push(ev));
        }
        i = i + 1;
    }
    assert(all.take(i as int) =~= all);
    r
}

/// The replied bets that `user` is a party to, each with the outcomes that
/// `user` and its counterparty signed for.
pub fn list_events_impl(conn: &Ledger, user: &Vec<u8>) -> (r: Vec<UserBet>)
    ensures
        listed_bets(r@) == conn@.bets.filter(
            |b: BetView| !b.needs_reply && (b.user_b == user@ || b.user_a == user@),
        ),
        forall|j: int| 0 <= j < r@.len() ==> (strings_set(#[trigger] r@[j].user_outcomes), strings_set(
            r@[j].counterparty_outcomes,
        )) == active_split(conn@.sigs, r@[j].bet@, user@),
{
    let ghost all = conn@.bets;
    let mut r: Vec<UserBet> = Vec::new();
    let mut i: usize = 0;
    while i < conn.bets.len()
        invariant
            i <= conn.bets@.len(),
            all == conn@.bets,
            listed_bets(r@) == all.take(i as int).filter(
                |b: BetView| !b.needs_reply && (b.user_b == user@ || b.user_a == user@),
            ),
            forall|j: int| 0 <= j < r@.len() ==> (strings_set(#[trigger] r@[j].user_outcomes), strings_set(
                r@[j].counterparty_outcomes,
            )) == active_split(conn@.sigs, r@[j].bet@, user@),
        decreases conn.bets.len() - i,
    {
        proof {
            lemma_filter_step(
                all,
                |b: BetView| !b.needs_reply && (b.user_b == user@ || b.user_a == user@),
                i as int,
            );
        }
        let b = &conn.bets[i];
        assert(all[i as int] == b@);
        if !b.needs_reply && (bytes_eq(&b.user_b, user) || bytes_eq(&b.user_a, user)) {
            let a_outcomes = collect_outcomes(conn, b.id, true, false);
            let b_outcomes = collect_outcomes(conn, b.id, false, false);
            let entry = if bytes_eq(&b.user_a, user) {
                UserBet { bet: b.duplicate(), user_outcomes: a_outcomes, counterparty_outcomes: b_outcomes }
            } else {
                UserBet { bet: b.duplicate(), user_outcomes: b_outcomes, counterparty_outcomes: a_outcomes }
            };
            let ghost prev = r@;
            let ghost ev = entry.bet@;
            r.push(entry);
            assert(listed_bets(r@) =~= listed_bets(prev).push(ev));
        }
        i = i + 1;
    }
    assert(all.take(i as int) =~= all);
    r
}

/// A request for the bets of one party, named by its key in hexadecimal.
pub struct ListEventsRequest {
    pub pubkey: String,
}

/// The key that a hexadecimal text names: the first 32 bytes of a text of
/// hexadecimal digit pairs, either case, at least 32 bytes long.  No check
/// that the key is a point of the curve is made.
pub open spec fn public_key_hex(s: Seq<char>) -> Option<Seq<u8>> {
    match hex_bytes(s) {
        Some(b) => if b.len() >= 32 {
            Some(b.take(32))
        } else {
            None
        },
        None => None,
    }
}

/// Relies on nostr's `PublicKey::from_hex`, which decodes with faster-hex's
/// `hex_decode` into 32 bytes: the whole text must be digit pairs, of
/// either case, and at least 64 digits; the first 32 bytes are kept.
#[verifier::external_body]
fn parse_public_key(s: &str) -> (r: Option<Vec<u8>>)
    ensures
        bytes_view(r) == public_key_hex(s@),
{
    nostr::key::PublicKey::from_hex(s).ok().map(|k| k.to_bytes().to_vec())
}

impl ListEventsRequest {
    /// The key of the party asking, if the text names one.
    pub fn user_key(&self) -> (r: Option<Vec<u8>>)
        ensures
            bytes_view(r) == public_key_hex(self.pubkey@),
    {
        parse_public_key(self.pubkey.as_str())
    }
}

} // verus!
