//! Queries and updates of the encrypted signatures in a ledger.
use vstd::prelude::*;
use crate::adaptor::{CheckedSig, CheckedSigView, checked_view};
use crate::bet::lemma_filter_step;
use crate::ledger::{Ledger, Sig, SigView, pending_ok, same_key};

verus! {

pub open spec fn sig_matches(s: SigView, bet_id: i32, outcome: Seq<char>, is_party_a: bool) -> bool {
    s.bet_id == bet_id && s.outcome == outcome && s.is_party_a == is_party_a
}

/// The signature of one party for one outcome of one bet, if there is one.
pub open spec fn sig_for(sigs: Seq<SigView>, bet_id: i32, outcome: Seq<char>, is_party_a: bool) -> Option<SigView> {
    if exists|k: int| 0 <= k < sigs.len() && sig_matches(#[trigger] sigs[k], bet_id, outcome, is_party_a) {
        let k = choose|k: int| 0 <= k < sigs.len() && sig_matches(#[trigger] sigs[k], bet_id, outcome, is_party_a);
        Some(sigs[k])
    } else {
        None
    }
}

/// The rows that a party's classified signatures become.
pub open spec fn sig_rows(bet_id: i32, is_party_a: bool, checked: Seq<CheckedSigView>) -> Seq<SigView> {
    Seq::new(
        checked.len(),
        |i: int|
            SigView {
                bet_id,
                is_party_a,
                is_win: checked[i].is_win,
                sig: checked[i].sig,
                outcome: checked[i].outcome,
            },
    )
}

pub open spec fn sigs_view(v: Seq<Sig>) -> Seq<SigView> {
    v.map_values(|s: Sig| s@)
}

impl Sig {
    /// The encrypted signature's bytes.
    pub fn sig(&self) -> (r: Vec<u8>)
        ensures
            r@ == self@.sig,
    {
        let r = self.sig.clone();
        assert(r@ =~= self.sig@);
        r
    }

    /// The signature of one party for one outcome of one bet.
    pub fn get_by_params(conn: &Ledger, bet_id: i32, outcome: &str, is_party_a: bool) -> (r: Option<Sig>)
        requires
            conn@.wf(),
        ensures
            match r {
                Some(s) => sig_for(conn@.sigs, bet_id, outcome@, is_party_a) == Some(s@),
                None => sig_for(conn@.sigs, bet_id, outcome@, is_party_a) is None,
            },
    {
        let wanted = outcome.to_owned();
        let mut i: usize = 0;
        while i < conn.sigs.len()
            invariant
                i <= conn.sigs@.len(),
                wanted@ == outcome@,
                conn@.wf(),
                forall|k: int| 0 <= k < i ==> !sig_matches(#[trigger] conn@.sigs[k], bet_id, outcome@, is_party_a),
            decreases conn.sigs.len() - i,
        {
            let s = &conn.sigs[i];
            assert(conn@.sigs[i as int] == s@);
            if s.bet_id == bet_id && s.is_party_a == is_party_a && s.outcome == wanted {
                proof {
                    let ii = i as int;
                    assert(sig_matches(conn@.sigs[ii], bet_id, outcome@, is_party_a));
                    let k = choose|k: int| 0 <= k < conn@.sigs.len() && sig_matches(#[trigger] conn@.sigs[k], bet_id, outcome@, is_party_a);
                    if k != ii {
                        if k < ii {
                            assert(!same_key(conn@.sigs[k], conn@.sigs[ii]));
                        } else {
                            assert(!same_key(conn@.sigs[ii], conn@.sigs[k]));
                        }
                    }
                }
                return Some(s.duplicate());
            }
            i = i + 1;
        }
        None
    }

    /// Every signature of one bet, in ledger order.
    pub fn get_by_bet_id(conn: &Ledger, bet_id: i32) -> (r: Vec<Sig>)
        ensures
            sigs_view(r@) == conn@.sigs.filter(|s: SigView| s.bet_id == bet_id),
    {
        let ghost all = conn@.sigs;
        let mut r: Vec<Sig> = Vec::new();
        let mut i: usize = 0;
        while i < conn.sigs.len()
            invariant
                i <= conn.sigs@.len(),
                all == conn@.sigs,
                sigs_view(r@) == all.take(i as int).filter(|s: SigView| s.bet_id == bet_id),
            decreases conn.sigs.len() - i,
        {
            proof {
                lemma_filter_step(all, |s: SigView| s.bet_id == bet_id, i as int);
            }
            assert(all[i as int] == conn.sigs@[i as int]@);
            if conn.sigs[i].bet_id == bet_id {
                let s = conn.sigs[i].duplicate();
                let ghost prev = r@;
                r.push(s);
                assert(sigs_view(r@) =~= sigs_view(prev).push(s@));
            }
            i = i + 1;
        }
        assert(all.take(i as int) =~= all);
        r
    }

    /// Removes every signature of one bet.
    pub fn delete_by_bet_id(conn: &mut Ledger, bet_id: i32)
        requires
            old(conn)@.wf(),
        ensures
            final(conn)@.wf(),
            final(conn)@.bets == old(conn)@.bets,
            final(conn)@.next_id == old(conn)@.next_id,
            final(conn)@.sigs == old(conn)@.sigs.filter(|s: SigView| s.bet_id != bet_id),
    {
        let ghost before = conn@;
        let ghost all = conn@.sigs;
        let ghost p = |s: SigView| s.bet_id != bet_id;
        let mut kept: Vec<Sig> = Vec::new();
        let mut i: usize = 0;
        while i < conn.sigs.len()
            invariant
                i <= conn.sigs@.len(),
                all == conn@.sigs,
                before == conn@,
                p == (|s: SigView| s.bet_id != bet_id),
                sigs_view(kept@) == all.take(i as int).filter(p),
            decreases conn.sigs.len() - i,
        {
            proof {
                lemma_filter_step(all, p, i as int);
            }
            assert(all[i as int] == conn.sigs@[i as int]@);
            if conn.sigs[i].bet_id != bet_id {
                let s = conn.sigs[i].duplicate();
                let ghost prev = kept@;
                kept.push(s);
                assert(sigs_view(kept@) =~= sigs_view(prev).push(s@));
            }
            i = i + 1;
        }
        assert(all.take(i as int) =~= all);
        conn.sigs = kept;
        proof {
            let f = all.filter(p);
            assert forall|k: int| 0 <= k < f.len() implies all.contains(#[trigger] f[k]) by {
                all.lemma_filter_contains_rev(p, f[k]);
                assert(f.contains(f[k]));
            }
            lemma_filter_unique(all, p);
            assert forall|i: int| 0 <= i < conn@.bets.len() implies pending_ok(conn@, #[trigger] conn@.bets[i]) by {
                assert(pending_ok(before, before.bets[i]));
                if conn@.bets[i].needs_reply {
                    assert forall|k: int| 0 <= k < f.len() && #[trigger] f[k].bet_id == conn@.bets[i].id implies f[k].is_party_a by {
                        assert(all.contains(f[k]));
                        let j = choose|j: int| 0 <= j < all.len() && all[j] == f[k];
                        assert(before.sigs[j].bet_id == before.bets[i].id);
                    }
                }
            }
        }
    }

    /// Adds a party's classified signatures to a bet.
    pub fn create_all(conn: &mut Ledger, bet_id: i32, is_party_a: bool, sigs: Vec<CheckedSig>)
        requires
            old(conn)@.wf(),
            0 < bet_id < old(conn)@.next_id,
            forall|i: int, j: int|
                0 <= i < j < sigs@.len() ==> #[trigger] sigs@[i].outcome@ != #[trigger] sigs@[j].outcome@,
            forall|k: int|
                0 <= k < old(conn)@.sigs.len() ==> !(#[trigger] old(conn)@.sigs[k].bet_id == bet_id
                    && old(conn)@.sigs[k].is_party_a == is_party_a),
            !is_party_a ==> forall|i: int|
                0 <= i < old(conn)@.bets.len() && #[trigger] old(conn)@.bets[i].id == bet_id
                    ==> !old(conn)@.bets[i].needs_reply,
        ensures
            final(conn)@.wf(),
            final(conn)@.bets == old(conn)@.bets,
            final(conn)@.next_id == old(conn)@.next_id,
            final(conn)@.sigs == old(conn)@.sigs + sig_rows(bet_id, is_party_a, checked_view(sigs@)),
    {
        let ghost before = conn@;
        let ghost rows = sig_rows(bet_id, is_party_a, checked_view(sigs@));
        let mut i: usize = 0;
        while i < sigs.len()
            invariant
                i <= sigs@.len(),
                before.wf(),
                0 < bet_id < before.next_id,
                forall|a: int, b: int|
                    0 <= a < b < sigs@.len() ==> #[trigger] sigs@[a].outcome@ != #[trigger] sigs@[b].outcome@,
                forall|k: int|
                    0 <= k < before.sigs.len() ==> !(#[trigger] before.sigs[k].bet_id == bet_id
                        && before.sigs[k].is_party_a == is_party_a),
                !is_party_a ==> forall|b: int|
                    0 <= b < before.bets.len() && #[trigger] before.bets[b].id == bet_id
                        ==> !before.bets[b].needs_reply,
                rows == sig_rows(bet_id, is_party_a, checked_view(sigs@)),
                conn@.bets == before.bets,
                conn@.next_id == before.next_id,
                conn@.sigs == before.sigs + rows.take(i as int),
                conn@.wf(),
            decreases sigs.len() - i,
        {
            let c = &sigs[i];
            let row = Sig {
                bet_id,
                is_party_a,
                is_win: c.is_win,
                sig: c.sig.clone(),
                outcome: c.outcome.clone(),
            };
            assert(row.sig@ =~= c.sig@);
            assert(row@ == rows[i as int]);
            let ghost prev = conn@;
            conn.sigs.push(row);
            assert(conn@.sigs =~= prev.sigs.push(rows[i as int]));
            assert(conn@.sigs =~= before.sigs + rows.take(i + 1));
            proof {
                let n = prev.sigs.len();
                assert forall|k: int, m: int| 0 <= k < m < conn@.sigs.len() implies !same_key(
                    #[trigger] conn@.sigs[k],
                    #[trigger] conn@.sigs[m],
                ) by {
                    if m == n {
                        if k >= before.sigs.len() {
                            let a = k - before.sigs.len();
                            assert(conn@.sigs[k] == rows[a]);
                            assert(sigs@[a].outcome@ != sigs@[i as int].outcome@);
                        }
                    } else {
                        assert(conn@.sigs[k] == prev.sigs[k] && conn@.sigs[m] == prev.sigs[m]);
                    }
                }
                assert forall|b: int| 0 <= b < conn@.bets.len() implies pending_ok(conn@, #[trigger] conn@.bets[b]) by {
                    assert(pending_ok(prev, prev.bets[b]));
                    if conn@.bets[b].needs_reply {
                        assert forall|k: int| 0 <= k < conn@.sigs.len() && #[trigger] conn@.sigs[k].bet_id == conn@.bets[b].id implies conn@.sigs[k].is_party_a by {
                            if k < n {
                                assert(prev.sigs[k] == conn@.sigs[k]);
                            } else {
                                assert(before.bets[b].id == bet_id);
                            }
                        }
                    }
                }
            }
            i = i + 1;
        }
        assert(rows.take(i as int) =~= rows);
    }
}

/// Keeping part of a sequence of signatures keeps two of one key apart.
proof fn lemma_filter_unique(s: Seq<SigView>, p: spec_fn(SigView) -> bool)
    requires
        forall|k: int, m: int| 0 <= k < m < s.len() ==> !same_key(#[trigger] s[k], #[trigger] s[m]),
    ensures
        forall|k: int, m: int|
            0 <= k < m < s.filter(p).len() ==> !same_key(#[trigger] s.filter(p)[k], #[trigger] s.filter(p)[m]),
    decreases s.len(),
{
    reveal(Seq::filter);
    if s.len() > 0 {
        let init = s.drop_last();
        lemma_filter_unique(init, p);
        let f = init.filter(p);
        if p(s.last()) {
            assert forall|k: int| 0 <= k < f.len() implies !same_key(#[trigger] f[k], s.last()) by {
                init.lemma_filter_contains_rev(p, f[k]);
                assert(f.contains(f[k]));
                let j = choose|j: int| 0 <= j < init.len() && init[j] == f[k];
                assert(s[j] == init[j]);
            }
        }
    }
}

} // verus!
