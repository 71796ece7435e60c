//! Queries and updates of the bets in a ledger.
use vstd::prelude::*;
use crate::ledger::{lemma_bet_position_unique, Bet, BetError, BetView, Ledger, bytes_eq, copy_opt_bytes, lemma_bytes_deep, pending_ok};
use crate::message::{UnsignedMessage, UnsignedMessageView, is_read};
use crate::oracle::{Announcement, AnnouncementView};

verus! {

pub proof fn lemma_filter_step<A>(s: Seq<A>, p: spec_fn(A) -> bool, i: int)
    requires
        0 <= i < s.len(),
    ensures
        s.take(i + 1).filter(p) == (if p(s[i]) {
            s.take(i).filter(p).push(s[i])
        } else {
            s.take(i).filter(p)
        }),
{
    reveal(Seq::filter);
    assert(s.take(i + 1).drop_last() =~= s.take(i));
}

/// The questions that select bets.
pub enum BetQuery {
    /// Every bet on this oracle event.
    OracleEvent(Vec<u8>),
    /// Bets that wait for this key's reply.
    PendingFor(Vec<u8>),
    /// Replied bets that this key is a party to.
    ActiveFor(Vec<u8>),
}

pub open spec fn query_pred(q: BetQuery) -> spec_fn(BetView) -> bool {
    |b: BetView| query_holds(q, b)
}

pub open spec fn query_holds(q: BetQuery, b: BetView) -> bool {
    match q {
        BetQuery::OracleEvent(e) => b.oracle_event_id == e@,
        BetQuery::PendingFor(u) => b.needs_reply && b.user_b == u@,
        BetQuery::ActiveFor(u) => !b.needs_reply && (b.user_b == u@ || b.user_a == u@),
    }
}

/// A replied bet whose win outcome is not recorded yet.
pub open spec fn is_unfinished(b: BetView) -> bool {
    !b.needs_reply && b.win_outcome_event_id is None
}

/// A bet whose win outcome is recorded.
pub open spec fn is_completed(b: BetView) -> bool {
    b.win_outcome_event_id is Some
}

pub open spec fn opt_seq(o: Option<Seq<u8>>) -> Seq<Seq<u8>> {
    match o {
        Some(x) => seq![x],
        None => Seq::empty(),
    }
}

/// The recorded outcome ids of the bets, win before lose, bet by bet.
pub open spec fn outcome_ids(bets: Seq<BetView>) -> Seq<Seq<u8>>
    decreases bets.len(),
{
    if bets.len() == 0 {
        Seq::empty()
    } else {
        outcome_ids(bets.drop_last()) + opt_seq(bets.last().win_outcome_event_id) + opt_seq(
            bets.last().lose_outcome_event_id,
        )
    }
}

pub open spec fn with_win(b: BetView, id: Seq<u8>) -> BetView {
    BetView { win_outcome_event_id: Some(id), ..b }
}

pub open spec fn with_lose(b: BetView, id: Seq<u8>) -> BetView {
    BetView { lose_outcome_event_id: Some(id), ..b }
}

pub open spec fn replied(b: BetView) -> BetView {
    BetView { needs_reply: false, ..b }
}

/// What recording `id` as an outcome does to a bet whose recorded value is
/// `current`: nothing when it is the same, a refusal when it differs.
pub open spec fn record_result(b: BetView, current: Option<Seq<u8>>, id: Seq<u8>) -> Result<(), BetError> {
    if b.needs_reply {
        Err(BetError::NotActive)
    } else {
        match current {
            Some(x) => if x == id {
                Ok(())
            } else {
                Err(BetError::AlreadySettled)
            },
            None => Ok(()),
        }
    }
}

/// A bet as it is first recorded: party A made it, party B still has to
/// reply, and nothing is settled.
pub open spec fn fresh_bet(
    id: i32,
    oracle_announcement: Seq<u8>,
    announcement: AnnouncementView,
    win_a: UnsignedMessageView,
    lose_a: UnsignedMessageView,
    win_b: UnsignedMessageView,
    lose_b: UnsignedMessageView,
    oracle_event_id: Seq<u8>,
) -> BetView {
    BetView {
        id,
        oracle_announcement,
        announcement,
        user_a: win_a.pubkey,
        win_a,
        lose_a,
        user_b: win_b.pubkey,
        win_b,
        lose_b,
        oracle_event_id,
        needs_reply: true,
        win_outcome_event_id: None,
        lose_outcome_event_id: None,
    }
}

pub open spec fn bets_view(v: Seq<Bet>) -> Seq<BetView> {
    v.map_values(|b: Bet| b@)
}

impl Bet {
    fn holds(&self, q: &BetQuery) -> (r: bool)
        ensures
            r == query_holds(*q, self@),
    {
        match q {
            BetQuery::OracleEvent(e) => bytes_eq(&self.oracle_event_id, e),
            BetQuery::PendingFor(u) => self.needs_reply && bytes_eq(&self.user_b, u),
            BetQuery::ActiveFor(u) => !self.needs_reply && (bytes_eq(&self.user_b, u) || bytes_eq(
                &self.user_a,
                u,
            )),
        }
    }

    /// The bets that answer a query, in ledger order.
    pub fn select(conn: &Ledger, q: &BetQuery) -> (r: Vec<Bet>)
        ensures
            bets_view(r@) == conn@.bets.filter(query_pred(*q)),
    {
        let ghost all = conn@.bets;
        let mut r: Vec<Bet> = Vec::new();
        let mut i: usize = 0;
        while i < conn.bets.len()
            invariant
                i <= conn.bets@.len(),
                all == conn@.bets,
                bets_view(r@) == all.take(i as int).filter(query_pred(*q)),
            decreases conn.bets.len() - i,
        {
            proof {
                lemma_filter_step(all, query_pred(*q), i as int);
            }
            assert(all[i as int] == conn.bets@[i as int]@);
            let keep = conn.bets[i].holds(q);
            assert(keep == query_pred(*q)(all[i as int]));
            if keep {
                let b = conn.bets[i].duplicate();
                let ghost prev = r@;
                r.push(b);
                assert(bets_view(r@) =~= bets_view(prev).push(b@));
            }
            i = i + 1;
        }
        assert(all.take(i as int) =~= all);
        r
    }

    /// The bet with this id.
    pub fn get_by_id(conn: &Ledger, id: i32) -> (r: Option<Bet>)
        requires
            conn@.wf(),
        ensures
            match r {
                Some(b) => exists|i: int| conn@.bet_at(id, i) && b@ == conn@.bets[i],
                None => !conn@.has_bet(id),
            },
    {
        match conn.find_bet(id) {
            Some(i) => Some(conn.bets[i].duplicate()),
            None => None,
        }
    }

    /// Every bet on this oracle event, replied or not.
    pub fn get_by_oracle_event(conn: &Ledger, oracle_event_id: &Vec<u8>) -> (r: Vec<Bet>)
        ensures
            bets_view(r@) == conn@.bets.filter(
                |b: BetView| b.oracle_event_id == oracle_event_id@,
            ),
    {
        let q = BetQuery::OracleEvent(oracle_event_id.clone());
        let r = Bet::select(conn, &q);
        assert(query_pred(q) =~= (|b: BetView| b.oracle_event_id == oracle_event_id@));
        r
    }

    /// The bets that wait for this key's reply.
    pub fn get_pending_bets(conn: &Ledger, user: &Vec<u8>) -> (r: Vec<Bet>)
        ensures
            bets_view(r@) == conn@.bets.filter(|b: BetView| b.needs_reply && b.user_b == user@),
    {
        let q = BetQuery::PendingFor(user.clone());
        let r = Bet::select(conn, &q);
        assert(query_pred(q) =~= (|b: BetView| b.needs_reply && b.user_b == user@));
        r
    }

    /// The replied bets that this key is a party to.
    pub fn get_active_bets(conn: &Ledger, user: &Vec<u8>) -> (r: Vec<Bet>)
        ensures
            bets_view(r@) == conn@.bets.filter(
                |b: BetView| !b.needs_reply && (b.user_b == user@ || b.user_a == user@),
            ),
    {
        let q = BetQuery::ActiveFor(user.clone());
        let r = Bet::select(conn, &q);
        assert(query_pred(q) =~= (|b: BetView|
            !b.needs_reply && (b.user_b == user@ || b.user_a == user@)));
        r
    }

    /// The oracle events that replied, unsettled bets wait for, each once.
    pub fn get_unfinished_bets(conn: &Ledger) -> (r: Vec<Vec<u8>>)
        ensures
            forall|x: Seq<u8>|
                r.deep_view().contains(x) <==> exists|i: int|
                    0 <= i < conn@.bets.len() && is_unfinished(#[trigger] conn@.bets[i])
                        && conn@.bets[i].oracle_event_id == x,
            r.deep_view().no_duplicates(),
    {
        let mut r: Vec<Vec<u8>> = Vec::new();
        let mut i: usize = 0;
        while i < conn.bets.len()
            invariant
                i <= conn.bets@.len(),
                forall|x: Seq<u8>|
                    r.deep_view().contains(x) <==> exists|k: int|
                        0 <= k < i && is_unfinished(#[trigger] conn@.bets[k])
                            && conn@.bets[k].oracle_event_id == x,
                r.deep_view().no_duplicates(),
            decreases conn.bets.len() - i,
        {
            let b = &conn.bets[i];
            assert(conn@.bets[i as int] == b@);
            let ghost prev_outer = r.deep_view();
            if !b.needs_reply && b.win_outcome_event_id.is_none() {
                let mut seen = false;
                let mut j: usize = 0;
                while j < r.len()
                    invariant
                        j <= r@.len(),
                        seen == exists|m: int| 0 <= m < j && r.deep_view()[m] == b.oracle_event_id@,
                    decreases r.len() - j,
                {
                    proof {
                        lemma_bytes_deep(r@[j as int]);
                        assert(r.deep_view()[j as int] == r@[j as int].deep_view());
                    }
                    if bytes_eq(&r[j], &b.oracle_event_id) {
                        seen = true;
                    }
                    j = j + 1;
                }
                if !seen {
                    let e = b.oracle_event_id.clone();
                    assert(e@ =~= b.oracle_event_id@);
                    let ghost prev = r.deep_view();
                    proof {
                        lemma_bytes_deep(e);
                    }
                    r.push(e);
                    assert(r.deep_view() =~= prev.push(b.oracle_event_id@));
                    assert(r.deep_view().last() == b.oracle_event_id@);
                    assert(!prev.contains(b.oracle_event_id@));
                }
                assert(r.deep_view().contains(b.oracle_event_id@));
            }
            proof {
                let ii = i as int;
                let cur = r.deep_view();
                assert(cur == prev_outer || cur == prev_outer.push(conn@.bets[ii].oracle_event_id));
                assert(is_unfinished(conn@.bets[ii]) ==> cur.contains(conn@.bets[ii].oracle_event_id));
                assert forall|x: Seq<u8>|
                    cur.contains(x) <==> exists|k: int|
                        0 <= k < ii + 1 && is_unfinished(#[trigger] conn@.bets[k])
                            && conn@.bets[k].oracle_event_id == x by {
                    if cur.contains(x) {
                        if prev_outer.contains(x) {
                            let k = choose|k: int| 0 <= k < ii && is_unfinished(#[trigger] conn@.bets[k])
                                && conn@.bets[k].oracle_event_id == x;
                            assert(0 <= k < ii + 1);
                        } else {
                            let m = choose|m: int| 0 <= m < cur.len() && cur[m] == x;
                            assert(cur != prev_outer);
                            if m < prev_outer.len() {
                                assert(prev_outer[m] == x);
                                assert(prev_outer.contains(x));
                            }
                            assert(x == conn@.bets[ii].oracle_event_id);
                            assert(is_unfinished(conn@.bets[ii]));
                        }
                    }
                    if exists|k: int| 0 <= k < ii + 1 && is_unfinished(#[trigger] conn@.bets[k])
                            && conn@.bets[k].oracle_event_id == x {
                        let k = choose|k: int| 0 <= k < ii + 1 && is_unfinished(#[trigger] conn@.bets[k])
                            && conn@.bets[k].oracle_event_id == x;
                        if k < ii {
                            assert(prev_outer.contains(x));
                            let m = choose|m: int| 0 <= m < prev_outer.len() && prev_outer[m] == x;
                            assert(cur[m] == x);
                        }
                    }
                }
            }
            i = i + 1;
        }
        r
    }

    /// Marks the bet as replied to, and hands back its new state.
    pub fn set_needs_reply(conn: &mut Ledger, id: i32) -> (r: Result<Bet, BetError>)
        requires
            old(conn)@.wf(),
        ensures
            final(conn)@.wf(),
            final(conn)@.sigs == old(conn)@.sigs,
            final(conn)@.next_id == old(conn)@.next_id,
            match r {
                Ok(b) => exists|i: int|
                    old(conn)@.bet_at(id, i) && b@ == replied(old(conn)@.bets[i])
                        && final(conn)@.bets == old(conn)@.bets.update(i, b@),
                Err(e) => e == BetError::NotFound && !old(conn)@.has_bet(id) && final(conn)@
                    == old(conn)@,
            },
    {
        match conn.find_bet(id) {
            None => Err(BetError::NotFound),
            Some(i) => {
                let mut b = conn.bets[i].duplicate();
                b.needs_reply = false;
                let out = b.duplicate();
                let ghost before = conn@;
                conn.bets.set(i, b);
                assert(conn@.bets =~= before.bets.update(i as int, out@));
                assert(conn@.sigs =~= before.sigs);
                proof {
                    assert forall|k: int| 0 <= k < conn@.bets.len() implies pending_ok(
                        conn@,
                        #[trigger] conn@.bets[k],
                    ) by {
                        if k != i {
                            assert(pending_ok(before, before.bets[k]));
                        }
                    }
                }
                Ok(out)
            },
        }
    }

    /// Records the id of the completed win message.  Recording the same id
    /// again changes nothing; another id once one is recorded is refused.
    pub fn set_win_outcome_event_id(conn: &mut Ledger, id: i32, win_outcome_event_id: &Vec<u8>) -> (r: Result<(), BetError>)
        requires
            old(conn)@.wf(),
        ensures
            final(conn)@.wf(),
            final(conn)@.sigs == old(conn)@.sigs,
            final(conn)@.next_id == old(conn)@.next_id,
            !old(conn)@.has_bet(id) ==> r == Err::<(), BetError>(BetError::NotFound) && final(conn)@ == old(conn)@,
            forall|i: int| #[trigger] old(conn)@.bet_at(id, i) ==> {
                let b = old(conn)@.bets[i];
                &&& r == record_result(b, b.win_outcome_event_id, win_outcome_event_id@)
                &&& final(conn)@.bets == if r is Ok {
                    old(conn)@.bets.update(i, with_win(b, win_outcome_event_id@))
                } else {
                    old(conn)@.bets
                }
            },
    {
        Bet::record_outcome(conn, id, win_outcome_event_id, true)
    }

    /// Records the id of the completed lose message, as the win setter does.
    pub fn set_lose_outcome_event_id(conn: &mut Ledger, id: i32, lose_outcome_event_id: &Vec<u8>) -> (r: Result<(), BetError>)
        requires
            old(conn)@.wf(),
        ensures
            final(conn)@.wf(),
            final(conn)@.sigs == old(conn)@.sigs,
            final(conn)@.next_id == old(conn)@.next_id,
            !old(conn)@.has_bet(id) ==> r == Err::<(), BetError>(BetError::NotFound) && final(conn)@ == old(conn)@,
            forall|i: int| #[trigger] old(conn)@.bet_at(id, i) ==> {
                let b = old(conn)@.bets[i];
                &&& r == record_result(b, b.lose_outcome_event_id, lose_outcome_event_id@)
                &&& final(conn)@.bets == if r is Ok {
                    old(conn)@.bets.update(i, with_lose(b, lose_outcome_event_id@))
                } else {
                    old(conn)@.bets
                }
            },
    {
        Bet::record_outcome(conn, id, lose_outcome_event_id, false)
    }

    fn record_outcome(conn: &mut Ledger, id: i32, ev: &Vec<u8>, win: bool) -> (r: Result<(), BetError>)
        requires
            old(conn)@.wf(),
        ensures
            final(conn)@.wf(),
            final(conn)@.sigs == old(conn)@.sigs,
            final(conn)@.next_id == old(conn)@.next_id,
            !old(conn)@.has_bet(id) ==> r == Err::<(), BetError>(BetError::NotFound) && final(conn)@ == old(conn)@,
            forall|i: int| #[trigger] old(conn)@.bet_at(id, i) ==> {
                let b = old(conn)@.bets[i];
                let cur = if win { b.win_outcome_event_id } else { b.lose_outcome_event_id };
                &&& r == record_result(b, cur, ev@)
                &&& final(conn)@.bets == if r is Ok {
                    old(conn)@.bets.update(i, if win { with_win(b, ev@) } else { with_lose(b, ev@) })
                } else {
                    old(conn)@.bets
                }
            },
    {
        let ghost before = conn@;
        match conn.find_bet(id) {
            None => Err(BetError::NotFound),
            Some(i) => {
                proof {
                    lemma_bet_position_unique(before, id, i as int);
                }
                if conn.bets[i].needs_reply {
                    return Err(BetError::NotActive);
                }
                let cur = if win {
                    copy_opt_bytes(&conn.bets[i].win_outcome_event_id)
                } else {
                    copy_opt_bytes(&conn.bets[i].lose_outcome_event_id)
                };
                match cur {
                    Some(x) => {
                        if bytes_eq(&x, ev) {
                            assert(before.bets[i as int] == conn.bets@[i as int]@);
                            if win {
                                assert(with_win(before.bets[i as int], ev@) == before.bets[i as int]);
                                assert(before.bets.update(i as int, with_win(before.bets[i as int], ev@)) =~= before.bets);
                            } else {
                                assert(with_lose(before.bets[i as int], ev@) == before.bets[i as int]);
                                assert(before.bets.update(i as int, with_lose(before.bets[i as int], ev@)) =~= before.bets);
                            }
                            Ok(())
                        } else {
                            Err(BetError::AlreadySettled)
                        }
                    },
                    None => {
                        let mut b = conn.bets[i].duplicate();
                        let e = ev.clone();
                        assert(e@ =~= ev@);
                        if win {
                            b.win_outcome_event_id = Some(e);
                        } else {
                            b.lose_outcome_event_id = Some(e);
                        }
                        let ghost nb = b@;
                        conn.bets.set(i, b);
                        assert(conn@.bets =~= before.bets.update(i as int, nb));
                        assert(conn@.sigs =~= before.sigs);
                        proof {
                            assert forall|k: int| 0 <= k < conn@.bets.len() implies pending_ok(
                                conn@,
                                #[trigger] conn@.bets[k],
                            ) by {
                                if k != i {
                                    assert(pending_ok(before, before.bets[k]));
                                }
                            }
                        }
                        Ok(())
                    },
                }
            },
        }
    }

    fn count(conn: &Ledger, completed: bool) -> (r: i64)
        requires
            conn@.wf(),
        ensures
            completed ==> r == conn@.bets.filter(|b: BetView| is_completed(b)).len(),
            !completed ==> r == conn@.bets.filter(|b: BetView| is_unfinished(b)).len(),
    {
        let ghost all = conn@.bets;
        let ghost p = if completed {
            |b: BetView| is_completed(b)
        } else {
            |b: BetView| is_unfinished(b)
        };
        let mut n: i64 = 0;
        let mut i: usize = 0;
        while i < conn.bets.len()
            invariant
                i <= conn.bets@.len(),
                all == conn@.bets,
                conn@.wf(),
                p == (if completed {
                    |b: BetView| is_completed(b)
                } else {
                    |b: BetView| is_unfinished(b)
                }),
                n == all.take(i as int).filter(p).len(),
                n <= i,
            decreases conn.bets.len() - i,
        {
            proof {
                lemma_filter_step(all, p, i as int);
            }
            let b = &conn.bets[i];
            assert(all[i as int] == b@);
            let hit = if completed {
                b.win_outcome_event_id.is_some()
            } else {
                !b.needs_reply && b.win_outcome_event_id.is_none()
            };
            assert(hit == p(all[i as int]));
            if hit {
                n = n + 1;
            }
            i = i + 1;
        }
        assert(all.take(i as int) =~= all);
        n
    }

    /// How many replied bets have no recorded win outcome yet.
    pub fn get_active_event_count(conn: &Ledger) -> (r: i64)
        requires
            conn@.wf(),
        ensures
            r == conn@.bets.filter(|b: BetView| is_unfinished(b)).len(),
    {
        Bet::count(conn, false)
    }

    /// How many bets have a recorded win outcome.
    pub fn get_completed_event_count(conn: &Ledger) -> (r: i64)
        requires
            conn@.wf(),
        ensures
            r == conn@.bets.filter(|b: BetView| is_completed(b)).len(),
    {
        Bet::count(conn, true)
    }

    /// Every recorded outcome id, win before lose, bet by bet.
    pub fn get_event_ids(conn: &Ledger) -> (r: Vec<Vec<u8>>)
        ensures
            r.deep_view() == outcome_ids(conn@.bets),
    {
        let ghost all = conn@.bets;
        let mut r: Vec<Vec<u8>> = Vec::new();
        let mut i: usize = 0;
        while i < conn.bets.len()
            invariant
                i <= conn.bets@.len(),
                all == conn@.bets,
                r.deep_view() == outcome_ids(all.take(i as int)),
            decreases conn.bets.len() - i,
        {
            let b = &conn.bets[i];
            assert(all[i as int] == b@);
            assert(all.take(i + 1).drop_last() =~= all.take(i as int));
            let ghost prev = r.deep_view();
            match &b.win_outcome_event_id {
                Some(w) => {
                    let c = w.clone();
                    assert(c@ =~= w@);
                    proof {
                        lemma_bytes_deep(c);
                    }
                    r.push(c);
                },
                None => {},
            }
            let ghost mid = r.deep_view();
            assert(mid =~= prev + opt_seq(b@.win_outcome_event_id));
            match &b.lose_outcome_event_id {
                Some(l) => {
                    let c = l.clone();
                    assert(c@ =~= l@);
                    proof {
                        lemma_bytes_deep(c);
                    }
                    r.push(c);
                },
                None => {},
            }
            assert(r.deep_view() =~= mid + opt_seq(b@.lose_outcome_event_id));
            i = i + 1;
        }
        assert(all.take(i as int) =~= all);
        r
    }

    /// Records a new bet under the next id, waiting for party B.  The
    /// parties are the authors of the two win messages.
    pub fn create(
        conn: &mut Ledger,
        oracle_announcement: Vec<u8>,
        announcement: Announcement,
        win_a: UnsignedMessage,
        lose_a: UnsignedMessage,
        win_b: UnsignedMessage,
        lose_b: UnsignedMessage,
        oracle_event_id: Vec<u8>,
    ) -> (r: Result<Bet, BetError>)
        requires
            old(conn)@.wf(),
            is_read(win_a@),
            is_read(lose_a@),
            is_read(win_b@),
            is_read(lose_b@),
        ensures
            final(conn)@.wf(),
            final(conn)@.sigs == old(conn)@.sigs,
            old(conn)@.next_id == i32::MAX ==> r == Err::<Bet, BetError>(BetError::LedgerFull)
                && final(conn)@ == old(conn)@,
            old(conn)@.next_id < i32::MAX ==> {
                let b = fresh_bet(
                    old(conn)@.next_id,
                    oracle_announcement@,
                    announcement@,
                    win_a@,
                    lose_a@,
                    win_b@,
                    lose_b@,
                    oracle_event_id@,
                );
                &&& r is Ok
                &&& r->Ok_0@ == b
                &&& final(conn)@.bets == old(conn)@.bets.push(b)
                &&& final(conn)@.next_id == old(conn)@.next_id + 1
            },
    {
        if conn.next_id == i32::MAX {
            return Err(BetError::LedgerFull);
        }
        let ghost before = conn@;
        let user_a = win_a.pubkey.clone();
        let user_b = win_b.pubkey.clone();
        assert(user_a@ =~= win_a.pubkey@ && user_b@ =~= win_b.pubkey@);
        let bet = Bet {
            id: conn.next_id,
            oracle_announcement,
            announcement,
            user_a,
            win_a,
            lose_a,
            user_b,
            win_b,
            lose_b,
            oracle_event_id,
            needs_reply: true,
            win_outcome_event_id: None,
            lose_outcome_event_id: None,
        };
        let out = bet.duplicate();
        let ghost bv = bet@;
        conn.bets.push(bet);
        conn.next_id = conn.next_id + 1;
        assert(conn@.bets =~= before.bets.push(bv));
        assert(conn@.sigs =~= before.sigs);
        proof {
            assert forall|i: int| 0 <= i < conn@.bets.len() implies pending_ok(conn@, #[trigger] conn@.bets[i]) by {
                if i < before.bets.len() {
                    assert(pending_ok(before, before.bets[i]));
                } else {
                    assert forall|k: int| 0 <= k < conn@.sigs.len() && #[trigger] conn@.sigs[k].bet_id == conn@.bets[i].id implies conn@.sigs[k].is_party_a by {
                        assert(before.sigs[k].bet_id < before.next_id);
                    }
                }
            }
        }
        Ok(out)
    }

    /// Removes the bet with this id, if there is one.
    pub fn delete_by_bet_id(conn: &mut Ledger, id: i32)
        requires
            old(conn)@.wf(),
        ensures
            final(conn)@.wf(),
            final(conn)@.sigs == old(conn)@.sigs,
            final(conn)@.next_id == old(conn)@.next_id,
            !old(conn)@.has_bet(id) ==> final(conn)@ == old(conn)@,
            forall|i: int| #[trigger] old(conn)@.bet_at(id, i) ==> final(conn)@.bets == old(conn)@.bets.remove(i),
    {
        let ghost before = conn@;
        match conn.find_bet(id) {
            None => {},
            Some(i) => {
                proof {
                    lemma_bet_position_unique(before, id, i as int);
                }
                conn.bets.remove(i);
                assert(conn@.bets =~= before.bets.remove(i as int));
                assert(conn@.sigs =~= before.sigs);
                proof {
                    assert forall|k: int| 0 <= k < conn@.bets.len() implies pending_ok(conn@, #[trigger] conn@.bets[k]) by {
                        if k < i {
                            assert(pending_ok(before, before.bets[k]));
                        } else {
                            assert(pending_ok(before, before.bets[k + 1]));
                        }
                    }
                    assert forall|a: int, b: int| 0 <= a < b < conn@.bets.len() implies #[trigger] conn@.bets[a].id != #[trigger] conn@.bets[b].id by {
                        let a2 = if a < i { a } else { a + 1 };
                        let b2 = if b < i { b } else { b + 1 };
                        assert(before.bets[a2].id != before.bets[b2].id);
                    }
                    assert forall|k: int| 0 <= k < conn@.bets.len() implies 0 < #[trigger] conn@.bets[k].id < conn@.next_id by {
                        let k2 = if k < i { k } else { k + 1 };
                        assert(0 < before.bets[k2].id);
                    }
                }
            },
        }
    }

    /// The oracle announcement the bet is on.
    pub fn oracle_announcement(&self) -> (r: Announcement)
        ensures
            r@ == self@.announcement,
    {
        self.announcement.duplicate()
    }

    /// Party A's key.
    pub fn user_a(&self) -> (r: Vec<u8>)
        ensures
            r@ == self@.user_a,
    {
        let r = self.user_a.clone();
        assert(r@ =~= self.user_a@);
        r
    }

    /// Party B's key.
    pub fn user_b(&self) -> (r: Vec<u8>)
        ensures
            r@ == self@.user_b,
    {
        let r = self.user_b.clone();
        assert(r@ =~= self.user_b@);
        r
    }

    /// The message that pays party A when A wins.
    pub fn win_a(&self) -> (r: UnsignedMessage)
        ensures
            r@ == self@.win_a,
    {
        self.win_a.duplicate()
    }

    /// The message that pays out when party A loses.
    pub fn lose_a(&self) -> (r: UnsignedMessage)
        ensures
            r@ == self@.lose_a,
    {
        self.lose_a.duplicate()
    }

    /// The message that pays party B when B wins.
    pub fn win_b(&self) -> (r: UnsignedMessage)
        ensures
            r@ == self@.win_b,
    {
        self.win_b.duplicate()
    }

    /// The message that pays out when party B loses.
    pub fn lose_b(&self) -> (r: UnsignedMessage)
        ensures
            r@ == self@.lose_b,
    {
        self.lose_b.duplicate()
    }

    /// The oracle event the bet is on.
    pub fn oracle_event_id(&self) -> (r: Vec<u8>)
        ensures
            r@ == self@.oracle_event_id,
    {
        let r = self.oracle_event_id.clone();
        assert(r@ =~= self.oracle_event_id@);
        r
    }

    /// The id of the completed win message, once recorded.
    pub fn win_outcome_event_id(&self) -> (r: Option<Vec<u8>>)
        ensures
            crate::codec::bytes_view(r) == self@.win_outcome_event_id,
    {
        copy_opt_bytes(&self.win_outcome_event_id)
    }

    /// The id of the completed lose message, once recorded.
    pub fn lose_outcome_event_id(&self) -> (r: Option<Vec<u8>>)
        ensures
            crate::codec::bytes_view(r) == self@.lose_outcome_event_id,
    {
        copy_opt_bytes(&self.lose_outcome_event_id)
    }
}

} // verus!
