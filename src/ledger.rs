//! The bet ledger: bets and the encrypted signatures that each party
//! contributed, with the invariants that every operation keeps.
use vstd::prelude::*;
use crate::oracle::{Announcement, AnnouncementView};
use crate::message::{UnsignedMessage, UnsignedMessageView, is_read};
use crate::codec::bytes_view;

verus! {

/// Why a ledger operation or a resolution was refused.
#[derive(PartialEq, Eq, Structural, Clone, Copy, Debug)]
pub enum BetError {
    /// The oracle announcement or attestation could not be decoded.
    MalformedCommitment,
    /// The oracle event is not an enumeration of outcomes.
    UnsupportedEvent,
    /// The number of signatures differs from the number of outcomes.
    OutcomeCountMismatch,
    /// A signature is neither a win nor a lose signature.
    VerificationFailed,
    /// No bet has this id.
    NotFound,
    /// The counterparty has already replied to this bet.
    AlreadyReplied,
    /// The bet awaits its counterparty and cannot be settled yet.
    NotActive,
    /// An outcome was already recorded with another value.
    AlreadySettled,
    /// The attestation carries no usable scalar.
    InvalidScalar,
    /// The attestation names no outcome.
    NoOutcome,
    /// The attestation message references no oracle event.
    NoEventTag,
    /// No further bet id can be assigned.
    LedgerFull,
}

/// One encrypted signature: which bet, which party, for which outcome, and
/// whether it completes the win or the lose message once decrypted.
pub struct Sig {
    pub bet_id: i32,
    pub is_party_a: bool,
    pub is_win: bool,
    pub sig: Vec<u8>,
    pub outcome: String,
}

pub struct SigView {
    pub bet_id: i32,
    pub is_party_a: bool,
    pub is_win: bool,
    pub sig: Seq<u8>,
    pub outcome: Seq<char>,
}

impl View for Sig {
    type V = SigView;

    open spec fn view(&self) -> SigView {
        SigView {
            bet_id: self.bet_id,
            is_party_a: self.is_party_a,
            is_win: self.is_win,
            sig: self.sig@,
            outcome: self.outcome@,
        }
    }
}

/// A two-party bet on one oracle event.
pub struct Bet {
    pub id: i32,
    /// The announcement's bytes, as submitted.
    pub oracle_announcement: Vec<u8>,
    pub announcement: Announcement,
    pub user_a: Vec<u8>,
    pub win_a: UnsignedMessage,
    pub lose_a: UnsignedMessage,
    pub user_b: Vec<u8>,
    pub win_b: UnsignedMessage,
    pub lose_b: UnsignedMessage,
    pub oracle_event_id: Vec<u8>,
    pub needs_reply: bool,
    pub win_outcome_event_id: Option<Vec<u8>>,
    pub lose_outcome_event_id: Option<Vec<u8>>,
}

pub struct BetView {
    pub id: i32,
    pub oracle_announcement: Seq<u8>,
    pub announcement: AnnouncementView,
    pub user_a: Seq<u8>,
    pub win_a: UnsignedMessageView,
    pub lose_a: UnsignedMessageView,
    pub user_b: Seq<u8>,
    pub win_b: UnsignedMessageView,
    pub lose_b: UnsignedMessageView,
    pub oracle_event_id: Seq<u8>,
    pub needs_reply: bool,
    pub win_outcome_event_id: Option<Seq<u8>>,
    pub lose_outcome_event_id: Option<Seq<u8>>,
}

impl View for Bet {
    type V = BetView;

    open spec fn view(&self) -> BetView {
        BetView {
            id: self.id,
            oracle_announcement: self.oracle_announcement@,
            announcement: self.announcement@,
            user_a: self.user_a@,
            win_a: self.win_a@,
            lose_a: self.lose_a@,
            user_b: self.user_b@,
            win_b: self.win_b@,
            lose_b: self.lose_b@,
            oracle_event_id: self.oracle_event_id@,
            needs_reply: self.needs_reply,
            win_outcome_event_id: bytes_view(self.win_outcome_event_id),
            lose_outcome_event_id: bytes_view(self.lose_outcome_event_id),
        }
    }
}

/// Bets and signatures, and the next id to assign.
pub struct Ledger {
    pub bets: Vec<Bet>,
    pub sigs: Vec<Sig>,
    pub next_id: i32,
}

pub struct LedgerView {
    pub bets: Seq<BetView>,
    pub sigs: Seq<SigView>,
    pub next_id: i32,
}

impl View for Ledger {
    type V = LedgerView;

    open spec fn view(&self) -> LedgerView {
        LedgerView {
            bets: self.bets@.map_values(|b: Bet| b@),
            sigs: self.sigs@.map_values(|s: Sig| s@),
            next_id: self.next_id,
        }
    }
}

/// Two signatures of one party for one outcome of one bet.
pub open spec fn same_key(s: SigView, t: SigView) -> bool {
    s.bet_id == t.bet_id && s.is_party_a == t.is_party_a && s.outcome == t.outcome
}

/// A bet still waiting for its counterparty has no counterparty signature
/// and no recorded outcome.
pub open spec fn pending_ok(l: LedgerView, b: BetView) -> bool {
    b.needs_reply ==> {
        &&& b.win_outcome_event_id is None
        &&& b.lose_outcome_event_id is None
        &&& forall|k: int|
            0 <= k < l.sigs.len() && #[trigger] l.sigs[k].bet_id == b.id ==> l.sigs[k].is_party_a
    }
}

/// All four payout messages of a bet agree with their texts.
pub open spec fn messages_read(b: BetView) -> bool {
    is_read(b.win_a) && is_read(b.lose_a) && is_read(b.win_b) && is_read(b.lose_b)
}

impl LedgerView {
    /// Bet ids are unique, positive and below the next id; each signature
    /// belongs to an id already handed out, and is the only one of its party
    /// for its outcome and bet; a pending bet is untouched by the
    /// counterparty and unsettled; every payout message agrees with its text.
    pub open spec fn wf(self) -> bool {
        &&& 0 < self.next_id
        &&& self.bets.len() < self.next_id
        &&& forall|i: int| 0 <= i < self.bets.len() ==> 0 < #[trigger] self.bets[i].id < self.next_id
        &&& forall|i: int, j: int|
            0 <= i < j < self.bets.len() ==> #[trigger] self.bets[i].id != #[trigger] self.bets[j].id
        &&& forall|k: int| 0 <= k < self.sigs.len() ==> #[trigger] self.sigs[k].bet_id < self.next_id
        &&& forall|k: int, m: int|
            0 <= k < m < self.sigs.len() ==> !same_key(#[trigger] self.sigs[k], #[trigger] self.sigs[m])
        &&& forall|i: int| 0 <= i < self.bets.len() ==> pending_ok(self, #[trigger] self.bets[i])
        &&& forall|i: int| 0 <= i < self.bets.len() ==> messages_read(#[trigger] self.bets[i])
    }

    /// The bet with this id sits at position `i`.
    pub open spec fn bet_at(self, id: i32, i: int) -> bool {
        0 <= i < self.bets.len() && self.bets[i].id == id
    }

    pub open spec fn has_bet(self, id: i32) -> bool {
        exists|i: int| self.bet_at(id, i)
    }
}

/// Ids are unique: the bet at `i` is the only one with its id.
pub proof fn lemma_bet_position_unique(l: LedgerView, id: i32, i: int)
    requires
        l.wf(),
        l.bet_at(id, i),
    ensures
        forall|j: int| #[trigger] l.bet_at(id, j) ==> j == i,
{
    assert forall|j: int| #[trigger] l.bet_at(id, j) implies j == i by {
        if j < i {
            assert(l.bets[j].id != l.bets[i].id);
        } else if j > i {
            assert(l.bets[i].id != l.bets[j].id);
        }
    }
}

/// Byte strings compared element by element.
pub fn bytes_eq(a: &Vec<u8>, b: &Vec<u8>) -> (r: bool)
    ensures
        r == (a@ == b@),
{
    if a.len() != b.len() {
        return false;
    }
    let mut i: usize = 0;
    while i < a.len()
        invariant
            a@.len() == b@.len(),
            i <= a@.len(),
            forall|k: int| 0 <= k < i ==> a@[k] == b@[k],
        decreases a.len() - i,
    {
        if a[i] != b[i] {
            return false;
        }
        i = i + 1;
    }
    assert(a@ =~= b@);
    true
}

pub fn copy_bytes_list(v: &Vec<Vec<u8>>) -> (r: Vec<Vec<u8>>)
    ensures
        r.deep_view() == v.deep_view(),
{
    let mut r: Vec<Vec<u8>> = Vec::new();
    let mut i: usize = 0;
    while i < v.len()
        invariant
            i <= v@.len(),
            r.deep_view() == v.deep_view().subrange(0, i as int),
        decreases v.len() - i,
    {
        let c = v[i].clone();
        assert(c@ =~= v@[i as int]@);
        assert(c.deep_view() =~= v@[i as int].deep_view());
        let ghost prev = r.deep_view();
        r.push(c);
        assert(r.deep_view() =~= prev.push(c.deep_view()));
        i = i + 1;
        assert(r.deep_view() =~= v.deep_view().subrange(0, i as int));
    }
    assert(v.deep_view().subrange(0, i as int) =~= v.deep_view());
    r
}

pub fn copy_strings(v: &Vec<String>) -> (r: Vec<String>)
    ensures
        r.deep_view() == v.deep_view(),
{
    let mut r: Vec<String> = Vec::new();
    let mut i: usize = 0;
    while i < v.len()
        invariant
            i <= v@.len(),
            r.deep_view() == v.deep_view().subrange(0, i as int),
        decreases v.len() - i,
    {
        let c = v[i].clone();
        assert(c.deep_view() == v@[i as int].deep_view());
        let ghost prev = r.deep_view();
        r.push(c);
        assert(r.deep_view() =~= prev.push(c.deep_view()));
        i = i + 1;
        assert(r.deep_view() =~= v.deep_view().subrange(0, i as int));
    }
    assert(v.deep_view().subrange(0, i as int) =~= v.deep_view());
    r
}

pub proof fn lemma_bytes_deep(v: Vec<u8>)
    ensures
        v.deep_view() == v@,
{
    assert(v.deep_view() =~= v@);
}

pub fn copy_opt_bytes(v: &Option<Vec<u8>>) -> (r: Option<Vec<u8>>)
    ensures
        bytes_view(r) == bytes_view(*v),
{
    match v {
        Some(b) => {
            let c = b.clone();
            assert(c@ =~= b@);
            Some(c)
        },
        None => None,
    }
}

impl Announcement {
    /// A copy of this announcement.
    pub fn duplicate(&self) -> (r: Announcement)
        ensures
            r@ == self@,
    {
        let outcomes = match &self.outcomes {
            Some(o) => Some(copy_strings(o)),
            None => None,
        };
        Announcement {
            oracle_public_key: self.oracle_public_key.clone(),
            nonces: copy_bytes_list(&self.nonces),
            outcomes,
        }
    }
}

impl Sig {
    /// A copy of this signature record.
    pub fn duplicate(&self) -> (r: Sig)
        ensures
            r@ == self@,
    {
        Sig {
            bet_id: self.bet_id,
            is_party_a: self.is_party_a,
            is_win: self.is_win,
            sig: self.sig.clone(),
            outcome: self.outcome.clone(),
        }
    }
}

impl Bet {
    /// A copy of this bet.
    pub fn duplicate(&self) -> (r: Bet)
        ensures
            r@ == self@,
    {
        Bet {
            id: self.id,
            oracle_announcement: self.oracle_announcement.clone(),
            announcement: self.announcement.duplicate(),
            user_a: self.user_a.clone(),
            win_a: self.win_a.duplicate(),
            lose_a: self.lose_a.duplicate(),
            user_b: self.user_b.clone(),
            win_b: self.win_b.duplicate(),
            lose_b: self.lose_b.duplicate(),
            oracle_event_id: self.oracle_event_id.clone(),
            needs_reply: self.needs_reply,
            win_outcome_event_id: copy_opt_bytes(&self.win_outcome_event_id),
            lose_outcome_event_id: copy_opt_bytes(&self.lose_outcome_event_id),
        }
    }
}

impl Ledger {
    /// An empty ledger.
    pub fn new() -> (r: Ledger)
        ensures
            r@.wf(),
            r@.bets.len() == 0,
            r@.sigs.len() == 0,
    {
        Ledger { bets: Vec::new(), sigs: Vec::new(), next_id: 1 }
    }

    /// The position of the bet with this id.
    pub fn find_bet(&self, id: i32) -> (r: Option<usize>)
        requires
            self@.wf(),
        ensures
            match r {
                Some(i) => self@.bet_at(id, i as int),
                None => !self@.has_bet(id),
            },
    {
        let mut i: usize = 0;
        while i < self.bets.len()
            invariant
                i <= self.bets@.len(),
                forall|k: int| 0 <= k < i ==> self.bets@[k].id != id,
            decreases self.bets.len() - i,
        {
            if self.bets[i].id == id {
                return Some(i);
            }
            i = i + 1;
        }
        None
    }
}

} // verus!
