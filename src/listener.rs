//! The decisions of the relay listener: which oracle events it subscribes
//! to, what it does with each notification, and what becomes of a
//! resolution that outlives its time bound.  The I/O is done by the caller,
//! which performs the returned action and feeds back the next event.
use vstd::prelude::*;
use crate::ledger::{BetError, bytes_eq};

verus! {

/// The message kind that oracle attestations are published under.
pub const ATTESTATION_KIND: u64 = 89;

/// How long one resolution may run before its result is discarded.
pub const RESOLVE_TIMEOUT_SECS: u64 = 120;

/// The oracle events that bets are waiting on, each once.
pub struct LiveSet {
    ids: Vec<Vec<u8>>,
}

impl View for LiveSet {
    type V = Set<Seq<u8>>;

    closed spec fn view(&self) -> Set<Seq<u8>> {
        self.ids.deep_view().to_set()
    }
}

impl LiveSet {
    pub closed spec fn wf(&self) -> bool {
        self.ids.deep_view().no_duplicates()
    }

    /// An empty set.
    pub fn new() -> (r: LiveSet)
        ensures
            r.wf(),
            r@ == Set::<Seq<u8>>::empty(),
    {
        let r = LiveSet { ids: Vec::new() };
        assert(r.ids.deep_view() =~= Seq::<Seq<u8>>::empty());
        r
    }

    /// Whether the set holds this id.
    pub fn contains(&self, id: &Vec<u8>) -> (r: bool)
        requires
            self.wf(),
        ensures
            r == self@.contains(id@),
    {
        let mut i: usize = 0;
        while i < self.ids.len()
            invariant
                i <= self.ids@.len(),
                forall|k: int| 0 <= k < i ==> self.ids.deep_view()[k] != id@,
            decreases self.ids.len() - i,
        {
            proof {
                crate::ledger::lemma_bytes_deep(self.ids@[i as int]);
            }
            assert(self.ids.deep_view()[i as int] == self.ids@[i as int].deep_view());
            if bytes_eq(&self.ids[i], id) {
                assert(self.ids.deep_view()[i as int] == id@);
                return true;
            }
            i = i + 1;
        }
        false
    }

    /// Adds an id; says whether the set changed, which is when watchers are
    /// told.
    pub fn insert(&mut self, id: Vec<u8>) -> (changed: bool)
        requires
            old(self).wf(),
        ensures
            final(self).wf(),
            final(self)@ == old(self)@.insert(id@),
            changed == !old(self)@.contains(id@),
    {
        if self.contains(&id) {
            assert(self@.insert(id@) =~= self@);
            return false;
        }
        let ghost prev = self.ids.deep_view();
        proof {
            crate::ledger::lemma_bytes_deep(id);
        }
        let ghost idv = id@;
        self.ids.push(id);
        assert(self.ids.deep_view() =~= prev.push(idv));
        assert(self.ids.deep_view().to_set() =~= prev.to_set().insert(idv)) by {
            assert forall|x: Seq<u8>| self.ids.deep_view().to_set().contains(x) <==> prev.to_set().insert(idv).contains(x) by {
                if prev.contains(x) {
                    let k = choose|k: int| 0 <= k < prev.len() && prev[k] == x;
                    assert(self.ids.deep_view()[k] == x);
                }
                if x == idv {
                    assert(self.ids.deep_view()[prev.len() as int] == x);
                }
            }
        }
        true
    }

    /// The ids, each once.
    pub fn ids(&self) -> (r: Vec<Vec<u8>>)
        requires
            self.wf(),
        ensures
            r.deep_view().to_set() == self@,
            r.deep_view().no_duplicates(),
    {
        crate::ledger::copy_bytes_list(&self.ids)
    }

    /// The set of the given ids.
    pub fn from_ids(ids: &Vec<Vec<u8>>) -> (r: LiveSet)
        ensures
            r.wf(),
            r@ == ids.deep_view().to_set(),
    {
        let mut r = LiveSet::new();
        let mut i: usize = 0;
        while i < ids.len()
            invariant
                i <= ids@.len(),
                r.wf(),
                r@ == ids.deep_view().take(i as int).to_set(),
            decreases ids.len() - i,
        {
            let c = ids[i].clone();
            assert(c@ =~= ids@[i as int]@);
            proof {
                crate::ledger::lemma_bytes_deep(ids@[i as int]);
            }
            assert(ids.deep_view()[i as int] == c@);
            r.insert(c);
            assert(ids.deep_view().take(i + 1) =~= ids.deep_view().take(i as int).push(c@));
            proof {
                assert(ids.deep_view().take(i + 1).to_set() =~= ids.deep_view().take(i as int).to_set().insert(c@)) by {
                    let s0 = ids.deep_view().take(i as int);
                    let s1 = ids.deep_view().take(i + 1);
                    assert forall|x: Seq<u8>| s1.to_set().contains(x) <==> s0.to_set().insert(c@).contains(x) by {
                        if s1.contains(x) {
                            let k = choose|k: int| 0 <= k < s1.len() && s1[k] == x;
                            if k < s0.len() {
                                assert(s0[k] == x);
                            }
                        }
                        if s0.contains(x) {
                            let k = choose|k: int| 0 <= k < s0.len() && s0[k] == x;
                            assert(s1[k] == x);
                        }
                        if x == c@ {
                            assert(s1[i as int] == x);
                        }
                    }
                }
            }
            i = i + 1;
        }
        assert(ids.deep_view().take(i as int) =~= ids.deep_view());
        r
    }
}

/// Where the listener stands.
#[derive(PartialEq, Eq, Structural, Clone, Copy, Debug)]
pub enum ListenerState {
    /// Connecting to the relays, or about to.
    Connecting,
    /// Subscribed with the live set as it was when the subscription was made.
    Subscribed,
    /// Shutting down: no more connections are made.
    Stopped,
}

/// What happened.
pub enum ListenerEvent {
    /// The relays are connected.
    Connected,
    /// The live set changed.
    LiveSetChanged,
    /// A message arrived, of this kind, whose own signature did or did not
    /// verify.
    Message { kind: u64, verified: bool },
    /// The relay pool shut down.
    RelayShutdown,
    /// The process is shutting down.
    Shutdown,
}

/// What the caller does next.
pub enum ListenerAction {
    /// Subscribe to attestations referencing exactly these events.
    Subscribe(Vec<Vec<u8>>),
    /// Hand the message to a resolution task of its own.
    Dispatch,
    /// Drop the subscription and connect again.
    Reconnect,
    /// Disconnect and stop.
    Stop,
    /// Nothing.
    Ignore,
}

pub enum ActionView {
    Subscribe(Set<Seq<u8>>),
    Dispatch,
    Reconnect,
    Stop,
    Ignore,
}

pub open spec fn action_view(a: ListenerAction) -> ActionView {
    match a {
        ListenerAction::Subscribe(ids) => ActionView::Subscribe(ids.deep_view().to_set()),
        ListenerAction::Dispatch => ActionView::Dispatch,
        ListenerAction::Reconnect => ActionView::Reconnect,
        ListenerAction::Stop => ActionView::Stop,
        ListenerAction::Ignore => ActionView::Ignore,
    }
}

/// A message is dispatched when it is an attestation whose signature holds.
pub open spec fn is_dispatched(kind: u64, verified: bool) -> bool {
    kind == ATTESTATION_KIND && verified
}

/// The listener's transition on one event, given the live set now.
pub open spec fn next(s: ListenerState, live: Set<Seq<u8>>, e: ListenerEvent) -> (ListenerState, ActionView) {
    match (s, e) {
        (ListenerState::Stopped, _) => (ListenerState::Stopped, ActionView::Ignore),
        (_, ListenerEvent::Shutdown) => (ListenerState::Stopped, ActionView::Stop),
        (ListenerState::Connecting, ListenerEvent::Connected) => (ListenerState::Subscribed, ActionView::Subscribe(live)),
        (ListenerState::Connecting, _) => (ListenerState::Connecting, ActionView::Ignore),
        (ListenerState::Subscribed, ListenerEvent::Message { kind, verified }) => if is_dispatched(kind, verified) {
            (ListenerState::Subscribed, ActionView::Dispatch)
        } else {
            (ListenerState::Subscribed, ActionView::Ignore)
        },
        (ListenerState::Subscribed, ListenerEvent::LiveSetChanged) => (ListenerState::Connecting, ActionView::Reconnect),
        (ListenerState::Subscribed, ListenerEvent::RelayShutdown) => (ListenerState::Connecting, ActionView::Reconnect),
        (ListenerState::Subscribed, ListenerEvent::Connected) => (ListenerState::Subscribed, ActionView::Ignore),
    }
}

/// One step of the listener.
pub fn step(s: ListenerState, live: &LiveSet, e: ListenerEvent) -> (r: (ListenerState, ListenerAction))
    requires
        live.wf(),
    ensures
        (r.0, action_view(r.1)) == next(s, live@, e),
{
    match (s, e) {
        (ListenerState::Stopped, _) => (ListenerState::Stopped, ListenerAction::Ignore),
        (_, ListenerEvent::Shutdown) => (ListenerState::Stopped, ListenerAction::Stop),
        (ListenerState::Connecting, ListenerEvent::Connected) => (ListenerState::Subscribed, ListenerAction::Subscribe(live.ids())),
        (ListenerState::Connecting, _) => (ListenerState::Connecting, ListenerAction::Ignore),
        (ListenerState::Subscribed, ListenerEvent::Message { kind, verified }) => if kind == ATTESTATION_KIND && verified {
            (ListenerState::Subscribed, ListenerAction::Dispatch)
        } else {
            (ListenerState::Subscribed, ListenerAction::Ignore)
        },
        (ListenerState::Subscribed, ListenerEvent::LiveSetChanged) => (ListenerState::Connecting, ListenerAction::Reconnect),
        (ListenerState::Subscribed, ListenerEvent::RelayShutdown) => (ListenerState::Connecting, ListenerAction::Reconnect),
        (ListenerState::Subscribed, ListenerEvent::Connected) => (ListenerState::Subscribed, ListenerAction::Ignore),
    }
}

/// A change of the live set while subscribed makes the listener reconnect,
/// and the subscription it then makes is for exactly the live set at that
/// moment, the updated one, no more and no less.
pub proof fn lemma_resubscribe_exact(before: Set<Seq<u8>>, updated: Set<Seq<u8>>)
    ensures
        next(ListenerState::Subscribed, before, ListenerEvent::LiveSetChanged) == (
            ListenerState::Connecting,
            ActionView::Reconnect,
        ),
        next(ListenerState::Connecting, updated, ListenerEvent::Connected) == (
            ListenerState::Subscribed,
            ActionView::Subscribe(updated),
        ),
{
}

/// What became of a resolution task.
#[derive(PartialEq, Eq, Structural, Clone, Copy, Debug)]
pub enum Verdict {
    /// It finished in time.
    Completed,
    /// It finished in time with this error, which is logged.
    Failed(BetError),
    /// It ran past the bound: whatever it produces is discarded.
    Abandoned,
    /// It is still running within the bound.
    Running,
}

/// Judges a resolution task after `elapsed_secs`, given its result if it
/// has one.  A task past the bound is abandoned even if a result came.
pub fn supervise(elapsed_secs: u64, result: Option<Result<(), BetError>>) -> (r: Verdict)
    ensures
        elapsed_secs >= RESOLVE_TIMEOUT_SECS ==> r == Verdict::Abandoned,
        elapsed_secs < RESOLVE_TIMEOUT_SECS ==> r == match result {
            None => Verdict::Running,
            Some(Ok(())) => Verdict::Completed,
            Some(Err(e)) => Verdict::Failed(e),
        },
{
    if elapsed_secs >= RESOLVE_TIMEOUT_SECS {
        Verdict::Abandoned
    } else {
        match result {
            None => Verdict::Running,
            Some(Ok(())) => Verdict::Completed,
            Some(Err(e)) => Verdict::Failed(e),
        }
    }
}

} // verus!
