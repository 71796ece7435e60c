use note_duel::adaptor::{classify_checks, Classification};
use note_duel::ledger::BetError;
use note_duel::listener::{
    step, supervise, ListenerAction, ListenerEvent, ListenerState, LiveSet, Verdict,
    ATTESTATION_KIND, RESOLVE_TIMEOUT_SECS,
};

#[test]
fn classification_of_checks() {
    assert_eq!(classify_checks(true, false), Classification::Win);
    assert_eq!(classify_checks(false, true), Classification::Lose);
    assert_eq!(classify_checks(false, false), Classification::Invalid);
    assert_eq!(classify_checks(true, true), Classification::Invalid);
}

#[test]
fn live_set_insert_reports_change() {
    let mut live = LiveSet::new();
    assert!(live.insert(vec![1u8; 32]));
    assert!(!live.insert(vec![1u8; 32]));
    assert!(live.insert(vec![2u8; 32]));
    assert_eq!(live.ids().len(), 2);
    assert!(live.contains(&vec![2u8; 32]));
    assert!(!live.contains(&vec![3u8; 32]));
}

#[test]
fn live_set_from_ids_drops_repeats() {
    let live = LiveSet::from_ids(&vec![vec![1u8], vec![2u8], vec![1u8]]);
    assert_eq!(live.ids(), vec![vec![1u8], vec![2u8]]);
}

fn subscribed_ids(a: ListenerAction) -> Vec<Vec<u8>> {
    match a {
        ListenerAction::Subscribe(ids) => ids,
        _ => panic!("expected a subscription"),
    }
}

#[test]
fn resubscribes_with_updated_set() {
    let mut live = LiveSet::from_ids(&vec![vec![1u8; 32]]);
    let (s, a) = step(ListenerState::Connecting, &live, ListenerEvent::Connected);
    assert_eq!(s, ListenerState::Subscribed);
    assert_eq!(subscribed_ids(a), vec![vec![1u8; 32]]);

    assert!(live.insert(vec![2u8; 32]));
    let (s, a) = step(s, &live, ListenerEvent::LiveSetChanged);
    assert_eq!(s, ListenerState::Connecting);
    assert!(matches!(a, ListenerAction::Reconnect));

    let (s, a) = step(s, &live, ListenerEvent::Connected);
    assert_eq!(s, ListenerState::Subscribed);
    let mut ids = subscribed_ids(a);
    ids.sort();
    assert_eq!(ids, vec![vec![1u8; 32], vec![2u8; 32]]);
}

#[test]
fn dispatches_only_verified_attestations() {
    let live = LiveSet::new();
    let (_, a) = step(
        ListenerState::Subscribed,
        &live,
        ListenerEvent::Message { kind: ATTESTATION_KIND, verified: true },
    );
    assert!(matches!(a, ListenerAction::Dispatch));
    let (_, a) = step(
        ListenerState::Subscribed,
        &live,
        ListenerEvent::Message { kind: ATTESTATION_KIND, verified: false },
    );
    assert!(matches!(a, ListenerAction::Ignore));
    let (_, a) = step(ListenerState::Subscribed, &live, ListenerEvent::Message { kind: 1, verified: true });
    assert!(matches!(a, ListenerAction::Ignore));
}

#[test]
fn reconnects_after_relay_shutdown_and_stops_on_shutdown() {
    let live = LiveSet::new();
    let (s, a) = step(ListenerState::Subscribed, &live, ListenerEvent::RelayShutdown);
    assert_eq!(s, ListenerState::Connecting);
    assert!(matches!(a, ListenerAction::Reconnect));
    let (s, a) = step(s, &live, ListenerEvent::Shutdown);
    assert_eq!(s, ListenerState::Stopped);
    assert!(matches!(a, ListenerAction::Stop));
    let (s, a) = step(s, &live, ListenerEvent::Connected);
    assert_eq!(s, ListenerState::Stopped);
    assert!(matches!(a, ListenerAction::Ignore));
}

#[test]
fn slow_resolution_is_abandoned() {
    assert_eq!(RESOLVE_TIMEOUT_SECS, 120);
    assert_eq!(supervise(121, Some(Ok(()))), Verdict::Abandoned);
    assert_eq!(supervise(120, None), Verdict::Abandoned);
    assert_eq!(supervise(3, Some(Ok(()))), Verdict::Completed);
    assert_eq!(supervise(119, None), Verdict::Running);
    assert_eq!(supervise(1, Some(Err(BetError::NoOutcome))), Verdict::Failed(BetError::NoOutcome));
}
