use yestary::issuer::{Action, DeviceGate, Event, IssueError, Issuance, Stage, UnlockResult};

fn run(events: Vec<Event>) -> (Issuance, Vec<Action>) {
    let (mut s, first) = Issuance::new();
    let mut actions = vec![first];
    for e in events {
        actions.push(s.step(e));
    }
    (s, actions)
}

fn success_events(text: &str) -> Vec<Event> {
    vec![
        Event::DevicesListed(1),
        Event::SessionOpened(true),
        Event::Identified(true),
        Event::Unlock(UnlockResult::Unlocked),
        Event::SignerObtained(true),
        Event::EnvelopeBuilt(true),
        Event::Armored(Some(text.to_string())),
    ]
}

fn last_finish(actions: &[Action]) -> (bool, Result<String, IssueError>) {
    match actions.last().unwrap() {
        Action::Finish { release_session, result } => (*release_session, result.clone()),
        other => panic!("not finished: {:?}", other),
    }
}

#[test]
fn successful_issuance() {
    let (s, actions) = run(success_events("-----BEGIN PGP MESSAGE-----"));
    assert_eq!(s.stage, Stage::Finished);
    assert!(!s.session_open);
    assert!(matches!(actions[0], Action::ListDevices));
    assert!(matches!(actions[1], Action::OpenSession));
    assert!(matches!(actions[2], Action::ReadIdentity));
    assert!(matches!(actions[3], Action::SubmitPin));
    assert!(matches!(actions[4], Action::ObtainSigner));
    assert!(matches!(actions[5], Action::BuildEnvelope));
    assert!(matches!(actions[6], Action::ArmorEnvelope));
    assert_eq!(last_finish(&actions), (true, Ok("-----BEGIN PGP MESSAGE-----".to_string())));
}

#[test]
fn no_device() {
    let (_, actions) = run(vec![Event::DevicesListed(0)]);
    assert_eq!(last_finish(&actions), (false, Err(IssueError::NoDevice)));
}

#[test]
fn session_failure_releases_nothing() {
    let (_, actions) = run(vec![Event::DevicesListed(2), Event::SessionOpened(false)]);
    assert_eq!(last_finish(&actions), (false, Err(IssueError::Session)));
}

#[test]
fn wrong_pin_releases_session() {
    let (s, actions) = run(vec![
        Event::DevicesListed(1),
        Event::SessionOpened(true),
        Event::Identified(true),
        Event::Unlock(UnlockResult::Refused),
    ]);
    assert_eq!(s.stage, Stage::Finished);
    assert_eq!(last_finish(&actions), (true, Err(IssueError::Auth)));
}

#[test]
fn interaction_fails_fast() {
    let (_, actions) = run(vec![
        Event::DevicesListed(1),
        Event::SessionOpened(true),
        Event::Identified(true),
        Event::Unlock(UnlockResult::NeedsInteraction),
    ]);
    assert_eq!(last_finish(&actions), (true, Err(IssueError::InteractionRequired)));
}

#[test]
fn later_failures_release_session() {
    let (_, a) = run(vec![
        Event::DevicesListed(1),
        Event::SessionOpened(true),
        Event::Identified(false),
    ]);
    assert_eq!(last_finish(&a), (true, Err(IssueError::Session)));
    let mut ev = success_events("x");
    ev.truncate(4);
    ev.push(Event::SignerObtained(false));
    let (_, a) = run(ev);
    assert_eq!(last_finish(&a), (true, Err(IssueError::Signer)));
    let mut ev = success_events("x");
    ev.truncate(5);
    ev.push(Event::EnvelopeBuilt(false));
    let (_, a) = run(ev);
    assert_eq!(last_finish(&a), (true, Err(IssueError::Envelope)));
    let mut ev = success_events("x");
    ev.truncate(6);
    ev.push(Event::Armored(None));
    let (_, a) = run(ev);
    assert_eq!(last_finish(&a), (true, Err(IssueError::Armor)));
}

#[test]
fn unexpected_event_aborts() {
    let (_, a) = run(vec![Event::DevicesListed(1), Event::Identified(true)]);
    assert_eq!(last_finish(&a), (false, Err(IssueError::Unexpected)));
}

#[test]
fn finished_issuance_ignores_events() {
    let (mut s, _) = run(vec![Event::DevicesListed(0)]);
    assert!(matches!(s.step(Event::DevicesListed(1)), Action::Nothing));
    assert_eq!(s.stage, Stage::Finished);
}

#[test]
fn gate_serializes_requests() {
    let mut g = DeviceGate::new();
    assert!(g.acquire(1));
    assert!(!g.acquire(2));
    assert!(!g.acquire(3));
    assert_eq!(g.holder(), Some(1));
    assert_eq!(g.release(2), Some(1));
    assert_eq!(g.release(1), Some(2));
    assert_eq!(g.release(2), Some(3));
    assert_eq!(g.release(3), None);
    assert!(g.acquire(4));
}

#[test]
fn retry_after_refused_pin_succeeds() {
    let mut g = DeviceGate::new();
    assert!(g.acquire(1));
    assert!(!g.acquire(2));
    let (_, a) = run(vec![
        Event::DevicesListed(1),
        Event::SessionOpened(true),
        Event::Identified(true),
        Event::Unlock(UnlockResult::Refused),
    ]);
    assert_eq!(last_finish(&a), (true, Err(IssueError::Auth)));
    assert_eq!(g.release(1), Some(2));
    let (_, b) = run(success_events("armored"));
    assert_eq!(last_finish(&b), (true, Ok("armored".to_string())));
}
