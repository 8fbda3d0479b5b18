use mira_sharer::auth::{
    no_longer_connected, no_longer_waiting, random_user_friendly_string, user_friendly_char,
    user_friendly_string_from, Arrival, AuthError, AuthStep, AuthenticationPayload,
    ComplexAuthenticator, DeclineReason, PasswordAuthenticator, ViewerIdentifier, ViewerRoster,
};

const ALPHABET: &str = "ABCDEFGHJKLMNPQRSTUVWXYZ23456789";

fn password(p: &str) -> AuthenticationPayload {
    AuthenticationPayload::Password { password: p.to_string() }
}

fn viewer(uuid: &str, name: &str) -> ViewerIdentifier {
    ViewerIdentifier { uuid: uuid.to_string(), name: name.to_string() }
}

#[test]
fn password_authenticator_checks_the_password() {
    let auth = PasswordAuthenticator::new("hunter2".to_string()).unwrap();
    assert_eq!(auth.password(), "hunter2");
    assert_eq!(auth.authenticate("u".into(), "n".into(), &password("hunter2")), None);
    assert_eq!(
        auth.authenticate("u".into(), "n".into(), &password("hunter3")),
        Some(DeclineReason::IncorrectPassword)
    );
    assert_eq!(
        auth.authenticate("u".into(), "n".into(), &AuthenticationPayload::Anonymous),
        Some(DeclineReason::NoCredentials)
    );
}

#[test]
fn empty_password_is_refused() {
    let err = PasswordAuthenticator::new(String::new()).err().unwrap();
    assert_eq!(err, AuthError::EmptyPassword);
    assert_eq!(err.message(), "Password cannot be empty");
    assert!(PasswordAuthenticator::new(" ".to_string()).is_ok());
}

#[test]
fn random_password_is_five_friendly_characters() {
    for _ in 0..20 {
        let auth = PasswordAuthenticator::random().unwrap();
        let p = auth.password();
        assert_eq!(p.chars().count(), 5);
        assert!(p.chars().all(|c| ALPHABET.contains(c)), "{p}");
    }
    assert_eq!(random_user_friendly_string(0), "");
    assert_eq!(random_user_friendly_string(12).chars().count(), 12);
}

#[test]
fn draws_select_by_their_top_five_bits() {
    assert_eq!(user_friendly_char(0), 'A');
    assert_eq!(user_friendly_char(u32::MAX), '9');
    assert_eq!(user_friendly_char(1 << 27), 'B');
    assert_eq!(user_friendly_char((8 << 27) | 12345), 'J');
    assert_eq!(user_friendly_string_from(&[0, u32::MAX, 24 << 27]), "A92");
    assert_eq!(user_friendly_string_from(&[]), "");
}

#[test]
fn chain_stops_at_the_first_decline() {
    let chain = ComplexAuthenticator::new(vec!["password", "operator"]);
    assert_eq!(chain.authenticators().len(), 2);
    assert_eq!(chain.first_step(), AuthStep::Ask(0));
    assert_eq!(chain.next_step(0, None), AuthStep::Ask(1));
    assert_eq!(
        chain.next_step(0, Some(DeclineReason::IncorrectPassword)),
        AuthStep::Decided(Some(DeclineReason::IncorrectPassword))
    );
    assert_eq!(chain.next_step(1, None), AuthStep::Decided(None));
    assert_eq!(
        chain.next_step(1, Some(DeclineReason::UserDeclined)),
        AuthStep::Decided(Some(DeclineReason::UserDeclined))
    );
    let empty: ComplexAuthenticator<&str> = ComplexAuthenticator::new(Vec::new());
    assert_eq!(empty.first_step(), AuthStep::Decided(None));
}

#[test]
fn auto_accept_admits_at_once() {
    let mut roster = ViewerRoster::new();
    assert_eq!(roster.arrive(viewer("v", "Phone"), true), Arrival::Admitted);
    assert_eq!(roster.viewing().len(), 1);
    assert!(roster.pending().is_empty());
}

#[test]
fn operator_decisions_tolerate_stale_uuids() {
    let mut roster = ViewerRoster::new();
    assert_eq!(roster.arrive(viewer("viewer-1", "Phone"), false), Arrival::AwaitingDecision);
    assert_eq!(roster.arrive(viewer("viewer-2", "Laptop"), false), Arrival::AwaitingDecision);

    // decline drops a pending viewer
    let v2 = roster.pending_viewer(&"viewer-2".to_string()).unwrap();
    assert_eq!(roster.settle(v2, false), Some(DeclineReason::UserDeclined));
    assert_eq!(roster.pending().len(), 1);

    // accept moves one from pending to viewing
    let v1 = roster.pending_viewer(&"viewer-1".to_string()).unwrap();
    assert_eq!(roster.settle(v1, true), None);
    assert!(roster.pending().is_empty());
    assert_eq!(roster.viewing()[0].uuid, "viewer-1");
    assert_eq!(roster.viewing()[0].name, "Phone");

    // the page is stale: the same click is a clean error naming the reason
    let err = roster.pending_viewer(&"viewer-1".to_string()).unwrap_err();
    assert_eq!(err, "viewer-1 is not waiting for a decision");
    assert!(err.contains("not waiting"));

    let ghost = "ghost".to_string();
    assert!(roster.pending_viewer(&ghost).is_err());
    assert_eq!(roster.viewing_viewer(&ghost).unwrap_err(), "ghost is not viewing");

    // kick drops it from viewing, and a second kick is a clean error
    let v1 = roster.viewing_viewer(&"viewer-1".to_string()).unwrap();
    roster.viewer_left(&v1.uuid);
    assert!(roster.viewing().is_empty());
    assert!(roster.viewing_viewer(&"viewer-1".to_string()).is_err());
}

#[test]
fn viewer_left_and_clear_empty_the_lists() {
    let mut roster = ViewerRoster::new();
    roster.arrive(viewer("a", "A"), true);
    roster.arrive(viewer("a", "A2"), false);
    roster.arrive(viewer("b", "B"), false);
    roster.viewer_left(&"a".to_string());
    assert!(roster.viewing().is_empty());
    assert_eq!(roster.pending().len(), 1);
    assert_eq!(roster.pending()[0].uuid, "b");
    roster.clear();
    assert!(roster.pending().is_empty());
}

#[test]
fn decision_errors_name_the_viewer() {
    assert_eq!(no_longer_waiting(&"x".to_string()), "x is no longer waiting for a decision");
    assert_eq!(no_longer_connected(&"x".to_string()), "x is no longer connected");
}
