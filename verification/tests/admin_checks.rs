use mira_sharer::admin::{constant_time_eq, AdminState, MAX_SECRET_LEN};

#[test]
fn constant_time_eq_matches_only_equal_bytes() {
    assert!(constant_time_eq(b"hunter2", b"hunter2"));
    assert!(!constant_time_eq(b"hunter2", b"hunter3"));
    assert!(!constant_time_eq(b"hunter2", b"hunter22"));
    assert!(!constant_time_eq(b"", b"x"));
    assert!(constant_time_eq(b"", b""));
}

struct NoControl;

#[test]
fn blank_secret_disables_the_admin_plane() {
    assert!(AdminState::new(NoControl, None).is_none());
    assert!(
        AdminState::new(NoControl, Some(String::new())).is_none(),
        "an empty secret must not enable the admin plane"
    );
    assert!(
        AdminState::new(NoControl, Some("   ".to_string())).is_none(),
        "a blank secret must not enable the admin plane"
    );
    assert!(AdminState::new(NoControl, Some("s3cret".to_string())).is_some());
}

#[test]
fn unicode_whitespace_secret_is_blank() {
    assert!(AdminState::new(NoControl, Some("\u{3000}\t\n".to_string())).is_none());
}

#[test]
fn only_the_bearer_token_authorizes() {
    let state = AdminState::new(NoControl, Some("s3cret-admin".to_string())).unwrap();
    assert!(!state.authorize(None), "missing credentials must be rejected");
    assert!(!state.authorize(Some("Bearer wrong")), "a wrong secret must be rejected");
    assert!(
        !state.authorize(Some("Basic czNjcmV0")),
        "only the Bearer scheme may authenticate"
    );
    assert!(state.authorize(Some("Bearer s3cret-admin")));
    assert!(state.authorize(Some("Bearer   s3cret-admin  ")), "the token is trimmed");
    assert!(!state.authorize(Some("bearer s3cret-admin")), "the scheme is case-sensitive");
    assert!(!state.authorize(Some("Bearer")));
    assert!(!state.authorize(Some("Bearer s3cret-admin2")));
}

#[test]
fn overlong_token_is_rejected_before_comparison() {
    let long = "x".repeat(MAX_SECRET_LEN + 1);
    let state = AdminState::new(NoControl, Some(long.clone())).unwrap();
    assert!(!state.authorize(Some(&format!("Bearer {long}"))));
    let fits = "y".repeat(MAX_SECRET_LEN);
    let state = AdminState::new(NoControl, Some(fits.clone())).unwrap();
    assert!(state.authorize(Some(&format!("Bearer {fits}"))));
}

#[test]
fn admin_state_keeps_its_control() {
    let state = AdminState::new(7u32, Some("s".to_string())).unwrap();
    assert_eq!(*state.control(), 7);
}
