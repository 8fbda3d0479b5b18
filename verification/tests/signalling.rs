use mira_sharer::signaller::{is_idle, Delivery, Envelope, Outbound, SignallerState};

fn envelope(kind: &str, from: Option<&str>, to: Option<&str>, room: Option<&str>) -> Envelope {
    Envelope {
        kind: kind.to_string(),
        from: from.map(str::to_string),
        to: to.map(str::to_string),
        room: room.map(str::to_string),
    }
}

fn relay(conn: usize) -> Vec<Delivery> {
    vec![Delivery { conn, message: Outbound::Relay }]
}

const SHARER: usize = 1;
const VIEWER: usize = 2;

#[test]
fn signaller_relay_roundtrip() {
    let mut state = SignallerState::new();

    // sharer starts a session
    let started = state.route(SHARER, true, &envelope("start", None, None, None));
    assert!(started.registered);
    let room = match started.reply {
        Some(Outbound::StartResponse { room }) => room,
        other => panic!("expected a start_response, got {other:?}"),
    };
    assert!(!room.is_empty());
    assert!(state.holds_registration(SHARER));

    // viewer joins: relayed to the sharer
    let join = state.route(VIEWER, true, &envelope("join", Some("viewer-1"), None, Some(&room)));
    assert!(join.registered);
    assert_eq!(join.reply, None);
    assert_eq!(join.deliveries, relay(SHARER));

    // sharer -> viewer: offer
    let offer = state.route(SHARER, false, &envelope("offer", Some("0"), Some("viewer-1"), None));
    assert_eq!(offer.deliveries, relay(VIEWER));

    // viewer -> sharer: answer (addressed to the room) and ice
    let answer = state.route(VIEWER, false, &envelope("answer", Some("viewer-1"), Some(&room), None));
    assert_eq!(answer.deliveries, relay(SHARER));
    let ice = state.route(VIEWER, false, &envelope("ice", Some("viewer-1"), Some(&room), None));
    assert_eq!(ice.deliveries, relay(SHARER));

    // sharer -> viewer: ice
    let ice = state.route(SHARER, false, &envelope("ice", Some("0"), Some("viewer-1"), None));
    assert_eq!(ice.deliveries, relay(VIEWER));

    // sharer leaves -> viewer is told the room closed
    let leave = state.route(SHARER, false, &envelope("leave", Some(&room), None, None));
    assert_eq!(
        leave.deliveries,
        vec![Delivery {
            conn: VIEWER,
            message: Outbound::RoomClosed { to: "viewer-1".to_string(), room: room.clone() },
        }]
    );
    assert!(!state.holds_registration(SHARER));
    assert!(!state.holds_registration(VIEWER));

    // joining a closed/unknown room is declined
    let late = state.route(3, true, &envelope("join", Some("viewer-2"), None, Some("nonexistent")));
    assert_eq!(late.reply, Some(Outbound::JoinDeclined { to: "viewer-2".to_string() }));
    assert!(late.deliveries.is_empty());
    assert!(!late.registered);

    // ice_servers -> empty response
    let probe = state.route(4, true, &envelope("ice_servers", None, None, None));
    assert_eq!(probe.reply, Some(Outbound::IceServersResponse));
}

#[test]
fn start_honours_requested_room() {
    let mut state = SignallerState::new();
    let resp = state.route(SHARER, true, &envelope("start", None, None, Some("desk")));
    assert_eq!(resp.reply, Some(Outbound::StartResponse { room: "desk".to_string() }));
}

#[test]
fn start_falls_back_when_requested_room_is_taken() {
    let mut state = SignallerState::new();
    let first = state.route(SHARER, true, &envelope("start", None, None, Some("desk")));
    assert_eq!(first.reply, Some(Outbound::StartResponse { room: "desk".to_string() }));

    let second = state.route(VIEWER, true, &envelope("start", None, None, Some("desk")));
    match second.reply {
        Some(Outbound::StartResponse { room }) => {
            assert_ne!(room, "desk", "second sharer must not be handed a room that is already live");
            assert_eq!(room.len(), 36);
        }
        other => panic!("expected a start_response, got {other:?}"),
    }
}

#[test]
fn blank_requested_room_is_assigned_one() {
    let mut state = SignallerState::new();
    let resp = state.route(SHARER, true, &envelope("start", None, None, Some("   ")));
    match resp.reply {
        Some(Outbound::StartResponse { room }) => {
            assert!(!room.is_empty());
            assert_ne!(room, "   ");
        }
        other => panic!("expected a start_response, got {other:?}"),
    }
}

#[test]
fn start_with_uses_the_given_fresh_room() {
    let mut state = SignallerState::new();
    let resp = state.route_with(SHARER, true, &envelope("start", None, None, None), "fresh".to_string());
    assert_eq!(resp.reply, Some(Outbound::StartResponse { room: "fresh".to_string() }));
    let taken = state.route_with(VIEWER, true, &envelope("start", None, None, Some("fresh")), "other".to_string());
    assert_eq!(taken.reply, Some(Outbound::StartResponse { room: "other".to_string() }));
}

#[test]
fn registered_connection_cannot_start_again() {
    let mut state = SignallerState::new();
    let resp = state.route(SHARER, false, &envelope("start", None, None, Some("desk")));
    assert_eq!(resp.reply, None);
    assert!(!resp.registered);
    assert!(!state.holds_registration(SHARER));
}

#[test]
fn join_without_channel_is_listed_but_not_relayed() {
    let mut state = SignallerState::new();
    state.route_with(SHARER, true, &envelope("start", None, None, Some("desk")), String::new());
    let join = state.route(SHARER, false, &envelope("join", Some("v"), None, Some("desk")));
    assert!(join.deliveries.is_empty());
    assert!(!join.registered);
    // the viewer was listed in the room, so closing it tries to tell it, but it
    // has no registration to reach
    let leave = state.route(SHARER, false, &envelope("leave", Some("desk"), None, None));
    assert!(leave.deliveries.is_empty());
}

#[test]
fn viewer_leave_is_relayed_to_sharer() {
    let mut state = SignallerState::new();
    state.route_with(SHARER, true, &envelope("start", None, None, Some("desk")), String::new());
    state.route(VIEWER, true, &envelope("join", Some("v"), None, Some("desk")));
    let leave = state.route(VIEWER, false, &envelope("leave", Some("v"), None, None));
    assert_eq!(leave.deliveries, relay(SHARER));
    assert!(!state.holds_registration(VIEWER));
    assert!(state.holds_registration(SHARER));
}

#[test]
fn decline_is_relayed_and_drops_the_viewer() {
    let mut state = SignallerState::new();
    state.route_with(SHARER, true, &envelope("start", None, None, Some("desk")), String::new());
    state.route(VIEWER, true, &envelope("join", Some("v"), None, Some("desk")));
    let declined = state.route(SHARER, false, &envelope("join_declined", None, Some("v"), None));
    assert_eq!(declined.deliveries, relay(VIEWER));
    assert!(!state.holds_registration(VIEWER));
    let again = state.route(SHARER, false, &envelope("room_closed", None, Some("v"), None));
    assert!(again.deliveries.is_empty());
}

#[test]
fn missing_fields_and_unknown_types_do_nothing() {
    let mut state = SignallerState::new();
    for kind in ["offer", "ice", "answer", "leave", "join", "join_declined", "keep_alive", "bogus"] {
        let r = state.route(SHARER, true, &envelope(kind, None, None, None));
        assert_eq!(r.reply, None, "{kind}");
        assert!(r.deliveries.is_empty(), "{kind}");
        assert!(!r.registered, "{kind}");
    }
}

#[test]
fn cleanup_closes_the_rooms_of_a_dropped_sharer() {
    let mut state = SignallerState::new();
    state.route_with(SHARER, true, &envelope("start", None, None, Some("desk")), String::new());
    state.route(VIEWER, true, &envelope("join", Some("v1"), None, Some("desk")));
    state.route(3, true, &envelope("join", Some("v2"), None, Some("desk")));
    let notices = state.cleanup(SHARER);
    assert_eq!(
        notices,
        vec![
            Delivery { conn: VIEWER, message: Outbound::RoomClosed { to: "v1".into(), room: "desk".into() } },
            Delivery { conn: 3, message: Outbound::RoomClosed { to: "v2".into(), room: "desk".into() } },
        ]
    );
    assert!(!state.holds_registration(SHARER));
    // the viewers keep their registrations until their own connections go
    assert!(state.holds_registration(VIEWER));
    assert!(state.cleanup(VIEWER).is_empty());
    assert!(!state.holds_registration(VIEWER));
}

#[test]
fn idle_after_ninety_seconds() {
    assert!(!is_idle(90_000_000_000));
    assert!(is_idle(90_000_000_001));
    assert!(!is_idle(0));
}
