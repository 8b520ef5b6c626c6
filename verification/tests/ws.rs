use zeptoclaw::header::HeaderValue;
use zeptoclaw::slots::ConnectionSlots;
use zeptoclaw::ws::{
    after_send, answer_upgrade, on_input, select_auth_protocol, ws_events, Handshake, StreamAction,
    StreamInput,
};

fn header(text: &str) -> HeaderValue {
    HeaderValue::from_bytes(text.as_bytes().to_vec()).unwrap()
}

/// Accepts the static token, and no JWT.
fn static_token(token: &str, api_token: &str, _jwt_secret: &str) -> bool {
    token == api_token
}

#[test]
fn test_ws_handler_compiles() {
    let _: fn(
        &Vec<HeaderValue>,
        &str,
        &str,
        fn(&str, &str, &str) -> bool,
        &mut ConnectionSlots,
    ) -> Handshake = ws_events;
}

#[test]
fn test_select_auth_protocol() {
    let ok = header("s3cret-token");
    let bad = header("wrong");
    let junk = header("not.a.jwt");

    // First offered protocol that authenticates wins (offer order, not token type).
    let got = select_auth_protocol(
        &vec![bad.clone(), ok],
        "s3cret-token",
        "jwt-secret",
        static_token,
    );
    assert_eq!(
        got.as_ref().and_then(|h| h.to_str()).as_deref(),
        Some("s3cret-token")
    );

    // No offered protocol matches -> rejected.
    assert!(
        select_auth_protocol(&vec![bad, junk], "s3cret-token", "jwt-secret", static_token)
            .is_none()
    );

    // Nothing offered at all -> rejected.
    assert!(
        select_auth_protocol(&Vec::new(), "s3cret-token", "jwt-secret", static_token).is_none()
    );
}

#[test]
fn first_accepted_offer_wins() {
    let offers = vec![header("no"), header("jwt-1"), header("jwt-2"), header("token")];
    let got = select_auth_protocol(&offers, "token", "secret", |t: &str, a: &str, s: &str| {
        assert_eq!(a, "token");
        assert_eq!(s, "secret");
        t == a || t.starts_with("jwt-")
    });
    assert_eq!(got.unwrap().as_bytes(), b"jwt-1");
}

#[test]
fn unreadable_offers_are_passed_over() {
    let unreadable = HeaderValue::from_bytes(vec![b'a', 0xe9]).unwrap();
    assert!(unreadable.to_str().is_none());
    let got = select_auth_protocol(
        &vec![unreadable, header("b")],
        "",
        "",
        |_t: &str, _a: &str, _s: &str| true,
    );
    assert_eq!(got.unwrap().as_bytes(), b"b");
}

#[test]
fn header_values_hold_no_control_characters() {
    for b in 0..=255u8 {
        let value = HeaderValue::from_bytes(vec![b'x', b]);
        assert_eq!(value.is_some(), b == 9 || (b >= 32 && b != 127), "{}", b);
        if let Some(value) = value {
            let text = value.to_str();
            assert_eq!(text.is_some(), b == 9 || (32..127).contains(&b), "{}", b);
            if let Some(text) = text {
                assert_eq!(text.as_bytes(), [b'x', b]);
            }
        }
    }
}

#[test]
fn test_ws_semaphore_exhaustion_reduces_permits() {
    for limit in [1usize, 5, 64] {
        // Verify that acquiring all permits leaves the semaphore at zero.
        let mut slots = ConnectionSlots::new(limit);
        for taken in 0..limit {
            assert_eq!(slots.taken(), taken);
            assert!(slots.try_acquire());
        }
        assert_eq!(slots.available(), 0);
        // The next acquire should fail.
        assert!(!slots.try_acquire());
        assert_eq!(slots.available(), 0);
        assert_eq!(slots.taken(), limit);
        // Releasing one permit makes room again.
        slots.release();
        assert_eq!(slots.available(), 1);
        assert!(slots.try_acquire());
    }
}

#[test]
fn upgrade_needs_a_token_and_a_slot() {
    let mut slots = ConnectionSlots::new(1);
    let good = vec![header("token")];
    let bad = vec![header("wrong")];

    match ws_events(&bad, "token", "secret", static_token, &mut slots) {
        Handshake::Refused { status, body } => {
            assert_eq!(status, 401);
            assert_eq!(body, "Missing or invalid auth token");
        }
        answer => panic!("{:?}", answer),
    }
    assert_eq!(slots.available(), 1);

    match ws_events(&good, "token", "secret", static_token, &mut slots) {
        Handshake::Upgraded { protocol } => assert_eq!(protocol.as_bytes(), b"token"),
        answer => panic!("{:?}", answer),
    }
    assert_eq!(slots.available(), 0);

    match ws_events(&good, "token", "secret", static_token, &mut slots) {
        Handshake::Refused { status, body } => {
            assert_eq!(status, 503);
            assert_eq!(body, "Too many WebSocket connections");
        }
        answer => panic!("{:?}", answer),
    }

    // The token is looked at before the slots are.
    match answer_upgrade(None, &mut slots) {
        Handshake::Refused { status, .. } => assert_eq!(status, 401),
        answer => panic!("{:?}", answer),
    }

    slots.release();
    assert!(matches!(
        answer_upgrade(Some(header("token")), &mut slots),
        Handshake::Upgraded { .. }
    ));
}

/// Runs a connection over `inputs`, all of whose texts but the `failing`th are delivered, and
/// returns the texts and whether it is still open.
fn run(inputs: Vec<StreamInput>, failing: usize) -> (Vec<String>, bool) {
    let mut sent = Vec::new();
    for input in inputs {
        let mut action = on_input(input);
        if let StreamAction::Send(text) = action {
            sent.push(text);
            action = after_send(sent.len() != failing);
        }
        match action {
            StreamAction::End => return (sent, false),
            StreamAction::Wait => {}
            StreamAction::Send(_) => unreachable!(),
        }
    }
    (sent, true)
}

fn event(json: &str) -> StreamInput {
    StreamInput::Event(Some(json.into()))
}

#[test]
fn events_are_streamed_in_order() {
    let (sent, open) = run(
        vec![
            event("1"),
            StreamInput::Lagged(3),
            StreamInput::Event(None),
            event("2"),
            StreamInput::ClientMessage,
            event("3"),
        ],
        0,
    );
    assert_eq!(sent, ["1", "2", "3"]);
    assert!(open);
}

#[test]
fn connection_ends_with_the_bus_or_the_client() {
    for end in [
        StreamInput::BusClosed,
        StreamInput::ClientClosed,
        StreamInput::ClientGone,
    ] {
        let (sent, open) = run(vec![event("1"), end, event("2")], 0);
        assert_eq!(sent, ["1"]);
        assert!(!open);
    }
}

#[test]
fn connection_ends_at_a_failed_send() {
    let (sent, open) = run(vec![event("1"), event("2"), event("3")], 2);
    assert_eq!(sent, ["1", "2"]);
    assert!(!open);
}
