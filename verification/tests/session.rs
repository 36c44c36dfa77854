use chat_relay::codec::encode;
use chat_relay::hub::Hub;
use chat_relay::message::{Message, User};
use chat_relay::session::{
    inbound_step, outbound_step, InboundAction, OutboundAction, OutboundEvent, SocketEvent,
};

fn msg(u: &str, t: &str) -> Message {
    Message { username: User(u.to_string()), message: t.to_string() }
}

#[test]
fn inbound_publishes_decoded_line() {
    let line = "{\"username\":\"alice\",\"message\":\"hi\"}".to_string();
    match inbound_step(SocketEvent::Line(line)) {
        InboundAction::Publish(m) => {
            assert_eq!(m.username.0, "alice");
            assert_eq!(m.message, "hi");
        }
        _ => panic!("a well-formed line must be published"),
    }
}

#[test]
fn inbound_ignores_malformed_line() {
    let action = inbound_step(SocketEvent::Line("this is not a frame".to_string()));
    assert!(matches!(action, InboundAction::Ignore));
}

#[test]
fn inbound_terminates_on_close_or_error() {
    assert!(matches!(inbound_step(SocketEvent::Closed), InboundAction::Terminate));
    assert!(matches!(inbound_step(SocketEvent::Failed), InboundAction::Terminate));
}

#[test]
fn bad_line_does_not_kill_the_session() {
    // A raw peer sends unparsable text, then a well-formed frame: the first
    // is dropped, the connection lives on, and the second still broadcasts.
    let mut hub = Hub::new(8);
    let me = hub.subscribe();
    let other = hub.subscribe();

    let bad = inbound_step(SocketEvent::Line("{oops".to_string()));
    assert!(matches!(bad, InboundAction::Ignore));

    let good_line = "{\"username\":\"alice\",\"message\":\"still here\"}".to_string();
    match inbound_step(SocketEvent::Line(good_line)) {
        InboundAction::Publish(m) => hub.publish(&m, me),
        _ => panic!("the later well-formed line must be published"),
    }
    assert_eq!(hub.recv(other).unwrap().message, "still here");
}

#[test]
fn outbound_writes_frame_for_other_sessions() {
    let m = msg("bob", "hello");
    let expected = encode(&m);
    match outbound_step(7, OutboundEvent::Delivery { from: 3, msg: m }) {
        OutboundAction::Write(frame) => assert_eq!(frame, expected),
        _ => panic!("a delivery from another session must be written"),
    }
}

#[test]
fn outbound_skips_own_echo() {
    let action = outbound_step(7, OutboundEvent::Delivery { from: 7, msg: msg("bob", "hello") });
    assert!(matches!(action, OutboundAction::Skip));
}

#[test]
fn outbound_survives_lag_and_ends_with_hub() {
    assert!(matches!(outbound_step(7, OutboundEvent::Lagged), OutboundAction::Skip));
    assert!(matches!(outbound_step(7, OutboundEvent::HubClosed), OutboundAction::Terminate));
}
