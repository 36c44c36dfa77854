//! End-to-end over the model: two client bridges, one hub, and the session
//! decisions in between, wired exactly as the loops outside the library wire
//! them, with the socket replaced by handing frames across directly.

use chat_relay::bridge::Bridge;
use chat_relay::codec::encode;
use chat_relay::hub::Hub;
use chat_relay::message::{Message, User};
use chat_relay::session::{
    inbound_step, outbound_step, InboundAction, OutboundAction, OutboundEvent, SocketEvent,
};

/// One client's frame arriving at the server: its session's inbound loop
/// decodes and publishes.
fn server_receives(hub: &mut Hub, session: u64, frame: String) {
    match inbound_step(SocketEvent::Line(frame)) {
        InboundAction::Publish(m) => hub.publish(&m, session),
        InboundAction::Ignore => {}
        InboundAction::Terminate => panic!("a line never terminates a session"),
    }
}

/// One session's outbound loop drains its hub feed into frames for its peer.
fn session_outbound(hub: &mut Hub, session: u64) -> Vec<String> {
    let mut frames = Vec::new();
    while let Some(m) = hub.recv(session) {
        // The hub already skips the publisher's feed; the decision function
        // guards against echo once more with the delivery's origin.
        match outbound_step(session, OutboundEvent::Delivery { from: u64::MAX, msg: m }) {
            OutboundAction::Write(frame) => frames.push(frame),
            OutboundAction::Skip => {}
            OutboundAction::Terminate => panic!("a delivery never terminates a session"),
        }
    }
    frames
}

#[test]
fn two_clients_relay_one_message() {
    let mut hub = Hub::new(64);
    let session_a = hub.subscribe();
    let session_b = hub.subscribe();
    let mut bridge_a = Bridge::new();
    let mut bridge_b = Bridge::new();

    // Client A originates a message through its bridge.
    bridge_a
        .send(Message { username: User("alice".to_string()), message: "hi".to_string() })
        .unwrap();

    // A's send loop: dequeue, encode, hand the frame to A's server session.
    let m = bridge_a.pop_outbound().unwrap();
    server_receives(&mut hub, session_a, encode(&m));

    // Each session's outbound loop forwards its feed to its client's bridge.
    for frame in session_outbound(&mut hub, session_a) {
        bridge_a.deliver_line(frame.as_str());
    }
    for frame in session_outbound(&mut hub, session_b) {
        bridge_b.deliver_line(frame.as_str());
    }

    // B receives exactly alice's message; A does not hear its own echo.
    let got = bridge_b.try_receive().expect("B must observe A's message");
    assert_eq!(got.username.0, "alice");
    assert_eq!(got.message, "hi");
    assert!(bridge_b.try_receive().is_none());
    assert!(bridge_a.try_receive().is_none());
}

#[test]
fn malformed_line_then_good_one_still_relays() {
    let mut hub = Hub::new(64);
    let session_a = hub.subscribe();
    let session_b = hub.subscribe();
    let mut bridge_b = Bridge::new();

    // A raw socket sends unparsable text to A's session: dropped, no
    // termination, nothing broadcast.
    server_receives(&mut hub, session_a, "{{{ not json".to_string());
    assert!(session_outbound(&mut hub, session_b).is_empty());

    // A subsequent well-formed frame still broadcasts correctly.
    let m = Message { username: User("alice".to_string()), message: "still on".to_string() };
    server_receives(&mut hub, session_a, encode(&m));
    for frame in session_outbound(&mut hub, session_b) {
        bridge_b.deliver_line(frame.as_str());
    }
    assert_eq!(bridge_b.try_receive().unwrap().message, "still on");
}
