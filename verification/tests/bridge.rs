use chat_relay::bridge::Bridge;
use chat_relay::message::{AppError, Message, User};

fn msg(u: &str, t: &str) -> Message {
    Message { username: User(u.to_string()), message: t.to_string() }
}

#[test]
fn send_then_pop_keeps_order() {
    let mut b = Bridge::new();
    b.send(msg("alice", "one")).unwrap();
    b.send(msg("alice", "two")).unwrap();
    assert_eq!(b.pop_outbound().unwrap().message, "one");
    assert_eq!(b.pop_outbound().unwrap().message, "two");
    assert!(b.pop_outbound().is_none());
}

#[test]
fn deliver_then_receive_keeps_order() {
    let mut b = Bridge::new();
    assert!(b.deliver_line("{\"username\":\"bob\",\"message\":\"first\"}"));
    assert!(b.deliver_line("{\"username\":\"bob\",\"message\":\"second\"}"));
    let got = b.try_receive().unwrap();
    assert_eq!(got.username.0, "bob");
    assert_eq!(got.message, "first");
    assert_eq!(b.try_receive().unwrap().message, "second");
    assert!(b.try_receive().is_none());
}

#[test]
fn malformed_line_is_dropped_quietly() {
    let mut b = Bridge::new();
    assert!(!b.deliver_line("nonsense"));
    assert!(b.try_receive().is_none());
    // The bridge lives on: a later good line still arrives.
    assert!(b.deliver_line("{\"username\":\"bob\",\"message\":\"ok\"}"));
    assert_eq!(b.try_receive().unwrap().message, "ok");
}

#[test]
fn send_after_termination_signals_instead_of_hanging() {
    let mut b = Bridge::new();
    assert!(!b.is_terminated());
    b.terminate();
    assert!(b.is_terminated());
    assert_eq!(b.send(msg("alice", "late")), Err(AppError::Crossbeam));
    assert!(b.pop_outbound().is_none());
}

#[test]
fn termination_keeps_already_received_messages() {
    let mut b = Bridge::new();
    assert!(b.deliver_line("{\"username\":\"bob\",\"message\":\"kept\"}"));
    b.terminate();
    assert_eq!(b.try_receive().unwrap().message, "kept");
}

#[test]
fn error_labels() {
    assert_eq!(AppError::Crossbeam.label(), "Crossbeam");
    assert_eq!(AppError::TCPServer.label(), "TCPServer");
    assert_eq!(AppError::EventRead.label(), "EventRead");
    let u = User("alice".to_string());
    assert_eq!(u.as_str(), "alice");
}
