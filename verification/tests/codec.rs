use chat_relay::codec::{decode, encode};
use chat_relay::message::{FrameError, Message, User};

fn msg(u: &str, t: &str) -> Message {
    Message { username: User(u.to_string()), message: t.to_string() }
}

fn assert_round_trip(u: &str, t: &str) {
    let m = msg(u, t);
    let frame = encode(&m);
    let back = decode(frame.as_str()).expect("frame written by encode must decode");
    assert_eq!(back.username.0, u);
    assert_eq!(back.message, t);
}

#[test]
fn encode_exact_frame() {
    let frame = encode(&msg("alice", "hi"));
    assert_eq!(frame, "{\"username\":\"alice\",\"message\":\"hi\"}");
}

#[test]
fn round_trip_simple() {
    assert_round_trip("alice", "hi");
}

#[test]
fn round_trip_empty_fields() {
    assert_round_trip("", "");
    assert_round_trip("alice", "");
    assert_round_trip("", "hi");
}

#[test]
fn round_trip_escaped_characters() {
    assert_round_trip("a\"b", "quote \" backslash \\ done");
    assert_round_trip("tab\there", "line\nbreak\rreturn");
    assert_round_trip("\\\\", "\"\"");
}

#[test]
fn round_trip_unicode_text() {
    assert_round_trip("ren\u{00e9}e", "caf\u{00e9} \u{2615} \u{1f600}");
}

#[test]
fn encoded_frame_is_one_line() {
    let frame = encode(&msg("a\nb", "first\nsecond\nthird"));
    assert!(!frame.contains('\n'));
}

#[test]
fn escapes_are_really_applied() {
    // A frame for text containing a quote must not contain the raw text
    // unescaped, or the quote would end the JSON string early.
    let frame = encode(&msg("alice", "say \"hi\""));
    assert_eq!(frame, "{\"username\":\"alice\",\"message\":\"say \\\"hi\\\"\"}");
}

#[test]
fn decode_missing_username_fails() {
    assert!(matches!(decode("{\"message\":\"hi\"}"), Err(FrameError::Malformed)));
}

#[test]
fn decode_missing_message_fails() {
    assert!(matches!(decode("{\"username\":\"alice\"}"), Err(FrameError::Malformed)));
}

#[test]
fn decode_empty_object_fails() {
    assert!(matches!(decode("{}"), Err(FrameError::Malformed)));
}

#[test]
fn decode_garbage_fails() {
    assert!(matches!(decode("not json at all"), Err(FrameError::Malformed)));
    assert!(matches!(decode(""), Err(FrameError::Malformed)));
}

#[test]
fn decode_bad_escape_fails() {
    assert!(matches!(
        decode("{\"username\":\"a\\x\",\"message\":\"b\"}"),
        Err(FrameError::Malformed)
    ));
}

#[test]
fn decode_unterminated_fails() {
    assert!(matches!(decode("{\"username\":\"alice\",\"message\":\"hi"), Err(FrameError::Malformed)));
    assert!(matches!(
        decode("{\"username\":\"alice\",\"message\":\"hi\""),
        Err(FrameError::Malformed)
    ));
}

#[test]
fn decode_trailing_junk_fails() {
    assert!(matches!(
        decode("{\"username\":\"alice\",\"message\":\"hi\"}x"),
        Err(FrameError::Malformed)
    ));
}

#[test]
fn decode_tolerates_solidus_escape() {
    let m = decode("{\"username\":\"a\\/b\",\"message\":\"c\"}").unwrap();
    assert_eq!(m.username.0, "a/b");
}

#[test]
fn decode_accepts_own_wire_format_only() {
    // The wire contract fixes the field order; a record the peer's encoder
    // would never produce is malformed.
    assert!(matches!(
        decode("{\"message\":\"hi\",\"username\":\"alice\"}"),
        Err(FrameError::Malformed)
    ));
}
