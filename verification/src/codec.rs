//! The wire codec: one `Message` to and from one newline-delimited frame.
//!
//! A frame is the text `{"username":"U","message":"T"}` where `U` and `T` are
//! the two field contents with `"`, `\`, and the characters LF, CR and TAB
//! escaped as `\"`, `\\`, `\n`, `\r` and `\t`. The transport layer appends the
//! single `\n` delimiter after a frame and strips it before handing a received
//! line to [`decode`]; the encoded text itself never contains a raw LF, so a
//! frame is always exactly one line. Encoding is total; decoding fails with
//! [`FrameError::Malformed`] on anything that is not exactly one such record,
//! in particular on a record missing either field.

use vstd::prelude::*;
use vstd::string::*;
use crate::message::{FrameError, Message, MessageView, User};

verus! {

/// The escape letter that [`spec_encode`] uses for `c`, if `c` is escaped.
pub open spec fn escapes_to(c: char) -> Option<char> {
    if c == '"' {
        Some('"')
    } else if c == '\\' {
        Some('\\')
    } else if c == '\n' {
        Some('n')
    } else if c == '\r' {
        Some('r')
    } else if c == '\t' {
        Some('t')
    } else {
        None
    }
}

/// The character that the escape letter `e` stands for, if any. The decoder
/// additionally tolerates `\/`, which the encoder never emits.
pub open spec fn unescape_char(e: char) -> Option<char> {
    if e == '"' {
        Some('"')
    } else if e == '\\' {
        Some('\\')
    } else if e == '/' {
        Some('/')
    } else if e == 'n' {
        Some('\n')
    } else if e == 'r' {
        Some('\r')
    } else if e == 't' {
        Some('\t')
    } else {
        None
    }
}

/// How one character appears inside a quoted string on the wire.
pub open spec fn esc_char(c: char) -> Seq<char> {
    match escapes_to(c) {
        Some(e) => seq!['\\', e],
        None => seq![c],
    }
}

/// How a whole field content appears inside its quotes on the wire.
pub open spec fn esc(s: Seq<char>) -> Seq<char>
    decreases s.len(),
{
    if s.len() == 0 {
        Seq::<char>::empty()
    } else {
        esc_char(s[0]) + esc(s.drop_first())
    }
}

/// The literal text up to and including the opening quote of the username.
pub open spec fn frame_prefix() -> Seq<char> {
    seq!['{', '"', 'u', 's', 'e', 'r', 'n', 'a', 'm', 'e', '"', ':', '"']
}

/// The literal text between the username's closing quote (which the string
/// scanner consumes) and the opening quote of the message text.
pub open spec fn frame_mid() -> Seq<char> {
    seq![',', '"', 'm', 'e', 's', 's', 'a', 'g', 'e', '"', ':', '"']
}

/// The frame for a message with username `u` and text `t`, without the
/// trailing delimiter.
pub open spec fn spec_encode(u: Seq<char>, t: Seq<char>) -> Seq<char> {
    frame_prefix() + esc(u) + seq!['"'] + frame_mid() + esc(t) + seq!['"', '}']
}

/// `w` occurs in `s` starting at position `i`.
pub open spec fn contains_at(s: Seq<char>, i: int, w: Seq<char>) -> bool {
    &&& 0 <= i
    &&& i + w.len() <= s.len()
    &&& s.subrange(i, i + w.len()) == w
}

/// Scans a quoted string's content in `s` from position `i` up to the closing
/// quote, undoing escapes. Returns the content and the position just past the
/// closing quote, or `None` on a bad escape or a missing closing quote.
pub open spec fn scan_string(s: Seq<char>, i: int) -> Option<(Seq<char>, int)>
    decreases s.len() - i,
{
    if i < 0 || i >= s.len() {
        None
    } else if s[i] == '"' {
        Some((Seq::<char>::empty(), i + 1))
    } else if s[i] == '\\' {
        if i + 1 >= s.len() {
            None
        } else {
            match unescape_char(s[i + 1]) {
                None => None,
                Some(c) => match scan_string(s, i + 2) {
                    None => None,
                    Some((t, j)) => Some((seq![c] + t, j)),
                },
            }
        }
    } else {
        match scan_string(s, i + 1) {
            None => None,
            Some((t, j)) => Some((seq![s[i]] + t, j)),
        }
    }
}

/// What [`decode`] accepts: exactly one record, with the two fields in this
/// fixed order, and nothing around it.
pub open spec fn spec_decode(s: Seq<char>) -> Option<MessageView> {
    if !contains_at(s, 0, frame_prefix()) {
        None
    } else {
        match scan_string(s, frame_prefix().len() as int) {
            None => None,
            Some((u, j)) => {
                if !contains_at(s, j, frame_mid()) {
                    None
                } else {
                    match scan_string(s, j + frame_mid().len()) {
                        None => None,
                        Some((t, k)) => {
                            if k == s.len() - 1 && s[k] == '}' {
                                Some(MessageView { username: u, message: t })
                            } else {
                                None
                            }
                        },
                    }
                }
            },
        }
    }
}

proof fn lemma_esc_concat(a: Seq<char>, b: Seq<char>)
    ensures
        esc(a + b) == esc(a) + esc(b),
    decreases a.len(),
{
    if a.len() == 0 {
        assert(a + b =~= b);
        assert(esc(a) + esc(b) =~= esc(b));
    } else {
        lemma_esc_concat(a.drop_first(), b);
        assert((a + b).drop_first() =~= a.drop_first() + b);
        assert((a + b)[0] == a[0]);
        assert(esc(a + b) =~= esc_char(a[0]) + esc(a.drop_first() + b));
        assert(esc_char(a[0]) + (esc(a.drop_first()) + esc(b)) =~= (esc_char(a[0]) + esc(
            a.drop_first(),
        )) + esc(b));
        assert(esc(a + b) =~= esc(a) + esc(b));
    }
}

proof fn lemma_esc_snoc(s: Seq<char>, i: int)
    requires
        0 <= i < s.len(),
    ensures
        esc(s.take(i + 1)) == esc(s.take(i)) + esc_char(s[i]),
{
    let one = seq![s[i]];
    assert(s.take(i + 1) =~= s.take(i) + one);
    lemma_esc_concat(s.take(i), one);
    assert(one.drop_first() =~= Seq::<char>::empty());
    assert(one[0] == s[i]);
    assert(esc(one) == esc_char(s[i]) + esc(Seq::<char>::empty()));
    assert(esc_char(s[i]) + Seq::<char>::empty() =~= esc_char(s[i]));
}

/// Relies on `String::push`: appends exactly the one character `c` at the end
/// of `s` and changes nothing else.
#[verifier::external_body]
fn push_char(s: &mut String, c: char)
    ensures
        final(s)@ == old(s)@.push(c),
{
    s.push(c)
}

/// Appends the escaped form of `s` to `out`.
fn append_escaped(out: &mut String, s: &str)
    ensures
        final(out)@ == old(out)@ + esc(s@),
{
    let ghost base: Seq<char> = out@;
    let n = s.unicode_len();
    let mut i: usize = 0;
    while i < n
        invariant
            n == s@.len(),
            i <= n,
            out@ == base + esc(s@.take(i as int)),
        decreases n - i,
    {
        let c = s.get_char(i);
        proof {
            lemma_esc_snoc(s@, i as int);
        }
        if c == '"' {
            out.append("\\\"");
            proof {
                reveal_strlit("\\\"");
                assert("\\\""@ =~= esc_char('"'));
            }
        } else if c == '\\' {
            out.append("\\\\");
            proof {
                reveal_strlit("\\\\");
                assert("\\\\"@ =~= esc_char('\\'));
            }
        } else if c == '\n' {
            out.append("\\n");
            proof {
                reveal_strlit("\\n");
                assert("\\n"@ =~= esc_char('\n'));
            }
        } else if c == '\r' {
            out.append("\\r");
            proof {
                reveal_strlit("\\r");
                assert("\\r"@ =~= esc_char('\r'));
            }
        } else if c == '\t' {
            out.append("\\t");
            proof {
                reveal_strlit("\\t");
                assert("\\t"@ =~= esc_char('\t'));
            }
        } else {
            push_char(out, c);
            proof {
                assert(out@ =~= (base + esc(s@.take(i as int))) + esc_char(c));
            }
        }
        proof {
            assert(out@ =~= base + esc(s@.take(i + 1)));
        }
        i += 1;
    }
    proof {
        assert(s@.take(n as int) =~= s@);
    }
}

/// Encodes a message as one frame. Total: succeeds on every well-formed
/// `Message`.
pub fn encode(m: &Message) -> (r: String)
    ensures
        r@ == spec_encode(m@.username, m@.message),
{
    let mut out = String::new();
    out.append("{\"username\":\"");
    append_escaped(&mut out, m.username.0.as_str());
    out.append("\",\"message\":\"");
    append_escaped(&mut out, m.message.as_str());
    out.append("\"}");
    proof {
        reveal_strlit("{\"username\":\"");
        reveal_strlit("\",\"message\":\"");
        reveal_strlit("\"}");
        assert("{\"username\":\""@ =~= frame_prefix());
        assert("\",\"message\":\""@ =~= seq!['"'] + frame_mid());
        assert("\"}"@ =~= seq!['"', '}']);
        assert(out@ =~= spec_encode(m@.username, m@.message));
    }
    out
}

fn unescape_exec(e: char) -> (r: Option<char>)
    ensures
        r == unescape_char(e),
{
    if e == '"' {
        Some('"')
    } else if e == '\\' {
        Some('\\')
    } else if e == '/' {
        Some('/')
    } else if e == 'n' {
        Some('\n')
    } else if e == 'r' {
        Some('\r')
    } else if e == 't' {
        Some('\t')
    } else {
        None
    }
}

/// `lit` occurs in `s` starting at character position `i`?
fn match_at(s: &str, i: usize, lit: &str) -> (r: bool)
    ensures
        r == contains_at(s@, i as int, lit@),
{
    let sn = s.unicode_len();
    let ln = lit.unicode_len();
    if ln > sn || i > sn - ln {
        return false;
    }
    let mut k: usize = 0;
    while k < ln
        invariant
            sn == s@.len(),
            ln == lit@.len(),
            i + ln <= sn,
            k <= ln,
            forall|n: int| 0 <= n < k ==> s@[i + n] == lit@[n],
        decreases ln - k,
    {
        if s.get_char(i + k) != lit.get_char(k) {
            proof {
                if contains_at(s@, i as int, lit@) {
                    assert(s@.subrange(i as int, i + lit@.len())[k as int] == s@[i + k]);
                }
            }
            return false;
        }
        k += 1;
    }
    proof {
        assert(s@.subrange(i as int, i + lit@.len()) =~= lit@);
    }
    true
}

spec fn opt_prepend(a: Seq<char>, o: Option<(Seq<char>, int)>) -> Option<(Seq<char>, int)> {
    match o {
        None => None,
        Some((t, j)) => Some((a + t, j)),
    }
}

/// Scans a quoted string's content from `start` up to the closing quote,
/// exactly as [`scan_string`] describes it.
fn scan_str(s: &str, start: usize) -> (r: Option<(String, usize)>)
    requires
        start <= s@.len(),
    ensures
        match r {
            Some(p) => {
                &&& scan_string(s@, start as int) == Some((p.0@, p.1 as int))
                &&& start < p.1 <= s@.len()
            },
            None => scan_string(s@, start as int) is None,
        },
{
    let n = s.unicode_len();
    let mut acc = String::new();
    let mut cur = start;
    loop
        invariant
            n == s@.len(),
            start <= cur <= n,
            scan_string(s@, start as int) == opt_prepend(acc@, scan_string(s@, cur as int)),
        decreases n - cur,
    {
        if cur >= n {
            return None;
        }
        let c = s.get_char(cur);
        if c == '"' {
            proof {
                assert(acc@ + Seq::<char>::empty() =~= acc@);
            }
            return Some((acc, cur + 1));
        } else if c == '\\' {
            if cur + 1 >= n {
                return None;
            }
            let e = s.get_char(cur + 1);
            match unescape_exec(e) {
                None => {
                    return None;
                },
                Some(d) => {
                    let ghost acc0 = acc@;
                    push_char(&mut acc, d);
                    proof {
                        assert(acc@ =~= acc0 + seq![d]);
                        match scan_string(s@, cur + 2) {
                            None => {},
                            Some((t, j)) => {
                                assert(acc0 + (seq![d] + t) =~= (acc0 + seq![d]) + t);
                            },
                        }
                    }
                    cur += 2;
                },
            }
        } else {
            let ghost acc0 = acc@;
            push_char(&mut acc, c);
            proof {
                assert(acc@ =~= acc0 + seq![c]);
                match scan_string(s@, cur + 1) {
                    None => {},
                    Some((t, j)) => {
                        assert(acc0 + (seq![c] + t) =~= (acc0 + seq![c]) + t);
                    },
                }
            }
            cur += 1;
        }
    }
}

/// Decodes one delimiter-stripped line into a message. Returns
/// `Err(FrameError::Malformed)` exactly on the lines that [`spec_decode`]
/// rejects, and never panics: a bad line is the caller's signal to drop it
/// and keep the connection.
pub fn decode(line: &str) -> (r: Result<Message, FrameError>)
    ensures
        match r {
            Ok(m) => spec_decode(line@) == Some(m@),
            Err(e) => {
                &&& e == FrameError::Malformed
                &&& spec_decode(line@) is None
            },
        },
{
    let n = line.unicode_len();
    let pref = "{\"username\":\"";
    let mid = ",\"message\":\"";
    proof {
        reveal_strlit("{\"username\":\"");
        reveal_strlit(",\"message\":\"");
        assert(pref@ =~= frame_prefix());
        assert(mid@ =~= frame_mid());
    }
    if !match_at(line, 0, pref) {
        return Err(FrameError::Malformed);
    }
    match scan_str(line, 13) {
        None => Err(FrameError::Malformed),
        Some((u, j)) => {
            if !match_at(line, j, mid) {
                return Err(FrameError::Malformed);
            }
            match scan_str(line, j + 12) {
                None => Err(FrameError::Malformed),
                Some((t, k)) => {
                    if k == n - 1 && line.get_char(k) == '}' {
                        Ok(Message { username: User(u), message: t })
                    } else {
                        Err(FrameError::Malformed)
                    }
                },
            }
        },
    }
}


proof fn lemma_escape_then_unescape(c: char)
    requires
        escapes_to(c) is Some,
    ensures
        unescape_char(escapes_to(c)->0) == Some(c),
{
}

proof fn lemma_suffix_drop(s: Seq<char>, i: int, head: Seq<char>, rest2: Seq<char>)
    requires
        0 <= i <= s.len(),
        s.subrange(i, s.len() as int) == head + rest2,
    ensures
        s.subrange(i + head.len(), s.len() as int) == rest2,
        s.subrange(i, i + head.len()) == head,
{
    let rest = s.subrange(i, s.len() as int);
    let d = head.len() as int;
    assert(rest.len() == s.len() - i);
    assert((head + rest2).len() == head.len() + rest2.len());
    assert forall|k: int| 0 <= k < rest2.len() implies s.subrange(
        i + d,
        s.len() as int,
    )[k] == rest2[k] by {
        assert(rest[d + k] == s[i + d + k]);
        assert(rest[d + k] == rest2[k]);
    }
    assert(s.subrange(i + d, s.len() as int) =~= rest2);
    assert forall|k: int| 0 <= k < d implies s.subrange(i, i + d)[k] == head[k] by {
        assert(rest[k] == s[i + k]);
        assert(rest[k] == head[k]);
    }
    assert(s.subrange(i, i + d) =~= head);
}

proof fn lemma_scan_escaped(s: Seq<char>, i: int, u: Seq<char>, tail: Seq<char>)
    requires
        0 <= i <= s.len(),
        s.subrange(i, s.len() as int) == esc(u) + seq!['"'] + tail,
    ensures
        scan_string(s, i) == Some((u, i + esc(u).len() + 1)),
    decreases u.len(),
{
    let rest = s.subrange(i, s.len() as int);
    assert(rest.len() == s.len() - i);
    assert((esc(u) + seq!['"']).len() == esc(u).len() + 1);
    assert(rest.len() == esc(u).len() + 1 + tail.len());
    if u.len() == 0 {
        assert(esc(u) =~= Seq::<char>::empty());
        assert(rest[0] == '"');
        assert(s[i] == rest[0]);
        assert(u =~= Seq::<char>::empty());
        assert(scan_string(s, i) == Some((Seq::<char>::empty(), i + 1)));
    } else {
        let c = u[0];
        let u2 = u.drop_first();
        assert(esc(u) == esc_char(c) + esc(u2));
        let rest2 = esc(u2) + seq!['"'] + tail;
        match escapes_to(c) {
            Some(e) => {
                assert(esc_char(c) =~= seq!['\\', e]);
                assert(rest =~= seq!['\\', e] + rest2);
                lemma_suffix_drop(s, i, seq!['\\', e], rest2);
                assert(s[i] == s.subrange(i, i + 2)[0]);
                assert(s[i + 1] == s.subrange(i, i + 2)[1]);
                assert(s[i] == '\\');
                assert(s[i + 1] == e);
                lemma_escape_then_unescape(c);
                lemma_scan_escaped(s, i + 2, u2, tail);
                assert(scan_string(s, i + 2) == Some((u2, i + 2 + esc(u2).len() + 1)));
                assert(seq![c] + u2 =~= u);
                assert(scan_string(s, i) == Some((u, i + esc(u).len() + 1)));
            },
            None => {
                assert(esc_char(c) =~= seq![c]);
                assert(rest =~= seq![c] + rest2);
                lemma_suffix_drop(s, i, seq![c], rest2);
                assert(s[i] == s.subrange(i, i + 1)[0]);
                assert(s[i] == c);
                assert(c != '"' && c != '\\');
                lemma_scan_escaped(s, i + 1, u2, tail);
                assert(scan_string(s, i + 1) == Some((u2, i + 1 + esc(u2).len() + 1)));
                assert(seq![c] + u2 =~= u);
                assert(scan_string(s, i) == Some((u, i + esc(u).len() + 1)));
            },
        }
    }
}

/// The round-trip law: a frame written by [`spec_encode`] reads back as
/// exactly the message it was written from, for every username and text.
#[verifier::rlimit(60)]
pub proof fn lemma_round_trip(u: Seq<char>, t: Seq<char>)
    ensures
        spec_decode(spec_encode(u, t)) == Some(MessageView { username: u, message: t }),
{
    let s = spec_encode(u, t);
    let q = seq!['"'];
    let qb = seq!['"', '}'];
    let tail2 = seq!['}'];
    let tail1 = frame_mid() + esc(t) + qb;
    let rest1 = esc(u) + q + tail1;
    let rest3 = esc(t) + q + tail2;

    assert(s.subrange(0, s.len() as int) =~= s);
    assert(s =~= frame_prefix() + rest1);
    lemma_suffix_drop(s, 0, frame_prefix(), rest1);
    assert(contains_at(s, 0, frame_prefix()));

    lemma_scan_escaped(s, 13, u, tail1);
    let j: int = 13 + esc(u).len() as int + 1;
    assert(scan_string(s, 13) == Some((u, j)));

    assert(rest1 =~= (esc(u) + q) + tail1);
    lemma_suffix_drop(s, 13, esc(u) + q, tail1);
    assert(s.subrange(j, s.len() as int) == tail1);

    assert(tail1 =~= frame_mid() + rest3);
    lemma_suffix_drop(s, j, frame_mid(), rest3);
    assert(contains_at(s, j, frame_mid()));

    lemma_scan_escaped(s, j + 12, t, tail2);
    let k: int = j + 12 + esc(t).len() as int + 1;
    assert(scan_string(s, j + 12) == Some((t, k)));

    assert(rest3 =~= (esc(t) + q) + tail2);
    lemma_suffix_drop(s, j + 12, esc(t) + q, tail2);
    assert(s.subrange(k, s.len() as int) == tail2);
    assert(k == s.len() - 1);
    assert(s[k] == s.subrange(k, s.len() as int)[0]);
    assert(s[k] == '}');

    assert(spec_decode(s) == Some(MessageView { username: u, message: t }));
}


/// `w` occurs somewhere in `s`.
pub open spec fn contains_word(s: Seq<char>, w: Seq<char>) -> bool {
    exists|i: int| contains_at(s, i, w)
}

/// The field key `username`, as bare text.
pub open spec fn username_key() -> Seq<char> {
    seq!['u', 's', 'e', 'r', 'n', 'a', 'm', 'e']
}

/// The field key `message`, as bare text.
pub open spec fn message_key() -> Seq<char> {
    seq!['m', 'e', 's', 's', 'a', 'g', 'e']
}

/// A frame in which the key `username` or the key `message` nowhere occurs is
/// rejected: the decoder accepts no record that misses either field.
pub proof fn lemma_missing_field_rejected(s: Seq<char>)
    requires
        !contains_word(s, username_key()) || !contains_word(s, message_key()),
    ensures
        spec_decode(s) is None,
{
    if spec_decode(s) is Some {
        assert(contains_at(s, 0, frame_prefix()));
        let p = s.subrange(0, 13);
        assert forall|k: int| 0 <= k < 8 implies s.subrange(2, 10)[k] == username_key()[k] by {
            assert(s.subrange(2, 10)[k] == s[2 + k]);
            assert(p[2 + k] == s[2 + k]);
        }
        assert(s.subrange(2, 10) =~= username_key());
        assert(contains_at(s, 2, username_key()));
        assert(contains_word(s, username_key()));

        let r1 = scan_string(s, 13);
        assert(r1 is Some);
        let j = (r1->0).1;
        assert(contains_at(s, j, frame_mid()));
        let m = s.subrange(j, j + 12);
        assert forall|k: int| 0 <= k < 7 implies s.subrange(j + 2, j + 9)[k] == message_key()[k] by {
            assert(s.subrange(j + 2, j + 9)[k] == s[j + 2 + k]);
            assert(m[2 + k] == s[j + 2 + k]);
        }
        assert(s.subrange(j + 2, j + 9) =~= message_key());
        assert(contains_at(s, j + 2, message_key()));
        assert(contains_word(s, message_key()));
        assert(false);
    }
}

proof fn lemma_esc_no_newline(s: Seq<char>)
    ensures
        forall|k: int| 0 <= k < esc(s).len() ==> esc(s)[k] != '\n',
    decreases s.len(),
{
    if s.len() == 0 {
    } else {
        lemma_esc_no_newline(s.drop_first());
        assert forall|k: int| 0 <= k < esc(s).len() implies esc(s)[k] != '\n' by {
            assert(esc(s) == esc_char(s[0]) + esc(s.drop_first()));
            if k < esc_char(s[0]).len() {
                assert(esc(s)[k] == esc_char(s[0])[k]);
            } else {
                assert(esc(s)[k] == esc(s.drop_first())[k - esc_char(s[0]).len()]);
            }
        }
    }
}

/// The encoder never emits the line delimiter: no character of a frame is a
/// LF, so the frame plus its trailing LF is exactly one line on the wire.
pub proof fn lemma_frame_single_line(u: Seq<char>, t: Seq<char>)
    ensures
        forall|k: int| 0 <= k < spec_encode(u, t).len() ==> spec_encode(u, t)[k] != '\n',
{
    lemma_esc_no_newline(u);
    lemma_esc_no_newline(t);
    let s = spec_encode(u, t);
    let a = frame_prefix() + esc(u);
    let b = a + seq!['"'];
    let c = b + frame_mid();
    let d = c + esc(t);
    assert forall|k: int| 0 <= k < s.len() implies s[k] != '\n' by {
        assert(s == d + seq!['"', '}']);
        if k < a.len() {
            if k < 13 {
                assert(a[k] == frame_prefix()[k]);
            } else {
                assert(a[k] == esc(u)[k - 13]);
            }
        } else if k < b.len() {
            assert(b[k] == '"');
        } else if k < c.len() {
            assert(c[k] == frame_mid()[k - b.len()]);
        } else if k < d.len() {
            assert(d[k] == esc(t)[k - c.len()]);
        }
    }
}

} // verus!

