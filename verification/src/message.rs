//! The chat data model: users, messages, and the error taxonomy.

use vstd::prelude::*;

verus! {

/// A display name carried with every chat message. It is opaque data, not an
/// authentication credential: two connections may share a name.
pub struct User(pub String);

/// One chat message as relayed between peers. Immutable once constructed; the
/// core validates framing only, never content.
pub struct Message {
    pub username: User,
    pub message: String,
}

/// The ghost value of a [`Message`]: the two field contents as character
/// sequences.
#[verifier::ext_equal]
pub struct MessageView {
    pub username: Seq<char>,
    pub message: Seq<char>,
}

impl View for User {
    type V = Seq<char>;

    open spec fn view(&self) -> Seq<char> {
        self.0@
    }
}

impl View for Message {
    type V = MessageView;

    open spec fn view(&self) -> MessageView {
        MessageView { username: self.username@, message: self.message@ }
    }
}

impl User {
    /// The display name as bare text, for rendering.
    pub fn as_str(&self) -> (r: &str)
        ensures
            r@ == self@,
    {
        self.0.as_str()
    }
}

impl Clone for User {
    fn clone(&self) -> (r: Self)
        ensures
            r@ == self@,
    {
        User(self.0.clone())
    }
}

impl Clone for Message {
    fn clone(&self) -> (r: Self)
        ensures
            r@ == self@,
    {
        Message { username: self.username.clone(), message: self.message.clone() }
    }
}

/// Errors of the client-side plumbing as surfaced to the collaborator:
/// `Crossbeam` stands for a local queue whose far side is gone (the bridge has
/// terminated), `TCPServer` for a lost connection, `EventRead` for a failed
/// input-event read.
#[derive(Clone, Copy, Debug, PartialEq, Eq, Structural)]
pub enum AppError {
    Crossbeam,
    TCPServer,
    EventRead,
}

impl AppError {
    /// The error's display label, for rendering.
    pub fn label(&self) -> (r: &'static str)
        ensures
            match self {
                AppError::Crossbeam => r@ == "Crossbeam"@,
                AppError::TCPServer => r@ == "TCPServer"@,
                AppError::EventRead => r@ == "EventRead"@,
            },
    {
        match self {
            AppError::Crossbeam => "Crossbeam",
            AppError::TCPServer => "TCPServer",
            AppError::EventRead => "EventRead",
        }
    }
}

/// The ghost contents of a queue of messages, oldest first.
pub open spec fn queue_view(q: Seq<Message>) -> Seq<MessageView> {
    Seq::new(q.len(), |i: int| q[i]@)
}

/// Failure to decode one wire frame. A malformed frame is a transient,
/// per-message condition: the caller drops the line and keeps the connection.
#[derive(Clone, Copy, Debug, PartialEq, Eq, Structural)]
pub enum FrameError {
    Malformed,
}

} // verus!
