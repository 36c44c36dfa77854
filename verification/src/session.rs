//! Per-connection session decisions, for the two loops of a server session.
//!
//! The loops themselves block on sockets and on the hub subscription, so they
//! run outside the library; each turn they hand the event they saw to one of
//! these functions and perform the action it returns. A malformed line is a
//! per-message condition (drop it, keep the connection); a closed or failing
//! socket ends the loop, and the caller then cancels the sibling loop and
//! unsubscribes from the hub. A session never writes its own publishes back
//! to its peer: deliveries carrying its own identifier are skipped.

use vstd::prelude::*;
use crate::codec::{decode, encode, spec_decode, spec_encode};
use crate::message::Message;

verus! {

/// What one read of the session's socket produced: a complete
/// delimiter-stripped line, an orderly close (zero-byte read), or an I/O
/// error.
pub enum SocketEvent {
    Line(String),
    Closed,
    Failed,
}

/// What the inbound loop does next: publish the decoded message to the hub,
/// drop the line and go on, or terminate the session.
pub enum InboundAction {
    Publish(Message),
    Ignore,
    Terminate,
}

/// What the outbound loop learned from its hub subscription: a delivery
/// published by the session `from`, the loss of old messages because this
/// subscriber lagged, or a hub that is gone.
pub enum OutboundEvent {
    Delivery { from: u64, msg: Message },
    Lagged,
    HubClosed,
}

/// What the outbound loop does next: write a frame to the socket, do nothing
/// this turn, or terminate the session.
pub enum OutboundAction {
    Write(String),
    Skip,
    Terminate,
}

/// The inbound loop's one decision. A line that decodes is published exactly
/// as decoded; a malformed line is ignored and the connection lives on; a
/// close or an I/O error terminates the session.
pub fn inbound_step(ev: SocketEvent) -> (a: InboundAction)
    ensures
        match ev {
            SocketEvent::Line(line) => match spec_decode(line@) {
                Some(mv) => a matches InboundAction::Publish(m) && m@ == mv,
                None => a matches InboundAction::Ignore,
            },
            SocketEvent::Closed => a matches InboundAction::Terminate,
            SocketEvent::Failed => a matches InboundAction::Terminate,
        },
{
    match ev {
        SocketEvent::Line(line) => match decode(line.as_str()) {
            Ok(m) => InboundAction::Publish(m),
            Err(_) => InboundAction::Ignore,
        },
        SocketEvent::Closed => InboundAction::Terminate,
        SocketEvent::Failed => InboundAction::Terminate,
    }
}

/// The outbound loop's one decision. A delivery from another session becomes
/// exactly the frame of its message; the session's own deliveries are skipped,
/// so a publisher never hears its own echo; a lag only means this slow
/// subscriber already lost old messages, and the loop goes on; a hub that is
/// gone terminates the session.
pub fn outbound_step(my_id: u64, ev: OutboundEvent) -> (a: OutboundAction)
    ensures
        match ev {
            OutboundEvent::Delivery { from, msg } => {
                if from == my_id {
                    a matches OutboundAction::Skip
                } else {
                    a matches OutboundAction::Write(f) && f@ == spec_encode(
                        msg@.username,
                        msg@.message,
                    )
                }
            },
            OutboundEvent::Lagged => a matches OutboundAction::Skip,
            OutboundEvent::HubClosed => a matches OutboundAction::Terminate,
        },
{
    match ev {
        OutboundEvent::Delivery { from, msg } => {
            if from == my_id {
                OutboundAction::Skip
            } else {
                OutboundAction::Write(encode(&msg))
            }
        },
        OutboundEvent::Lagged => OutboundAction::Skip,
        OutboundEvent::HubClosed => OutboundAction::Terminate,
    }
}

} // verus!
