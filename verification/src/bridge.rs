//! The client network bridge, seen from the collaborator's side.
//!
//! The bridge decouples the interactive front end from blocking socket I/O:
//! the collaborator only enqueues outgoing messages and polls incoming ones,
//! while two loops outside the library drain the outbound queue to the socket
//! and feed the inbound queue from it. Both queues keep their order. When
//! either loop dies (socket closed, I/O error), it marks the bridge
//! terminated; from then on `send` fails instead of hanging, and the
//! collaborator can show a disconnected state.

use vstd::prelude::*;
use crate::codec::{decode, spec_decode};
use crate::message::{queue_view, AppError, Message, MessageView};

verus! {

/// The bridge's local state: the two direction queues, oldest first, and the
/// connection-lost flag.
pub struct Bridge {
    pub outbound: Vec<Message>,
    pub inbound: Vec<Message>,
    pub terminated: bool,
}

/// The ghost value of a [`Bridge`].
#[verifier::ext_equal]
pub struct BridgeView {
    pub outbound: Seq<MessageView>,
    pub inbound: Seq<MessageView>,
    pub terminated: bool,
}

impl View for Bridge {
    type V = BridgeView;

    open spec fn view(&self) -> BridgeView {
        BridgeView {
            outbound: queue_view(self.outbound@),
            inbound: queue_view(self.inbound@),
            terminated: self.terminated,
        }
    }
}

impl Bridge {
    /// A fresh bridge: both queues empty, connection alive.
    pub fn new() -> (b: Bridge)
        ensures
            b@.outbound == Seq::<MessageView>::empty(),
            b@.inbound == Seq::<MessageView>::empty(),
            !b@.terminated,
    {
        let b = Bridge { outbound: Vec::new(), inbound: Vec::new(), terminated: false };
        proof {
            assert(b@.outbound =~= Seq::<MessageView>::empty());
            assert(b@.inbound =~= Seq::<MessageView>::empty());
        }
        b
    }

    /// The collaborator originates a message: enqueued without blocking while
    /// the bridge lives, refused with the queue error once it has terminated
    /// rather than hanging.
    pub fn send(&mut self, m: Message) -> (r: Result<(), AppError>)
        ensures
            old(self)@.terminated ==> {
                &&& r == Result::<(), AppError>::Err(AppError::Crossbeam)
                &&& final(self)@ == old(self)@
            },
            !old(self)@.terminated ==> {
                &&& r == Result::<(), AppError>::Ok(())
                &&& final(self)@ == (BridgeView {
                    outbound: old(self)@.outbound.push(m@),
                    ..old(self)@
                })
            },
    {
        if self.terminated {
            return Err(AppError::Crossbeam);
        }
        let ghost q0 = self@.outbound;
        self.outbound.push(m);
        proof {
            assert(self@.outbound =~= q0.push(self.outbound@[q0.len() as int]@));
            assert(self@ =~= (BridgeView { outbound: q0.push(self.outbound@[q0.len() as int]@), ..old(self)@ }));
        }
        Ok(())
    }

    /// The send loop takes the oldest outgoing message, if any.
    pub fn pop_outbound(&mut self) -> (r: Option<Message>)
        ensures
            match r {
                None => {
                    &&& final(self)@ == old(self)@
                    &&& old(self)@.outbound.len() == 0
                },
                Some(m) => {
                    &&& old(self)@.outbound.len() > 0
                    &&& m@ == old(self)@.outbound[0]
                    &&& final(self)@ == (BridgeView {
                        outbound: old(self)@.outbound.drop_first(),
                        ..old(self)@
                    })
                },
            },
    {
        if self.outbound.len() == 0 {
            return None;
        }
        let ghost q0 = self@.outbound;
        let m = self.outbound.remove(0);
        proof {
            assert(m@ == q0[0]);
            assert(self@.outbound =~= q0.drop_first());
            assert(self@ =~= (BridgeView { outbound: q0.drop_first(), ..old(self)@ }));
        }
        Some(m)
    }

    /// The receive loop hands over one complete delimiter-stripped line from
    /// the socket: a line that decodes is appended to the inbound queue, a
    /// malformed one is dropped and the connection lives on. Says whether the
    /// line was kept.
    pub fn deliver_line(&mut self, line: &str) -> (kept: bool)
        ensures
            match spec_decode(line@) {
                Some(mv) => {
                    &&& kept
                    &&& final(self)@ == (BridgeView {
                        inbound: old(self)@.inbound.push(mv),
                        ..old(self)@
                    })
                },
                None => {
                    &&& !kept
                    &&& final(self)@ == old(self)@
                },
            },
    {
        match decode(line) {
            Ok(m) => {
                let ghost q0 = self@.inbound;
                let ghost mv = m@;
                self.inbound.push(m);
                proof {
                    assert(self@.inbound =~= q0.push(mv));
                    assert(self@ =~= (BridgeView { inbound: q0.push(mv), ..old(self)@ }));
                }
                true
            },
            Err(_) => false,
        }
    }

    /// The collaborator polls for the oldest received message, if any;
    /// non-blocking by construction.
    pub fn try_receive(&mut self) -> (r: Option<Message>)
        ensures
            match r {
                None => {
                    &&& final(self)@ == old(self)@
                    &&& old(self)@.inbound.len() == 0
                },
                Some(m) => {
                    &&& old(self)@.inbound.len() > 0
                    &&& m@ == old(self)@.inbound[0]
                    &&& final(self)@ == (BridgeView {
                        inbound: old(self)@.inbound.drop_first(),
                        ..old(self)@
                    })
                },
            },
    {
        if self.inbound.len() == 0 {
            return None;
        }
        let ghost q0 = self@.inbound;
        let m = self.inbound.remove(0);
        proof {
            assert(m@ == q0[0]);
            assert(self@.inbound =~= q0.drop_first());
            assert(self@ =~= (BridgeView { inbound: q0.drop_first(), ..old(self)@ }));
        }
        Some(m)
    }

    /// Either loop marks the connection lost; the queues keep what they hold,
    /// so already-received messages can still be drained.
    pub fn terminate(&mut self)
        ensures
            final(self)@ == (BridgeView { terminated: true, ..old(self)@ }),
    {
        self.terminated = true;
        proof {
            assert(self@ =~= (BridgeView { terminated: true, ..old(self)@ }));
        }
    }

    /// The connection-lost signal, observable by the collaborator.
    pub fn is_terminated(&self) -> (t: bool)
        ensures
            t == self@.terminated,
    {
        self.terminated
    }
}

} // verus!
