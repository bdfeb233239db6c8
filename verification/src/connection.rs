//! The connection-level pieces the application drives: the FIFO queue that
//! links an I/O thread to the application, and the decision logic of the
//! two-phase shutdown handshake.

use vstd::prelude::*;
use vstd::string::StringExecFns;

use crate::json::{JsonValue, Jv};
use crate::msg::{Message, Request, RespV, Response};

verus! {

/// A violation of the shutdown handshake: the text says what arrived
/// instead of the expected `exit` notification.
#[derive(Debug, Clone)]
pub struct ProtocolError(pub String);

impl ProtocolError {
    /// The error's text.
    pub fn message(&self) -> (r: &str)
        ensures
            r@ == self.0@,
    {
        self.0.as_str()
    }
}

/// A strict first-in-first-out queue of messages: the single-producer,
/// single-consumer bridge between an I/O thread and the application.
pub struct MessageQueue {
    pub items: Vec<Message>,
}

impl MessageQueue {
    /// The queued messages, oldest first.
    pub open spec fn msgs(self) -> Seq<Message> {
        self.items@
    }

    /// An empty queue.
    pub fn new() -> (r: MessageQueue)
        ensures
            r.msgs() == Seq::<Message>::empty(),
    {
        MessageQueue { items: Vec::new() }
    }

    /// How many messages are queued.
    pub fn len(&self) -> (r: usize)
        ensures
            r == self.msgs().len(),
    {
        self.items.len()
    }

    /// Enqueues `m` behind every message already queued.
    pub fn send(&mut self, m: Message)
        ensures
            final(self).msgs() == old(self).msgs().push(m),
    {
        self.items.push(m);
    }

    /// Dequeues the oldest message, if any; the rest keep their order.
    pub fn recv(&mut self) -> (r: Option<Message>)
        ensures
            match r {
                Some(m) => old(self).msgs().len() > 0 && m == old(self).msgs()[0]
                    && final(self).msgs() == old(self).msgs().drop_first(),
                None => old(self).msgs().len() == 0 && final(self).msgs() == old(self).msgs(),
            },
    {
        if self.items.len() == 0 {
            return None;
        }
        let m = self.items.remove(0);
        proof {
            assert(self.items@ =~= old(self).msgs().drop_first());
        }
        Some(m)
    }
}

/// First in, first out: three messages enqueued onto any queue in the order
/// `a`, `b`, `c` are dequeued in exactly that order, with the queue's prior
/// contents served first.
pub proof fn lemma_fifo_order(a: Message, b: Message, c: Message)
    ensures
        ({
            let q = Seq::<Message>::empty().push(a).push(b).push(c);
            q[0] == a && q.drop_first()[0] == b && q.drop_first().drop_first()[0] == c
                && q.drop_first().drop_first().drop_first().len() == 0
        }),
{
    let q = Seq::<Message>::empty().push(a).push(b).push(c);
    assert(q.drop_first() =~= Seq::<Message>::empty().push(b).push(c));
    assert(q.drop_first().drop_first() =~= Seq::<Message>::empty().push(c));
    assert(q.drop_first().drop_first().drop_first() =~= Seq::<Message>::empty());
}

/// What the timed wait for the handshake's second message produced.
pub enum FollowupEvent {
    /// A message arrived in time.
    Received(Message),
    /// Nothing arrived within the allowed 30 seconds.
    TimedOut,
    /// The inbound queue closed before anything arrived.
    Closed,
}

/// Whether `e` is the `exit` notification the handshake expects.
pub open spec fn is_exit_followup(e: FollowupEvent) -> bool {
    match e {
        FollowupEvent::Received(m) => match m {
            Message::Notification(n) => n.method@ == "exit"@,
            _ => false,
        },
        _ => false,
    }
}

/// The response owed to a shutdown request: a success response with the
/// request's own id and a null result — and to no other request.
pub fn shutdown_response(req: &Request) -> (r: Option<Response>)
    ensures
        match r {
            Some(resp) => req.method@ == "shutdown"@ && resp.pv() == (RespV {
                id: req.id.idv(),
                result: Some(Jv::Null),
                error: None,
            }),
            None => req.method@ != "shutdown"@,
        },
{
    if req.is_shutdown() {
        Some(Response::new_ok(req.id.deep_clone(), JsonValue::Null))
    } else {
        None
    }
}

/// The verdict on what followed the shutdown response: only an `exit`
/// notification completes the handshake; any other message, the timeout,
/// and a closed queue are protocol violations.
pub fn judge_shutdown_followup(next: FollowupEvent) -> (r: Result<(), ProtocolError>)
    ensures
        r is Ok <==> is_exit_followup(next),
        r matches Err(e) ==> e.0@ == (match next {
            FollowupEvent::Received(_) => "unexpected message during shutdown"@,
            _ => "unexpected error during shutdown"@,
        }),
{
    match next {
        FollowupEvent::Received(m) => {
            let is_exit = match &m {
                Message::Notification(n) => n.is_exit(),
                _ => false,
            };
            if is_exit {
                Ok(())
            } else {
                Err(ProtocolError(String::from_str("unexpected message during shutdown")))
            }
        },
        _ => Err(ProtocolError(String::from_str("unexpected error during shutdown"))),
    }
}

} // verus!
