//! Bounded outbound and inbound WebSocket message queues with exact byte
//! accounting.
use crate::text::{decimal, push_decimal, push_str};
use crate::websocket::WebSocketMessage;
use std::collections::VecDeque;
use vstd::prelude::*;

verus! {

pub const DEFAULT_MAX_WEBSOCKET_QUEUED_MESSAGES: usize = 64;

pub const DEFAULT_MAX_WEBSOCKET_QUEUED_BYTES: usize = 4194304;

#[derive(Clone, Copy, Debug, PartialEq, Eq, Structural)]
pub struct WebSocketQueueLimits {
    pub max_outbound_messages: usize,
    pub max_outbound_bytes: usize,
    pub max_inbound_messages: usize,
    pub max_inbound_bytes: usize,
}

impl WebSocketQueueLimits {
    pub open spec fn spec_is_valid(self) -> bool {
        self.max_outbound_messages > 0 && self.max_outbound_bytes > 0 && self.max_inbound_messages
            > 0 && self.max_inbound_bytes > 0
    }

    /// All four limits are non-zero.
    #[verifier::when_used_as_spec(spec_is_valid)]
    pub fn is_valid(self) -> (r: bool)
        ensures
            r == self.spec_is_valid(),
    {
        self.max_outbound_messages > 0 && self.max_outbound_bytes > 0 && self.max_inbound_messages
            > 0 && self.max_inbound_bytes > 0
    }
}

impl Default for WebSocketQueueLimits {
    fn default() -> (r: Self)
        ensures
            r == (WebSocketQueueLimits {
                max_outbound_messages: DEFAULT_MAX_WEBSOCKET_QUEUED_MESSAGES,
                max_outbound_bytes: DEFAULT_MAX_WEBSOCKET_QUEUED_BYTES,
                max_inbound_messages: DEFAULT_MAX_WEBSOCKET_QUEUED_MESSAGES,
                max_inbound_bytes: DEFAULT_MAX_WEBSOCKET_QUEUED_BYTES,
            }),
    {
        WebSocketQueueLimits {
            max_outbound_messages: DEFAULT_MAX_WEBSOCKET_QUEUED_MESSAGES,
            max_outbound_bytes: DEFAULT_MAX_WEBSOCKET_QUEUED_BYTES,
            max_inbound_messages: DEFAULT_MAX_WEBSOCKET_QUEUED_MESSAGES,
            max_inbound_bytes: DEFAULT_MAX_WEBSOCKET_QUEUED_BYTES,
        }
    }
}

#[derive(Clone, Copy, Debug, PartialEq, Eq, Structural)]
pub enum WebSocketQueueErrorKind {
    InvalidLimits,
    OutboundMessageLimitExceeded,
    OutboundByteLimitExceeded,
    InboundMessageLimitExceeded,
    InboundByteLimitExceeded,
    AccountingInvariantViolated,
}

#[derive(Clone, Debug, PartialEq, Eq)]
pub struct WebSocketQueueError {
    pub kind: WebSocketQueueErrorKind,
    pub message: String,
}

impl WebSocketQueueError {
    /// The error's message.
    pub fn to_string(&self) -> (r: String)
        ensures
            r@ == self.message@,
    {
        self.message.clone()
    }
}

fn queue_error(kind: WebSocketQueueErrorKind, message: String) -> (r: WebSocketQueueError)
    ensures
        r.kind == kind,
        r.message == message,
{
    WebSocketQueueError { kind, message }
}

#[derive(Clone, Copy, Debug, Default, PartialEq, Eq, Structural)]
pub struct WebSocketQueueSnapshot {
    outbound_messages: usize,
    outbound_bytes: usize,
    inbound_messages: usize,
    inbound_bytes: usize,
}

impl WebSocketQueueSnapshot {
    pub closed spec fn spec_outbound_messages(self) -> usize {
        self.outbound_messages
    }

    pub closed spec fn spec_outbound_bytes(self) -> usize {
        self.outbound_bytes
    }

    pub closed spec fn spec_inbound_messages(self) -> usize {
        self.inbound_messages
    }

    pub closed spec fn spec_inbound_bytes(self) -> usize {
        self.inbound_bytes
    }

    pub fn outbound_messages(self) -> (r: usize)
        ensures
            r == self.spec_outbound_messages(),
    {
        self.outbound_messages
    }

    pub fn outbound_bytes(self) -> (r: usize)
        ensures
            r == self.spec_outbound_bytes(),
    {
        self.outbound_bytes
    }

    pub fn inbound_messages(self) -> (r: usize)
        ensures
            r == self.spec_inbound_messages(),
    {
        self.inbound_messages
    }

    pub fn inbound_bytes(self) -> (r: usize)
        ensures
            r == self.spec_inbound_bytes(),
    {
        self.inbound_bytes
    }
}

/// The total payload size of a sequence of messages.
pub open spec fn total_bytes(s: Seq<WebSocketMessage>) -> nat
    decreases s.len(),
{
    if s.len() == 0 {
        0
    } else {
        total_bytes(s.drop_last()) + s.last().spec_len()
    }
}

/// Removing the front message removes exactly its size from the total.
pub proof fn lemma_total_bytes_front(s: Seq<WebSocketMessage>)
    requires
        s.len() > 0,
    ensures
        total_bytes(s) == s[0].spec_len() + total_bytes(s.drop_first()),
    decreases s.len(),
{
    if s.len() > 1 {
        lemma_total_bytes_front(s.drop_last());
        assert(s.drop_last().drop_first() =~= s.drop_first().drop_last());
    } else {
        assert(s.drop_last() =~= Seq::<WebSocketMessage>::empty());
        assert(s.drop_first() =~= Seq::<WebSocketMessage>::empty());
    }
}

/// The abstract state of a pair of message queues.
#[verifier::ext_equal]
pub struct WebSocketQueuesView {
    pub limits: WebSocketQueueLimits,
    pub outbound: Seq<WebSocketMessage>,
    pub outbound_bytes: nat,
    pub inbound: Seq<WebSocketMessage>,
    pub inbound_bytes: nat,
}

/// The outcome of adding `added` bytes to a queue holding `current` bytes
/// under `limit`: the new total, or why it is refused.
pub open spec fn checked_enqueue_bytes(current: nat, added: nat, limit: nat, over: WebSocketQueueErrorKind) -> Result<
    nat,
    WebSocketQueueErrorKind,
> {
    if current + added > usize::MAX {
        Err(WebSocketQueueErrorKind::AccountingInvariantViolated)
    } else if current + added > limit {
        Err(over)
    } else {
        Ok(current + added)
    }
}

impl WebSocketQueuesView {
    pub open spec fn empty(limits: WebSocketQueueLimits) -> Self {
        WebSocketQueuesView {
            limits,
            outbound: Seq::empty(),
            outbound_bytes: 0,
            inbound: Seq::empty(),
            inbound_bytes: 0,
        }
    }

    /// The byte counters equal the queued payload sizes, and each queue is
    /// within its message and byte limits.
    pub open spec fn wf(self) -> bool {
        &&& self.limits.spec_is_valid()
        &&& self.outbound_bytes == total_bytes(self.outbound)
        &&& self.inbound_bytes == total_bytes(self.inbound)
        &&& self.outbound.len() <= self.limits.max_outbound_messages
        &&& self.inbound.len() <= self.limits.max_inbound_messages
        &&& self.outbound_bytes <= self.limits.max_outbound_bytes
        &&& self.inbound_bytes <= self.limits.max_inbound_bytes
    }

    pub open spec fn enqueue_outbound(self, message: WebSocketMessage) -> (Self, Result<(), WebSocketQueueErrorKind>) {
        if self.outbound.len() >= self.limits.max_outbound_messages {
            (self, Err(WebSocketQueueErrorKind::OutboundMessageLimitExceeded))
        } else {
            match checked_enqueue_bytes(
                self.outbound_bytes,
                message.spec_len(),
                self.limits.max_outbound_bytes as nat,
                WebSocketQueueErrorKind::OutboundByteLimitExceeded,
            ) {
                Err(kind) => (self, Err(kind)),
                Ok(next) => (
                    WebSocketQueuesView {
                        outbound: self.outbound.push(message),
                        outbound_bytes: next,
                        ..self
                    },
                    Ok(()),
                ),
            }
        }
    }

    pub open spec fn enqueue_inbound(self, message: WebSocketMessage) -> (Self, Result<(), WebSocketQueueErrorKind>) {
        if self.inbound.len() >= self.limits.max_inbound_messages {
            (self, Err(WebSocketQueueErrorKind::InboundMessageLimitExceeded))
        } else {
            match checked_enqueue_bytes(
                self.inbound_bytes,
                message.spec_len(),
                self.limits.max_inbound_bytes as nat,
                WebSocketQueueErrorKind::InboundByteLimitExceeded,
            ) {
                Err(kind) => (self, Err(kind)),
                Ok(next) => (
                    WebSocketQueuesView {
                        inbound: self.inbound.push(message),
                        inbound_bytes: next,
                        ..self
                    },
                    Ok(()),
                ),
            }
        }
    }

    /// Removes the front outbound message once the transport has sent it.
    pub open spec fn complete_outbound(self) -> (Self, Option<WebSocketMessage>) {
        if self.outbound.len() == 0 {
            (self, None)
        } else {
            (
                WebSocketQueuesView {
                    outbound: self.outbound.drop_first(),
                    outbound_bytes: (self.outbound_bytes - self.outbound[0].spec_len()) as nat,
                    ..self
                },
                Some(self.outbound[0]),
            )
        }
    }

    /// Removes the front inbound message for delivery.
    pub open spec fn take_inbound(self) -> (Self, Option<WebSocketMessage>) {
        if self.inbound.len() == 0 {
            (self, None)
        } else {
            (
                WebSocketQueuesView {
                    inbound: self.inbound.drop_first(),
                    inbound_bytes: (self.inbound_bytes - self.inbound[0].spec_len()) as nat,
                    ..self
                },
                Some(self.inbound[0]),
            )
        }
    }

    /// The largest message that may still be received, or none while the
    /// inbound message count is at its limit.
    pub open spec fn inbound_receive_limit(self) -> Option<nat> {
        if self.inbound.len() >= self.limits.max_inbound_messages {
            None
        } else {
            Some((self.limits.max_inbound_bytes - self.inbound_bytes) as nat)
        }
    }
}

/// Both message queues of one WebSocket.
#[derive(Debug)]
pub struct WebSocketMessageQueues {
    limits: WebSocketQueueLimits,
    outbound: VecDeque<WebSocketMessage>,
    outbound_bytes: usize,
    inbound: VecDeque<WebSocketMessage>,
    inbound_bytes: usize,
}

impl View for WebSocketMessageQueues {
    type V = WebSocketQueuesView;

    closed spec fn view(&self) -> WebSocketQueuesView {
        WebSocketQueuesView {
            limits: self.limits,
            outbound: self.outbound@,
            outbound_bytes: self.outbound_bytes as nat,
            inbound: self.inbound@,
            inbound_bytes: self.inbound_bytes as nat,
        }
    }
}

fn enqueue_bytes(current: usize, added: usize, limit: usize, over: WebSocketQueueErrorKind, direction: &str) -> (r: Result<
    usize,
    WebSocketQueueError,
>)
    ensures
        match checked_enqueue_bytes(current as nat, added as nat, limit as nat, over) {
            Ok(next) => r matches Ok(n) && n == next,
            Err(kind) => r matches Err(e) && e.kind == kind,
        },
{
    let next = match current.checked_add(added) {
        Some(next) => next,
        None => {
            let mut message = String::new();
            push_str(&mut message, "WebSocket ");
            push_str(&mut message, direction);
            push_str(&mut message, " byte accounting overflow");
            return Err(queue_error(WebSocketQueueErrorKind::AccountingInvariantViolated, message));
        },
    };
    if next > limit {
        let mut message = String::new();
        push_str(&mut message, "WebSocket ");
        push_str(&mut message, direction);
        push_str(&mut message, " queue would retain ");
        push_decimal(&mut message, next);
        push_str(&mut message, " bytes; limit is ");
        push_decimal(&mut message, limit);
        return Err(queue_error(over, message));
    }
    Ok(next)
}

fn message_limit_error(kind: WebSocketQueueErrorKind, direction: &str, limit: usize) -> (r: WebSocketQueueError)
    ensures
        r.kind == kind,
        r.message@ == "WebSocket "@ + direction@ + " message limit "@ + decimal(limit as nat)
            + " reached"@,
{
    let mut message = String::new();
    push_str(&mut message, "WebSocket ");
    proof {
        assert(Seq::<char>::empty() + "WebSocket "@ =~= "WebSocket "@);
    }
    push_str(&mut message, direction);
    push_str(&mut message, " message limit ");
    push_decimal(&mut message, limit);
    push_str(&mut message, " reached");
    queue_error(kind, message)
}

impl WebSocketMessageQueues {
    pub fn try_new(limits: WebSocketQueueLimits) -> (r: Result<Self, WebSocketQueueError>)
        ensures
            !limits.spec_is_valid() ==> (r matches Err(e) && e.kind
                == WebSocketQueueErrorKind::InvalidLimits),
            limits.spec_is_valid() ==> (r matches Ok(q) && q@ == WebSocketQueuesView::empty(limits)
                && q@.wf()),
    {
        if !limits.is_valid() {
            return Err(
                queue_error(
                    WebSocketQueueErrorKind::InvalidLimits,
                    "WebSocket queue limits must all be non-zero".to_owned(),
                ),
            );
        }
        let q = WebSocketMessageQueues {
            limits,
            outbound: VecDeque::new(),
            outbound_bytes: 0,
            inbound: VecDeque::new(),
            inbound_bytes: 0,
        };
        assert(q@ =~= WebSocketQueuesView::empty(limits));
        Ok(q)
    }

    pub fn limits(&self) -> (r: WebSocketQueueLimits)
        ensures
            r == self@.limits,
    {
        self.limits
    }

    pub fn snapshot(&self) -> (r: WebSocketQueueSnapshot)
        ensures
            r.spec_outbound_messages() == self@.outbound.len(),
            r.spec_outbound_bytes() == self@.outbound_bytes,
            r.spec_inbound_messages() == self@.inbound.len(),
            r.spec_inbound_bytes() == self@.inbound_bytes,
    {
        WebSocketQueueSnapshot {
            outbound_messages: self.outbound.len(),
            outbound_bytes: self.outbound_bytes,
            inbound_messages: self.inbound.len(),
            inbound_bytes: self.inbound_bytes,
        }
    }

    /// Queues a message for sending, within the outbound message and byte
    /// limits; a refused message leaves the queues unchanged.
    pub fn enqueue_outbound(&mut self, message: WebSocketMessage) -> (r: Result<(), WebSocketQueueError>)
        requires
            old(self)@.wf(),
        ensures
            final(self)@ == old(self)@.enqueue_outbound(message).0,
            final(self)@.wf(),
            match old(self)@.enqueue_outbound(message).1 {
                Ok(()) => r is Ok,
                Err(kind) => r matches Err(e) && e.kind == kind,
            },
    {
        if self.outbound.len() >= self.limits.max_outbound_messages {
            return Err(
                message_limit_error(
                    WebSocketQueueErrorKind::OutboundMessageLimitExceeded,
                    "outbound",
                    self.limits.max_outbound_messages,
                ),
            );
        }
        let next = enqueue_bytes(
            self.outbound_bytes,
            message.len(),
            self.limits.max_outbound_bytes,
            WebSocketQueueErrorKind::OutboundByteLimitExceeded,
            "outbound",
        )?;
        let ghost m = message;
        self.outbound.push_back(message);
        self.outbound_bytes = next;
        proof {
            assert(self@.outbound.drop_last() =~= old(self)@.outbound);
            assert(self@ =~= old(self)@.enqueue_outbound(m).0);
        }
        Ok(())
    }

    pub fn outbound_front(&self) -> (r: Option<&WebSocketMessage>)
        ensures
            self@.outbound.len() == 0 ==> r is None,
            self@.outbound.len() > 0 ==> r == Some(&self@.outbound[0]),
    {
        if self.outbound.len() == 0 {
            None
        } else {
            Some(&self.outbound[0])
        }
    }

    /// Removes the front outbound message and releases its bytes.
    pub fn complete_outbound(&mut self) -> (r: Result<Option<WebSocketMessage>, WebSocketQueueError>)
        requires
            old(self)@.wf(),
        ensures
            r == Ok::<Option<WebSocketMessage>, WebSocketQueueError>(
                old(self)@.complete_outbound().1,
            ),
            final(self)@ == old(self)@.complete_outbound().0,
            final(self)@.wf(),
    {
        if self.outbound.len() == 0 {
            return Ok(None);
        }
        proof {
            lemma_total_bytes_front(self@.outbound);
        }
        let front_len = self.outbound[0].len();
        let next_bytes = self.outbound_bytes - front_len;
        let popped = self.outbound.pop_front();
        self.outbound_bytes = next_bytes;
        proof {
            assert(self@ =~= old(self)@.complete_outbound().0);
        }
        Ok(popped)
    }

    /// How many bytes the next received message may have, or `None` while the
    /// inbound message count is at its limit.
    pub fn inbound_receive_limit(&self) -> (r: Result<Option<usize>, WebSocketQueueError>)
        requires
            self@.wf(),
        ensures
            match self@.inbound_receive_limit() {
                None => r matches Ok(None),
                Some(n) => r matches Ok(Some(m)) && m == n,
            },
    {
        if self.inbound.len() >= self.limits.max_inbound_messages {
            return Ok(None);
        }
        Ok(Some(self.limits.max_inbound_bytes - self.inbound_bytes))
    }

    /// Queues a received message, within the inbound message and byte
    /// limits; a refused message leaves the queues unchanged.
    pub fn enqueue_inbound(&mut self, message: WebSocketMessage) -> (r: Result<(), WebSocketQueueError>)
        requires
            old(self)@.wf(),
        ensures
            final(self)@ == old(self)@.enqueue_inbound(message).0,
            final(self)@.wf(),
            match old(self)@.enqueue_inbound(message).1 {
                Ok(()) => r is Ok,
                Err(kind) => r matches Err(e) && e.kind == kind,
            },
    {
        if self.inbound.len() >= self.limits.max_inbound_messages {
            return Err(
                message_limit_error(
                    WebSocketQueueErrorKind::InboundMessageLimitExceeded,
                    "inbound",
                    self.limits.max_inbound_messages,
                ),
            );
        }
        let next = enqueue_bytes(
            self.inbound_bytes,
            message.len(),
            self.limits.max_inbound_bytes,
            WebSocketQueueErrorKind::InboundByteLimitExceeded,
            "inbound",
        )?;
        let ghost m = message;
        self.inbound.push_back(message);
        self.inbound_bytes = next;
        proof {
            assert(self@.inbound.drop_last() =~= old(self)@.inbound);
            assert(self@ =~= old(self)@.enqueue_inbound(m).0);
        }
        Ok(())
    }

    /// Removes the front inbound message and releases its bytes.
    pub fn take_inbound(&mut self) -> (r: Result<Option<WebSocketMessage>, WebSocketQueueError>)
        requires
            old(self)@.wf(),
        ensures
            r == Ok::<Option<WebSocketMessage>, WebSocketQueueError>(old(self)@.take_inbound().1),
            final(self)@ == old(self)@.take_inbound().0,
            final(self)@.wf(),
    {
        if self.inbound.len() == 0 {
            return Ok(None);
        }
        proof {
            lemma_total_bytes_front(self@.inbound);
        }
        let front_len = self.inbound[0].len();
        let next_bytes = self.inbound_bytes - front_len;
        let popped = self.inbound.pop_front();
        self.inbound_bytes = next_bytes;
        proof {
            assert(self@ =~= old(self)@.take_inbound().0);
        }
        Ok(popped)
    }

    /// Drops every queued message in both directions.
    pub fn clear(&mut self)
        requires
            old(self)@.wf(),
        ensures
            final(self)@ == WebSocketQueuesView::empty(old(self)@.limits),
            final(self)@.wf(),
    {
        self.outbound.clear();
        self.outbound_bytes = 0;
        self.inbound.clear();
        self.inbound_bytes = 0;
        assert(self@ =~= WebSocketQueuesView::empty(old(self)@.limits));
    }
}

impl Default for WebSocketMessageQueues {
    fn default() -> (r: Self)
        ensures
            r@.wf(),
            r@.limits == WebSocketQueueLimits::default_spec(),
            r@.outbound.len() == 0 && r@.inbound.len() == 0,
    {
        let limits = WebSocketQueueLimits::default();
        let q = WebSocketMessageQueues {
            limits,
            outbound: VecDeque::new(),
            outbound_bytes: 0,
            inbound: VecDeque::new(),
            inbound_bytes: 0,
        };
        q
    }
}

impl WebSocketQueueLimits {
    pub open spec fn default_spec() -> Self {
        WebSocketQueueLimits {
            max_outbound_messages: DEFAULT_MAX_WEBSOCKET_QUEUED_MESSAGES,
            max_outbound_bytes: DEFAULT_MAX_WEBSOCKET_QUEUED_BYTES,
            max_inbound_messages: DEFAULT_MAX_WEBSOCKET_QUEUED_MESSAGES,
            max_inbound_bytes: DEFAULT_MAX_WEBSOCKET_QUEUED_BYTES,
        }
    }
}

/// Each queue is first in, first out: a message queued behind others leaves
/// after them, and into an empty queue it is the next to leave.
pub proof fn lemma_outbound_is_fifo(v: WebSocketQueuesView, m: WebSocketMessage)
    requires
        v.wf(),
        v.enqueue_outbound(m).1 is Ok,
    ensures
        v.enqueue_outbound(m).0.complete_outbound().1 == if v.outbound.len() == 0 {
            Some(m)
        } else {
            Some(v.outbound[0])
        },
{
}

/// The inbound queue is first in, first out.
pub proof fn lemma_inbound_is_fifo(v: WebSocketQueuesView, m: WebSocketMessage)
    requires
        v.wf(),
        v.enqueue_inbound(m).1 is Ok,
    ensures
        v.enqueue_inbound(m).0.take_inbound().1 == if v.inbound.len() == 0 {
            Some(m)
        } else {
            Some(v.inbound[0])
        },
{
}

/// Sending a message that was just queued into an empty outbound queue gives
/// back exactly the capacity it took.
pub proof fn lemma_outbound_capacity_recovered(v: WebSocketQueuesView, m: WebSocketMessage)
    requires
        v.wf(),
        v.outbound.len() == 0,
        v.enqueue_outbound(m).1 is Ok,
    ensures
        v.enqueue_outbound(m).0.complete_outbound().0 == v,
{
    let after = v.enqueue_outbound(m).0;
    assert(after.outbound.drop_first() =~= v.outbound);
    assert(after.complete_outbound().0 =~= v);
}

/// A refused message changes neither queue nor any counter.
pub proof fn lemma_refusal_keeps_accounting(v: WebSocketQueuesView, m: WebSocketMessage)
    ensures
        v.enqueue_outbound(m).1 is Err ==> v.enqueue_outbound(m).0 == v,
        v.enqueue_inbound(m).1 is Err ==> v.enqueue_inbound(m).0 == v,
{
}

/// While the inbound count allows another message, the receive bound is the
/// unused byte budget, and a message of that size or less is accepted.
pub proof fn lemma_receive_bound_is_accepted(v: WebSocketQueuesView, m: WebSocketMessage)
    requires
        v.wf(),
        v.inbound_receive_limit() matches Some(n) && m.spec_len() <= n,
    ensures
        v.enqueue_inbound(m).1 is Ok,
{
}

} // verus!
