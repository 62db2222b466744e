//! The bulk delete engine: a FIFO queue of messages to delete that retries
//! a rate-limited message before any other, after a server-given pause.

use std::collections::VecDeque;

use vstd::prelude::*;

use crate::snowflake::Snowflake;

verus! {

/// Safety margin added to every server-given retry delay, in milliseconds.
pub const RATE_LIMIT_MARGIN_MS: u64 = 3000;

/// What the remote API answered to one delete request.
#[derive(Clone, Copy, Debug, PartialEq, Eq, Structural)]
pub enum DeleteOutcome {
    /// The message is gone (a 2xx status).
    Deleted,
    /// The route is rate limited; the server asks to wait this long.
    RateLimited { retry_after_ms: u32 },
    /// Any other status: the message is given up.
    Failed { status: u16 },
}

/// The HTTP status of a rate-limited answer.
pub const TOO_MANY_REQUESTS: u16 = 429;

/// How an answer to a delete request counts: a 2xx status deleted the
/// message, 429 rate limits it for `retry_after_ms`, anything else fails.
pub open spec fn delete_outcome_spec(status: u16, retry_after_ms: u32) -> DeleteOutcome {
    if 200 <= status && status <= 299 {
        DeleteOutcome::Deleted
    } else if status == TOO_MANY_REQUESTS {
        DeleteOutcome::RateLimited { retry_after_ms }
    } else {
        DeleteOutcome::Failed { status }
    }
}

/// Classifies the answer to a delete request from its status and, for a
/// rate-limited answer, the server's retry delay in milliseconds.
pub fn delete_outcome(status: u16, retry_after_ms: u32) -> (r: DeleteOutcome)
    ensures
        r == delete_outcome_spec(status, retry_after_ms),
{
    if 200 <= status && status <= 299 {
        DeleteOutcome::Deleted
    } else if status == TOO_MANY_REQUESTS {
        DeleteOutcome::RateLimited { retry_after_ms }
    } else {
        DeleteOutcome::Failed { status }
    }
}

/// The pause, in milliseconds, before the next request after a rate-limit
/// answer: the server's delay plus the safety margin.
pub open spec fn backoff_ms(retry_after_ms: u32) -> u64 {
    (retry_after_ms + RATE_LIMIT_MARGIN_MS) as u64
}

/// The queue of a bulk deletion. Its view is the sequence of messages still
/// to delete, the next one first.
pub struct BulkDelete {
    queue: VecDeque<Snowflake>,
}

impl View for BulkDelete {
    type V = Seq<Snowflake>;

    closed spec fn view(&self) -> Seq<Snowflake> {
        self.queue@
    }
}

impl BulkDelete {
    /// A queue seeded with `messages`, in order.
    pub fn new(messages: &Vec<Snowflake>) -> (r: BulkDelete)
        ensures
            r@ == messages@,
    {
        let mut queue: VecDeque<Snowflake> = VecDeque::new();
        let mut i: usize = 0;
        while i < messages.len()
            invariant
                i <= messages@.len(),
                queue@ == messages@.subrange(0, i as int),
            decreases messages@.len() - i,
        {
            queue.push_back(messages[i]);
            i = i + 1;
            assert(queue@ =~= messages@.subrange(0, i as int));
        }
        assert(messages@.subrange(0, i as int) =~= messages@);
        BulkDelete { queue }
    }

    /// The message to delete next, if any is left.
    pub fn next(&self) -> (r: Option<Snowflake>)
        ensures
            self@.len() == 0 ==> r is None,
            self@.len() > 0 ==> r == Some(self@[0]),
    {
        if self.queue.len() == 0 {
            None
        } else {
            Some(self.queue[0])
        }
    }

    /// Whether every message has been dealt with.
    pub fn is_done(&self) -> (r: bool)
        ensures
            r == (self@.len() == 0),
    {
        self.queue.len() == 0
    }

    /// Records the answer to the delete request for the message at the
    /// front. A deleted or failed message leaves the queue; a rate-limited
    /// one stays at the front, to be retried before any other, and the
    /// whole engine pauses for the returned number of milliseconds.
    pub fn record(&mut self, outcome: DeleteOutcome) -> (r: Option<u64>)
        requires
            old(self)@.len() > 0,
        ensures
            final(self)@ == after(old(self)@, outcome),
            r == match outcome {
                DeleteOutcome::RateLimited { retry_after_ms } => Some(backoff_ms(retry_after_ms)),
                _ => None,
            },
    {
        let front = self.queue.pop_front();
        match outcome {
            DeleteOutcome::RateLimited { retry_after_ms } => {
                match front {
                    Some(id) => {
                        self.queue.push_front(id);
                    },
                    None => {},
                }
                assert(self.queue@ =~= old(self)@);
                Some(retry_after_ms as u64 + RATE_LIMIT_MARGIN_MS)
            },
            _ => {
                assert(self.queue@ =~= old(self)@.drop_first());
                None
            },
        }
    }
}

/// The queue after the answer `outcome` for its front message: a
/// rate-limited message stays at the front; any other answer removes it.
pub open spec fn after(queue: Seq<Snowflake>, outcome: DeleteOutcome) -> Seq<Snowflake> {
    match outcome {
        DeleteOutcome::RateLimited { .. } => queue,
        _ => queue.drop_first(),
    }
}

/// The messages that the engine asks to delete, in order, when the remote
/// API answers with `outcomes`, one per request, starting from `queue`.
pub open spec fn attempts(queue: Seq<Snowflake>, outcomes: Seq<DeleteOutcome>) -> Seq<Snowflake>
    decreases outcomes.len(),
{
    if queue.len() == 0 || outcomes.len() == 0 {
        Seq::empty()
    } else {
        seq![queue[0]] + attempts(after(queue, outcomes[0]), outcomes.drop_first())
    }
}

/// A rate-limited message is asked for again at once: after a rate-limit
/// answer the next request is for the same message, before any behind it.
pub proof fn lemma_rate_limited_retried_first(
    queue: Seq<Snowflake>,
    retry_after_ms: u32,
    outcomes: Seq<DeleteOutcome>,
)
    requires
        queue.len() > 0,
        outcomes.len() > 0,
    ensures
        attempts(queue, seq![DeleteOutcome::RateLimited { retry_after_ms }] + outcomes)
            == seq![queue[0]] + attempts(queue, outcomes),
        attempts(queue, outcomes)[0] == queue[0],
{
    let all = seq![DeleteOutcome::RateLimited { retry_after_ms }] + outcomes;
    assert(all.drop_first() =~= outcomes);
}

/// Deleting `[a, b, c]` where `b` is rate limited once asks for `a`, `b`,
/// `b` again, then `c`.
pub proof fn lemma_retry_order(a: Snowflake, b: Snowflake, c: Snowflake, retry_after_ms: u32)
    ensures
        attempts(
            seq![a, b, c],
            seq![
                DeleteOutcome::Deleted,
                DeleteOutcome::RateLimited { retry_after_ms },
                DeleteOutcome::Deleted,
                DeleteOutcome::Deleted,
            ],
        ) == seq![a, b, b, c],
{
    let q = seq![a, b, c];
    let o = seq![
        DeleteOutcome::Deleted,
        DeleteOutcome::RateLimited { retry_after_ms },
        DeleteOutcome::Deleted,
        DeleteOutcome::Deleted,
    ];
    reveal_with_fuel(attempts, 5);
    assert(q.drop_first() =~= seq![b, c]);
    assert(seq![b, c].drop_first() =~= seq![c]);
    assert(seq![c].drop_first() =~= Seq::<Snowflake>::empty());
    assert(o.drop_first() =~= seq![
        DeleteOutcome::RateLimited { retry_after_ms },
        DeleteOutcome::Deleted,
        DeleteOutcome::Deleted,
    ]);
    assert(o.drop_first().drop_first() =~= seq![DeleteOutcome::Deleted, DeleteOutcome::Deleted]);
    assert(o.drop_first().drop_first().drop_first() =~= seq![DeleteOutcome::Deleted]);
    assert(attempts(q, o) =~= seq![a, b, b, c]);
}

} // verus!
