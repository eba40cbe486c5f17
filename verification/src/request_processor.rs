use vstd::prelude::*;
use crate::model::{Counters, Priority, RequestContext, other, wrap_usize};
use crate::status::Outcome;

verus! {

/// How many seconds a failed copy waits before it is sent again.
pub const RETRY_DELAY_SECS: u64 = 3;

/// Whether the outcome is a delivery: a status in `200..=299`.
pub open spec fn delivered(outcome: Outcome) -> bool {
    outcome matches Outcome::Status(code) && 200 <= code && code <= 299
}

/// Whether the outcome is a delivery.
pub fn is_delivered(outcome: Outcome) -> (b: bool)
    ensures
        b == delivered(outcome),
        b <==> (outcome matches Outcome::Status(code) && 200 <= code && code <= 299),
{
    match outcome {
        Outcome::Status(code) => 200 <= code && code <= 299,
        Outcome::ConnectionError => false,
    }
}

/// Whether a low-priority copy may be taken: no high-priority copy is
/// queued.
pub fn low_priority_allowed(counters: &Counters) -> (b: bool)
    ensures
        b == (counters.counter(Priority::High).queued == 0),
{
    counters.get(Priority::High).queued == 0
}

/// A copy of priority `p` leaves the queue to be sent.
pub fn begin_request(counters: &mut Counters, p: Priority)
    ensures
        final(counters).counter(p).queued == wrap_usize(old(counters).counter(p).queued - 1),
        final(counters).counter(p).succeed == old(counters).counter(p).succeed,
        final(counters).counter(p).failed == old(counters).counter(p).failed,
        final(counters).counter(p).dropped == old(counters).counter(p).dropped,
        final(counters).counter(other(p)) == old(counters).counter(other(p)),
{
    counters.get_mut(p).resolve();
}

/// A copy of priority `p` waits in the queue again.
pub fn requeue_request(counters: &mut Counters, p: Priority)
    ensures
        final(counters).counter(p).queued == wrap_usize(old(counters).counter(p).queued + 1),
        final(counters).counter(p).succeed == old(counters).counter(p).succeed,
        final(counters).counter(p).failed == old(counters).counter(p).failed,
        final(counters).counter(p).dropped == old(counters).counter(p).dropped,
        final(counters).counter(other(p)) == old(counters).counter(other(p)),
{
    counters.get_mut(p).enqueue();
}

/// What the outcome of sending a copy of priority `p` means: a delivery
/// counts as a success; anything else counts as a failure and uses up one
/// attempt, and the copy comes back to be sent again while it has attempts
/// left, or counts as dropped when it has none.
pub fn settle_request(counters: &mut Counters, ctx: RequestContext, p: Priority, outcome: Outcome) -> (r: Option<RequestContext>)
    requires
        !delivered(outcome) ==> ctx.ttl > 0,
    ensures
        delivered(outcome) ==> r is None
            && final(counters).counter(p).succeed == wrap_usize(old(counters).counter(p).succeed + 1)
            && final(counters).counter(p).failed == old(counters).counter(p).failed
            && final(counters).counter(p).dropped == old(counters).counter(p).dropped,
        !delivered(outcome) ==> final(counters).counter(p).succeed == old(counters).counter(p).succeed
            && final(counters).counter(p).failed == wrap_usize(old(counters).counter(p).failed + 1),
        !delivered(outcome) && ctx.ttl > 1 ==> (r matches Some(c) && c.ttl == ctx.ttl - 1
            && c.target == ctx.target && c.readonly_objects == ctx.readonly_objects && c.body == ctx.body)
            && final(counters).counter(p).dropped == old(counters).counter(p).dropped,
        !delivered(outcome) && ctx.ttl == 1 ==> r is None
            && final(counters).counter(p).dropped == wrap_usize(old(counters).counter(p).dropped + 1),
        (outcome matches Outcome::Status(code) && 200 <= code && code <= 299) ==> r is None
            && final(counters).counter(p).succeed == wrap_usize(old(counters).counter(p).succeed + 1)
            && final(counters).counter(p).failed == old(counters).counter(p).failed
            && final(counters).counter(p).dropped == old(counters).counter(p).dropped,
        (outcome == Outcome::ConnectionError || (outcome matches Outcome::Status(code) && !(200 <= code
            && code <= 299))) ==> final(counters).counter(p).succeed == old(counters).counter(p).succeed
            && final(counters).counter(p).failed == wrap_usize(old(counters).counter(p).failed + 1)
            && (ctx.ttl > 1 ==> (r matches Some(c) && c.ttl == ctx.ttl - 1))
            && (ctx.ttl == 1 ==> r is None),
        final(counters).counter(p).queued == old(counters).counter(p).queued,
        final(counters).counter(other(p)) == old(counters).counter(other(p)),
{
    if is_delivered(outcome) {
        counters.get_mut(p).succeed();
        return None;
    }
    counters.get_mut(p).failed();
    let mut ctx = ctx;
    ctx.ttl = ctx.ttl - 1;
    if ctx.ttl != 0 {
        Some(ctx)
    } else {
        counters.get_mut(p).dropped();
        None
    }
}

/// A delivery is exactly an answer with a status from 200 to 299: every
/// `2xx` status counts, no other answer and no failed connection does.
pub proof fn lemma_delivery_is_any_2xx()
    ensures
        forall|code: u16| 200 <= code && code <= 299 ==> #[trigger] delivered(Outcome::Status(code)),
        forall|code: u16| !(200 <= code && code <= 299) ==> !#[trigger] delivered(Outcome::Status(code)),
        !delivered(Outcome::ConnectionError),
{
}

} // verus!
