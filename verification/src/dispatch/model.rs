use vstd::prelude::*;
use std::sync::Arc;
use crate::headers::Header;
use crate::model::Priority;
use crate::dispatch::queue::Priorized;

verus! {

/// What is sent to every target: the body, the headers and the method of
/// the incoming request.
pub struct Payload {
    pub body: Vec<u8>,
    pub headers: Vec<Header>,
    pub method: String,
}

/// What the copies of one incoming request share: its identifier, its
/// priority and its payload.
pub struct Context {
    pub id: String,
    pub priority: Priority,
    pub payload: Payload,
}

/// One copy of a request: the target to send it to, the shared context and
/// how many attempts it has left.
pub struct Task {
    pub target: String,
    pub context: Arc<Context>,
    pub ttl: usize,
}

impl Priorized for Task {
    open spec fn spec_priority(&self) -> Priority {
        self.context.priority
    }

    fn priority(&self) -> (p: Priority) {
        self.context.priority
    }
}

impl Task {
    /// One attempt is used up: the task comes back if it has any left.
    pub fn drain(self) -> (r: Option<Self>)
        requires
            self.ttl > 0,
        ensures
            self.ttl == 1 ==> r is None,
            self.ttl > 1 ==> (r matches Some(t) && t.ttl == self.ttl - 1 && t.target == self.target
                && t.context == self.context),
    {
        let mut t = self;
        t.ttl = t.ttl - 1;
        if t.ttl == 0 {
            return None;
        }
        Some(t)
    }
}

/// A task is tried at most as many times as it had attempts: along any
/// chain of attempts, where each retry has one attempt less than the try
/// before and is only made while an attempt is left, there are no more
/// tries than the first one had attempts.
pub proof fn lemma_attempts_bounded(ttls: Seq<int>)
    requires
        ttls.len() > 0,
        forall|i: int| 0 <= i < ttls.len() ==> #[trigger] ttls[i] >= 1,
        forall|i: int| 0 < i < ttls.len() ==> #[trigger] ttls[i] == ttls[i - 1] - 1,
    ensures
        ttls.len() <= ttls[0],
    decreases ttls.len(),
{
    if ttls.len() > 1 {
        let rest = ttls.drop_first();
        assert forall|i: int| 0 < i < rest.len() implies #[trigger] rest[i] == rest[i - 1] - 1 by {
            assert(rest[i] == ttls[i + 1]);
            assert(rest[i - 1] == ttls[i]);
        }
        assert forall|i: int| 0 <= i < rest.len() implies #[trigger] rest[i] >= 1 by {
            assert(rest[i] == ttls[i + 1]);
        }
        lemma_attempts_bounded(rest);
        assert(rest[0] == ttls[1]);
    }
}

} // verus!
