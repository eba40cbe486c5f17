use vstd::prelude::*;
use crate::model::{AppState, Channels, Counters, Log, Priority, RequestContext, other, wrap_usize};
use crate::negative_cache::NegativeCache;
use crate::status::{Outcome, NOT_FOUND, is_client_error, is_success, spec_is_client_error, spec_is_success};

verus! {

/// Whether the sender tries again after this outcome: the connection
/// failed, or the status is neither a success nor a client error.
pub open spec fn sender_retries(outcome: Outcome) -> bool {
    match outcome {
        Outcome::ConnectionError => true,
        Outcome::Status(code) => !spec_is_success(code) && !spec_is_client_error(code),
    }
}

/// Whether the sender tries again after this outcome.
pub fn is_retried(outcome: Outcome) -> (b: bool)
    ensures
        b == sender_retries(outcome),
        b <==> (outcome == Outcome::ConnectionError || (outcome matches Outcome::Status(code) && !(200 <= code
            && code <= 299) && !(400 <= code && code <= 499))),
{
    match outcome {
        Outcome::ConnectionError => true,
        Outcome::Status(code) => !is_success(code) && !is_client_error(code),
    }
}

/// Sends copies of requests: it hands them to its clients in turn, skips
/// targets that answered `404 Not Found`, logs every answer and keeps the
/// counters of each priority.
pub struct RequestSender<C, S, F> {
    clients: Vec<C>,
    client_selection: usize,
    state: AppState<S, F>,
    retry_delay: u64,
    negcache_404: NegativeCache,
}

impl<C, S, F> RequestSender<C, S, F> {
    /// The clients, in the order in which they are handed out.
    pub closed spec fn clients(&self) -> Seq<C> {
        self.clients@
    }

    /// How many clients were handed out so far, modulo the word size.
    pub closed spec fn selection(&self) -> usize {
        self.client_selection
    }

    /// The counters of each priority.
    pub closed spec fn counters(&self) -> Counters {
        self.state.counters
    }

    /// The log of answers.
    pub closed spec fn log(&self) -> Log {
        self.state.log
    }

    /// The channels into the queues.
    pub closed spec fn channels(&self) -> Channels<S, F> {
        self.state.channels
    }

    /// The banned targets.
    pub closed spec fn banned(&self) -> Set<Seq<char>> {
        self.negcache_404@
    }

    /// How many seconds a copy waits before it is tried again.
    pub closed spec fn delay(&self) -> u64 {
        self.retry_delay
    }

    /// A sender over `clients` that shares `state` and bans nothing.
    pub fn new(state: AppState<S, F>, clients: Vec<C>, retry_delay: u64) -> (s: Self)
        requires
            clients@.len() > 0,
        ensures
            s.clients() == clients@,
            s.selection() == 0,
            s.counters() == state.counters,
            s.log() == state.log,
            s.channels() == state.channels,
            s.banned() == Set::<Seq<char>>::empty(),
            s.delay() == retry_delay,
    {
        RequestSender {
            clients,
            client_selection: 0,
            state,
            retry_delay,
            negcache_404: NegativeCache::new(),
        }
    }

    /// The sender into the queue of priority `p`.
    pub fn queue_of(&self, p: Priority) -> (q: &S)
        ensures
            *q == self.channels().queue(p),
    {
        self.state.channels.get_queue(p)
    }

    /// How many seconds a copy waits before it is tried again.
    pub fn retry_delay(&self) -> (d: u64)
        ensures
            d == self.delay(),
    {
        self.retry_delay
    }

    /// The client that sends the next request: the clients take turns.
    pub fn next_client(&mut self) -> (c: &C)
        requires
            old(self).clients().len() > 0,
        ensures
            c == old(self).clients()[(old(self).selection() as int) % (old(self).clients().len() as int)],
            final(self).selection() == wrap_usize(old(self).selection() + 1),
            final(self).clients() == old(self).clients(),
            final(self).channels() == old(self).channels(),
            final(self).delay() == old(self).delay(),
            final(self).counters() == old(self).counters(),
            final(self).log() == old(self).log(),
            final(self).banned() == old(self).banned(),
    {
        let n = self.client_selection;
        self.client_selection = self.client_selection.wrapping_add(1);
        let n = n % self.clients.len();
        &self.clients[n]
    }

    /// Whether the next high-priority copy may wait no longer: no
    /// high-priority copy is queued, so low-priority copies may go.
    pub fn is_high_priority_idle(&self) -> (b: bool)
        ensures
            b == (self.counters().counter(Priority::High).queued == 0),
    {
        self.state.counters.get(Priority::High).is_queue_empty()
    }

    /// A copy of priority `p` leaves the queue: it is not sent when its target
    /// is banned, and then nothing changes; otherwise it counts as taken
    /// from the queue.
    pub fn take_up(&mut self, ctx: &RequestContext, p: Priority) -> (send: bool)
        ensures
            send == !old(self).banned().contains(ctx.target@),
            !send ==> final(self).counters() == old(self).counters(),
            send ==> final(self).counters().counter(p).queued == wrap_usize(old(self).counters().counter(p).queued - 1)
                && final(self).counters().counter(p).succeed == old(self).counters().counter(p).succeed
                && final(self).counters().counter(p).failed == old(self).counters().counter(p).failed
                && final(self).counters().counter(p).dropped == old(self).counters().counter(p).dropped
                && final(self).counters().counter(other(p)) == old(self).counters().counter(other(p)),
            final(self).log() == old(self).log(),
            final(self).banned() == old(self).banned(),
            final(self).clients() == old(self).clients(),
            final(self).channels() == old(self).channels(),
            final(self).delay() == old(self).delay(),
            final(self).selection() == old(self).selection(),
    {
        if self.negcache_404.is_banned(ctx.target.as_str()) {
            return false;
        }
        self.state.counters.get_mut(p).resolve();
        true
    }

    /// A copy of priority `p` waits in the queue again.
    pub fn requeued(&mut self, p: Priority)
        ensures
            final(self).counters().counter(p).queued == wrap_usize(old(self).counters().counter(p).queued + 1),
            final(self).counters().counter(p).succeed == old(self).counters().counter(p).succeed,
            final(self).counters().counter(p).failed == old(self).counters().counter(p).failed,
            final(self).counters().counter(p).dropped == old(self).counters().counter(p).dropped,
            final(self).counters().counter(other(p)) == old(self).counters().counter(other(p)),
            final(self).log() == old(self).log(),
            final(self).banned() == old(self).banned(),
            final(self).clients() == old(self).clients(),
            final(self).channels() == old(self).channels(),
            final(self).delay() == old(self).delay(),
            final(self).selection() == old(self).selection(),
    {
        self.state.counters.get_mut(p).enqueue();
    }

    /// What the outcome of sending a copy of priority `p` means. Every answer
    /// is logged. A success counts as such. A client error counts as a
    /// failure; a `404 Not Found` also bans the target. Any other answer, or a
    /// failed connection, uses up one attempt: the copy comes back to be
    /// sent again while it has attempts left, and counts as a failure when it
    /// has none.
    pub fn settle(&mut self, ctx: RequestContext, p: Priority, outcome: Outcome) -> (r: Option<RequestContext>)
        requires
            sender_retries(outcome) ==> ctx.ttl > 0,
        ensures
            match outcome {
                Outcome::Status(code) => final(self).log().codes() == old(self).log().codes().insert(code)
                    && forall|c: u16| #[trigger] final(self).log().targets_for(c) == if c == code {
                        old(self).log().targets_for(c).insert(ctx.target@)
                    } else {
                        old(self).log().targets_for(c)
                    },
                Outcome::ConnectionError => final(self).log() == old(self).log(),
            },
            final(self).banned() == (if outcome == Outcome::Status(NOT_FOUND) {
                old(self).banned().insert(ctx.target@)
            } else {
                old(self).banned()
            }),
            sender_retries(outcome) && ctx.ttl > 1 ==> (r matches Some(c) && c.ttl == ctx.ttl - 1
                && c.target == ctx.target && c.readonly_objects == ctx.readonly_objects && c.body == ctx.body),
            !(sender_retries(outcome) && ctx.ttl > 1) ==> r is None,
            outcome == Outcome::ConnectionError && ctx.ttl > 1 ==> (r matches Some(c) && c.ttl == ctx.ttl - 1
                && c.target == ctx.target)
                && final(self).counters().counter(p).failed == old(self).counters().counter(p).failed
                && final(self).counters().counter(p).succeed == old(self).counters().counter(p).succeed,
            outcome == Outcome::ConnectionError && ctx.ttl == 1 ==> r is None
                && final(self).counters().counter(p).failed == wrap_usize(old(self).counters().counter(p).failed + 1),
            (outcome matches Outcome::Status(code) && 200 <= code && code <= 299) ==> r is None
                && final(self).counters().counter(p).succeed == wrap_usize(old(self).counters().counter(p).succeed + 1)
                && final(self).counters().counter(p).failed == old(self).counters().counter(p).failed,
            (outcome matches Outcome::Status(code) && 400 <= code && code <= 499) ==> r is None
                && final(self).counters().counter(p).failed == wrap_usize(old(self).counters().counter(p).failed + 1)
                && final(self).counters().counter(p).succeed == old(self).counters().counter(p).succeed,
            (outcome matches Outcome::Status(code) && !(200 <= code && code <= 299) && !(400 <= code && code
                <= 499)) && ctx.ttl > 1 ==> (r matches Some(c) && c.ttl == ctx.ttl - 1 && c.target == ctx.target),
            outcome == Outcome::Status(404) ==> final(self).banned() == old(self).banned().insert(ctx.target@),
            outcome != Outcome::Status(404) ==> final(self).banned() == old(self).banned(),
            ({
                let before = old(self).counters().counter(p);
                let after = final(self).counters().counter(p);
                let succeeded = outcome matches Outcome::Status(code) && spec_is_success(code);
                let failed = !succeeded && !(sender_retries(outcome) && ctx.ttl > 1);
                &&& after.queued == before.queued
                &&& after.dropped == before.dropped
                &&& after.succeed == (if succeeded { wrap_usize(before.succeed + 1) } else { before.succeed })
                &&& after.failed == (if failed { wrap_usize(before.failed + 1) } else { before.failed })
            }),
            final(self).counters().counter(other(p)) == old(self).counters().counter(other(p)),
            final(self).clients() == old(self).clients(),
            final(self).channels() == old(self).channels(),
            final(self).delay() == old(self).delay(),
            final(self).selection() == old(self).selection(),
    {
        match outcome {
            Outcome::Status(code) => {
                self.state.log.append(code, ctx.target.as_str());
                if is_success(code) {
                    self.state.counters.get_mut(p).succeed();
                    return None;
                }
                if code == NOT_FOUND {
                    self.negcache_404.ban(ctx.target.as_str());
                }
                if is_client_error(code) {
                    self.state.counters.get_mut(p).failed();
                    return None;
                }
                self.retry(ctx, p)
            },
            Outcome::ConnectionError => self.retry(ctx, p),
        }
    }

    /// One attempt of the copy is used up: it comes back while it has
    /// attempts left, and counts as a failure when it has none.
    fn retry(&mut self, ctx: RequestContext, p: Priority) -> (r: Option<RequestContext>)
        requires
            ctx.ttl > 0,
        ensures
            ctx.ttl > 1 ==> (r matches Some(c) && c.ttl == ctx.ttl - 1 && c.target == ctx.target
                && c.readonly_objects == ctx.readonly_objects && c.body == ctx.body),
            ctx.ttl == 1 ==> r is None,
            final(self).counters().counter(p).failed == (if ctx.ttl == 1 {
                wrap_usize(old(self).counters().counter(p).failed + 1)
            } else {
                old(self).counters().counter(p).failed
            }),
            final(self).counters().counter(p).queued == old(self).counters().counter(p).queued,
            final(self).counters().counter(p).succeed == old(self).counters().counter(p).succeed,
            final(self).counters().counter(p).dropped == old(self).counters().counter(p).dropped,
            final(self).counters().counter(other(p)) == old(self).counters().counter(other(p)),
            final(self).log() == old(self).log(),
            final(self).banned() == old(self).banned(),
            final(self).clients() == old(self).clients(),
            final(self).channels() == old(self).channels(),
            final(self).delay() == old(self).delay(),
            final(self).selection() == old(self).selection(),
    {
        let mut ctx = ctx;
        ctx.ttl = ctx.ttl - 1;
        if ctx.ttl != 0 {
            Some(ctx)
        } else {
            self.state.counters.get_mut(p).failed();
            None
        }
    }
}

/// The clients take turns: `k` turns after the client at position
/// `c % len` comes the client `k` positions further on, cyclically. This
/// holds while the counter does not wrap around, and across the wrap-around
/// too when the number of clients is a power of two.
pub proof fn lemma_clients_take_turns(c: usize, k: nat, len: nat)
    requires
        0 < len <= usize::MAX,
        c + k <= usize::MAX || crate::dispatch::load_balancer::power_of_two(len),
    ensures
        (crate::dispatch::load_balancer::counter_after(c, k) as int) % (len as int) == ((c as int) % (len as int)
            + k) % (len as int),
{
    crate::dispatch::load_balancer::lemma_turns_after(c, k, len);
}

/// The sender tries a copy again exactly when the connection failed or the
/// answer is neither a success (200 to 299) nor a client error (400 to
/// 499): a failed connection is always retried, and so are `1xx`, `3xx` and
/// `5xx` answers.
pub proof fn lemma_sender_retries_failures()
    ensures
        sender_retries(Outcome::ConnectionError),
        forall|code: u16| 200 <= code && code <= 299 ==> !#[trigger] sender_retries(Outcome::Status(code)),
        forall|code: u16| 400 <= code && code <= 499 ==> !#[trigger] sender_retries(Outcome::Status(code)),
        forall|code: u16|
            !(200 <= code && code <= 299) && !(400 <= code && code <= 499) ==> #[trigger] sender_retries(
                Outcome::Status(code),
            ),
{
}

} // verus!
