use vstd::prelude::*;
use std::sync::Arc;
use crate::headers::Header;
use crate::string_set::{StringSet, string_views};

verus! {

/// The priority of a request: high-priority work is always served before
/// low-priority work.
#[derive(Clone, Copy, Debug, PartialEq, Eq, Structural)]
pub enum Priority {
    High,
    Low,
}

/// The value that a machine word holds after adding `x` (which may be
/// negative) to it with wrap-around, for any `x` that is off the range of
/// `usize` by less than one full turn.
pub open spec fn wrap_usize(x: int) -> usize {
    if x > usize::MAX {
        (x - (usize::MAX + 1)) as usize
    } else if x < 0 {
        (x + (usize::MAX + 1)) as usize
    } else {
        x as usize
    }
}

/// Wrapping moves a value by at most one full turn of the word, so that it
/// lands in the range of `usize`.
pub proof fn lemma_wrap_is_modular(x: int)
    requires
        -(usize::MAX + 1) < x <= 2 * usize::MAX + 1,
    ensures
        0 <= wrap_usize(x) <= usize::MAX,
        wrap_usize(x) as int == x || wrap_usize(x) as int == x - (usize::MAX + 1) || wrap_usize(x) as int == x
            + (usize::MAX + 1),
        0 <= x <= usize::MAX ==> wrap_usize(x) as int == x,
{
}

/// The bookkeeping of one priority level: how many requests wait in the
/// queue, how many were delivered, how many failed for good and how many
/// were dropped after their last retry.
///
/// Every update wraps around on overflow, as the machine counters that the
/// service shares between its tasks do.
#[derive(Debug)]
pub struct Counter {
    pub queued: usize,
    pub succeed: usize,
    pub dropped: usize,
    pub failed: usize,
}

impl Counter {
    /// A counter with every count at zero.
    pub fn zero() -> (c: Counter)
        ensures
            c.queued == 0,
            c.succeed == 0,
            c.dropped == 0,
            c.failed == 0,
    {
        Counter { queued: 0, succeed: 0, dropped: 0, failed: 0 }
    }

    /// One more request waits in the queue.
    pub fn enqueue(&mut self)
        ensures
            final(self).queued == wrap_usize(old(self).queued + 1),
            final(self).succeed == old(self).succeed,
            final(self).dropped == old(self).dropped,
            final(self).failed == old(self).failed,
    {
        self.queued = self.queued.wrapping_add(1);
    }

    /// One request left the queue.
    pub fn resolve(&mut self)
        ensures
            final(self).queued == wrap_usize(old(self).queued - 1),
            final(self).succeed == old(self).succeed,
            final(self).dropped == old(self).dropped,
            final(self).failed == old(self).failed,
    {
        self.resolve_n(1);
    }

    /// `n` requests left the queue.
    pub fn resolve_n(&mut self, n: usize)
        ensures
            final(self).queued == wrap_usize(old(self).queued - n),
            final(self).succeed == old(self).succeed,
            final(self).dropped == old(self).dropped,
            final(self).failed == old(self).failed,
    {
        self.queued = self.queued.wrapping_sub(n);
    }

    /// One request failed for good.
    pub fn failed(&mut self)
        ensures
            final(self).failed == wrap_usize(old(self).failed + 1),
            final(self).queued == old(self).queued,
            final(self).succeed == old(self).succeed,
            final(self).dropped == old(self).dropped,
    {
        self.failed = self.failed.wrapping_add(1);
    }

    /// One request was delivered.
    pub fn succeed(&mut self)
        ensures
            final(self).succeed == wrap_usize(old(self).succeed + 1),
            final(self).queued == old(self).queued,
            final(self).dropped == old(self).dropped,
            final(self).failed == old(self).failed,
    {
        self.succeed = self.succeed.wrapping_add(1);
    }

    /// One request was dropped after its last retry.
    pub fn dropped(&mut self)
        ensures
            final(self).dropped == wrap_usize(old(self).dropped + 1),
            final(self).queued == old(self).queued,
            final(self).succeed == old(self).succeed,
            final(self).failed == old(self).failed,
    {
        self.dropped = self.dropped.wrapping_add(1);
    }

    /// Whether no request waits in the queue.
    pub fn is_queue_empty(&self) -> (b: bool)
        ensures
            b == (self.queued == 0),
    {
        self.queued == 0
    }

    /// How many requests wait in the queue.
    pub fn read_queue_count(&self) -> (n: usize)
        ensures
            n == self.queued,
    {
        self.queued
    }
}

/// One counter per priority level.
#[derive(Debug)]
pub struct Counters {
    high_priority: Counter,
    low_priority: Counter,
}

impl Counters {
    /// The counter of priority `p`, as a value.
    pub closed spec fn counter(&self, p: Priority) -> &Counter {
        match p {
            Priority::High => &self.high_priority,
            Priority::Low => &self.low_priority,
        }
    }

    /// Both counters at zero.
    pub fn new() -> (c: Counters)
        ensures
            forall|p: Priority|
                #![trigger c.counter(p)]
                c.counter(p).queued == 0 && c.counter(p).succeed == 0 && c.counter(p).dropped == 0
                    && c.counter(p).failed == 0,
    {
        Counters { high_priority: Counter::zero(), low_priority: Counter::zero() }
    }

    /// The counter of priority `p`.
    pub fn get(&self, p: Priority) -> (c: &Counter)
        ensures
            c == self.counter(p),
    {
        match p {
            Priority::High => &self.high_priority,
            Priority::Low => &self.low_priority,
        }
    }

    /// The counter of priority `p`, to update it.
    pub fn get_mut(&mut self, p: Priority) -> (c: &mut Counter)
        ensures
            *c == *old(self).counter(p),
            *final(self).counter(p) == *final(c),
            *final(self).counter(other(p)) == *old(self).counter(other(p)),
    {
        match p {
            Priority::High => &mut self.high_priority,
            Priority::Low => &mut self.low_priority,
        }
    }
}

/// The priority that is not `p`.
pub open spec fn other(p: Priority) -> Priority {
    match p {
        Priority::High => Priority::Low,
        Priority::Low => Priority::High,
    }
}

/// What the copies of one request share and only read: its headers and its
/// method.
pub struct ReadonlySharedObjectsBetweenContexts {
    pub headers: Vec<Header>,
    pub method: String,
}

/// One copy of a request: its target, what it shares with the other
/// copies, its body and how many attempts it has left.
pub struct RequestContext {
    pub target: String,
    pub readonly_objects: Arc<ReadonlySharedObjectsBetweenContexts>,
    pub body: Vec<u8>,
    pub ttl: usize,
}

/// The status codes of some log entries, in order.
pub open spec fn entry_codes(entries: Seq<(u16, StringSet)>) -> Seq<u16> {
    entries.map_values(|e: (u16, StringSet)| e.0)
}

/// Which targets answered with which status code.
pub struct Log {
    entries: Vec<(u16, StringSet)>,
}

impl Log {
    #[verifier::type_invariant]
    spec fn wf(self) -> bool {
        entry_codes(self.entries@).no_duplicates()
    }

    /// The status codes that were logged.
    pub closed spec fn codes(&self) -> Set<u16> {
        entry_codes(self.entries@).to_set()
    }

    /// The targets that answered with `code`.
    pub closed spec fn targets_for(&self, code: u16) -> Set<Seq<char>> {
        if entry_codes(self.entries@).contains(code) {
            self.entries@[entry_codes(self.entries@).index_of(code)].1@
        } else {
            Set::empty()
        }
    }

    /// An empty log.
    pub fn new() -> (l: Self)
        ensures
            l.codes() == Set::<u16>::empty(),
            forall|c: u16| #[trigger] l.targets_for(c) == Set::<Seq<char>>::empty(),
    {
        let l = Log { entries: Vec::new() };
        assert(l.codes() =~= Set::<u16>::empty());
        l
    }

    /// `target` answered with `status_code`.
    pub fn append(&mut self, status_code: u16, target: &str)
        ensures
            final(self).codes() == old(self).codes().insert(status_code),
            forall|c: u16|
                #[trigger] final(self).targets_for(c) == if c == status_code {
                    old(self).targets_for(c).insert(target@)
                } else {
                    old(self).targets_for(c)
                },
    {
        proof {
            use_type_invariant(&*self);
        }
        let ghost old_entries = self.entries@;
        let ghost old_codes = entry_codes(old_entries);
        let mut entries = Vec::new();
        std::mem::swap(&mut entries, &mut self.entries);
        match self.position_in(&entries, status_code) {
            Some(i) => {
                let (code, mut set) = entries.remove(i);
                set.insert(target);
                entries.insert(i, (code, set));
                proof {
                    assert(entry_codes(entries@) =~= old_codes);
                    assert(old_codes.index_of(status_code) == i as int);
                }
                self.entries = entries;
                proof {
                    assert forall|c: u16| #[trigger] self.targets_for(c) == if c == status_code {
                        old(self).targets_for(c).insert(target@)
                    } else {
                        old(self).targets_for(c)
                    } by {
                        if old_codes.contains(c) {
                            let k = old_codes.index_of(c);
                            assert(self.entries@[k] == if k == i { (code, set) } else { old_entries[k] });
                        }
                    }
                    assert(self.codes() =~= old(self).codes().insert(status_code));
                }
            },
            None => {
                let mut set = StringSet::new();
                set.insert(target);
                entries.push((status_code, set));
                proof {
                    let codes = entry_codes(entries@);
                    assert(codes =~= old_codes.push(status_code));
                    assert forall|a: int, b: int| 0 <= a < codes.len() && 0 <= b < codes.len() && a != b implies codes[a] != codes[b] by {
                        if a < old_codes.len() && b < old_codes.len() {
                        } else if a == old_codes.len() {
                            assert(old_codes.contains(codes[b]));
                        } else {
                            assert(old_codes.contains(codes[a]));
                        }
                    }
                }
                self.entries = entries;
                proof {
                    let codes = entry_codes(self.entries@);
                    assert forall|c: u16| #[trigger] self.targets_for(c) == if c == status_code {
                        old(self).targets_for(c).insert(target@)
                    } else {
                        old(self).targets_for(c)
                    } by {
                        if c == status_code {
                            assert(codes[old_codes.len() as int] == c);
                            assert(codes.index_of(c) == old_codes.len());
                            assert(set@ =~= Set::<Seq<char>>::empty().insert(target@));
                        } else if old_codes.contains(c) {
                            let k = old_codes.index_of(c);
                            assert(codes[k] == c);
                            assert(codes.index_of(c) == k);
                        } else {
                            assert(!codes.contains(c)) by {
                                if codes.contains(c) {
                                    let k = codes.index_of(c);
                                    assert(old_codes[k] == c);
                                }
                            }
                        }
                    }
                    assert forall|x: u16| codes.contains(x) <==> (old_codes.contains(x) || x == status_code) by {
                        if codes.contains(x) {
                            let k = choose|k: int| 0 <= k < codes.len() && codes[k] == x;
                            if k < old_codes.len() {
                                assert(old_codes[k] == x);
                            }
                        }
                        if old_codes.contains(x) {
                            let k = choose|k: int| 0 <= k < old_codes.len() && old_codes[k] == x;
                            assert(codes[k] == x);
                        }
                        if x == status_code {
                            assert(codes[old_codes.len() as int] == x);
                        }
                    }
                    assert(self.codes() =~= old(self).codes().insert(status_code));
                }
            },
        }
    }

    /// Where `code` stands in `entries`, if it does.
    fn position_in(&self, entries: &Vec<(u16, StringSet)>, code: u16) -> (r: Option<usize>)
        ensures
            match r {
                Some(i) => i < entries@.len() && entry_codes(entries@)[i as int] == code,
                None => !entry_codes(entries@).contains(code),
            },
    {
        let mut i: usize = 0;
        while i < entries.len()
            invariant
                i <= entries@.len(),
                forall|j: int| 0 <= j < i ==> entry_codes(entries@)[j] != code,
            decreases entries@.len() - i,
        {
            if entries[i].0 == code {
                return Some(i);
            }
            i = i + 1;
        }
        None
    }

    /// Every logged status code once, each with the targets that answered
    /// with it, each target once.
    pub fn read(&self) -> (r: Vec<(u16, Vec<String>)>)
        ensures
            r@.map_values(|e: (u16, Vec<String>)| e.0).no_duplicates(),
            r@.map_values(|e: (u16, Vec<String>)| e.0).to_set() == self.codes(),
            forall|i: int|
                0 <= i < r@.len() ==> string_views((#[trigger] r@[i]).1@).to_set() == self.targets_for(r@[i].0)
                    && string_views(r@[i].1@).no_duplicates(),
    {
        proof {
            use_type_invariant(self);
        }
        let ghost codes = entry_codes(self.entries@);
        let mut r: Vec<(u16, Vec<String>)> = Vec::new();
        let mut i: usize = 0;
        while i < self.entries.len()
            invariant
                i <= self.entries@.len(),
                codes == entry_codes(self.entries@),
                codes.no_duplicates(),
                r@.map_values(|e: (u16, Vec<String>)| e.0) == codes.take(i as int),
                forall|j: int|
                    0 <= j < r@.len() ==> string_views((#[trigger] r@[j]).1@).to_set() == self.targets_for(r@[j].0)
                        && string_views(r@[j].1@).no_duplicates(),
            decreases self.entries@.len() - i,
        {
            let ghost before = r@;
            let code = self.entries[i].0;
            proof {
                assert(codes[i as int] == code);
                assert(codes.index_of(code) == i as int);
            }
            r.push((code, self.entries[i].1.to_vec()));
            proof {
                assert(r@.map_values(|e: (u16, Vec<String>)| e.0) =~= before.map_values(|e: (u16, Vec<String>)| e.0).push(code));
                assert(r@.map_values(|e: (u16, Vec<String>)| e.0) =~= codes.take(i + 1));
            }
            i = i + 1;
        }
        assert(codes.take(codes.len() as int) =~= codes);
        assert(r@.map_values(|e: (u16, Vec<String>)| e.0).to_set() =~= self.codes());
        r
    }
}

/// The senders into the two queues of requests, one per priority, and the
/// sender that asks for the low-priority queue to be flushed.
pub struct Channels<S, F> {
    high_priority_queue: S,
    low_priority_queue: S,
    pub flush_low_priority_queue: F,
}

impl<S, F> Channels<S, F> {
    /// The sender into the queue of priority `p`, as a value.
    pub closed spec fn queue(&self, p: Priority) -> S {
        match p {
            Priority::High => self.high_priority_queue,
            Priority::Low => self.low_priority_queue,
        }
    }

    /// The sender of flush requests, as a value.
    pub closed spec fn flush(&self) -> F {
        self.flush_low_priority_queue
    }

    /// The senders, one per priority, and the sender of flush requests.
    pub fn new(high_priority_queue: S, low_priority_queue: S, flush_low_priority_queue: F) -> (c: Self)
        ensures
            c.queue(Priority::High) == high_priority_queue,
            c.queue(Priority::Low) == low_priority_queue,
            c.flush() == flush_low_priority_queue,
    {
        Channels { high_priority_queue, low_priority_queue, flush_low_priority_queue }
    }

    /// The sender into the queue of priority `p`.
    pub fn get_queue(&self, p: Priority) -> (q: &S)
        ensures
            *q == self.queue(p),
    {
        match p {
            Priority::High => &self.high_priority_queue,
            Priority::Low => &self.low_priority_queue,
        }
    }
}

/// What the request handlers and the sender share: the channels into the
/// queues, the counters, the log of answers and how many attempts a request
/// gets.
pub struct AppState<S, F> {
    pub channels: Channels<S, F>,
    pub counters: Counters,
    pub log: Log,
    pub retry_count: usize,
}

/// The queued count after a run of updates from `q`: `true` is a request
/// that waits (`enqueue`), `false` one that leaves (`resolve`).
pub open spec fn queued_after(q: usize, ops: Seq<bool>) -> usize
    decreases ops.len(),
{
    if ops.len() == 0 {
        q
    } else if ops.last() {
        wrap_usize(queued_after(q, ops.drop_last()) + 1)
    } else {
        wrap_usize(queued_after(q, ops.drop_last()) - 1)
    }
}

/// How many of the updates are `enqueue`s.
pub open spec fn enqueue_count(ops: Seq<bool>) -> nat
    decreases ops.len(),
{
    if ops.len() == 0 {
        0
    } else {
        enqueue_count(ops.drop_last()) + if ops.last() { 1nat } else { 0nat }
    }
}

/// How many of the updates are `resolve`s.
pub open spec fn resolve_count(ops: Seq<bool>) -> nat
    decreases ops.len(),
{
    if ops.len() == 0 {
        0
    } else {
        resolve_count(ops.drop_last()) + if ops.last() { 0nat } else { 1nat }
    }
}

/// A counter that starts at zero and sees `k` enqueues and `j` resolves, in
/// an order that never resolves below zero and with `k` within the word
/// size, reads `k - j`.
pub proof fn lemma_queued_count(ops: Seq<bool>)
    requires
        forall|i: int| 0 <= i <= ops.len() ==> resolve_count(#[trigger] ops.take(i)) <= enqueue_count(ops.take(i)),
        enqueue_count(ops) <= usize::MAX,
    ensures
        queued_after(0, ops) == enqueue_count(ops) - resolve_count(ops),
    decreases ops.len(),
{
    assert(ops.take(ops.len() as int) =~= ops);
    if ops.len() > 0 {
        let rest = ops.drop_last();
        assert forall|i: int| 0 <= i <= rest.len() implies resolve_count(#[trigger] rest.take(i)) <= enqueue_count(rest.take(i)) by {
            assert(rest.take(i) =~= ops.take(i));
        }
        lemma_queued_count(rest);
    }
}

/// A request that waits and then leaves the queue leaves the count of
/// waiting requests as it was, also across the wrap-around of the counter;
/// so does a request that leaves and then waits again.
pub proof fn lemma_enqueue_resolve_cancel(queued: usize)
    ensures
        wrap_usize(wrap_usize(queued + 1) - 1) == queued,
        wrap_usize(wrap_usize(queued - 1) + 1) == queued,
{
}

/// What the log answers for a status code right after a target answered
/// with it: that target is among those of the code, the targets logged
/// before are still there, and the code is among the logged codes.
pub proof fn lemma_logged_answer_is_read_back(before: Log, after: Log, code: u16, target: Seq<char>)
    requires
        after.codes() == before.codes().insert(code),
        forall|c: u16|
            #[trigger] after.targets_for(c) == if c == code {
                before.targets_for(c).insert(target)
            } else {
                before.targets_for(c)
            },
    ensures
        after.codes().contains(code),
        after.targets_for(code).contains(target),
        before.targets_for(code).subset_of(after.targets_for(code)),
{
    assert(after.targets_for(code) == before.targets_for(code).insert(target));
}

} // verus!
