use vstd::prelude::*;
use std::sync::Arc;
use std::time::Duration;
use crate::model::Priority;
use crate::negative_cache::NegativeCache;
use crate::status::{Outcome, NOT_FOUND, is_server_error, worth_retrying};
use crate::foreign::{new_ulid, is_ulid_text, share, duration_secs, duration_from_secs};
use crate::dispatch::load_balancer::{LoadBalancer, power_of_two};
use crate::dispatch::model::{Context, Payload, Task};
use crate::dispatch::queue::{TwoLevelQueue, Priorized, two_level_queue};

verus! {

/// The tasks that `enqueue` makes of `targets`: one per target, in order.
pub open spec fn tasks_for(
    new_tasks: Seq<Task>,
    targets: Seq<String>,
    ttl: usize,
    id: Seq<char>,
    priority: Priority,
    payload: Payload,
) -> bool {
    &&& new_tasks.len() == targets.len()
    &&& forall|i: int|
        #![trigger new_tasks[i]]
        0 <= i < new_tasks.len() ==> {
            &&& new_tasks[i].target == targets[i]
            &&& new_tasks[i].ttl == ttl
            &&& new_tasks[i].context.id@ == id
            &&& new_tasks[i].context.priority == priority
            &&& new_tasks[i].context.payload == payload
        }
}

/// Turns incoming requests into tasks.
pub struct Enqueuer {
    ttl: usize,
}

impl Enqueuer {
    /// How many attempts each new task gets.
    pub closed spec fn attempts(&self) -> usize {
        self.ttl
    }

    /// An enqueuer that gives each task `ttl` attempts.
    pub fn new(ttl: usize) -> (e: Self)
        ensures
            e.attempts() == ttl,
    {
        Enqueuer { ttl }
    }

    /// One task per target, all sharing a fresh identifier, the priority and
    /// the payload, wait at the end of the queue of that priority, in the
    /// order of the targets. The answer is the identifier.
    pub fn enqueue(
        &self,
        queue: &mut TwoLevelQueue<Task>,
        payload: Payload,
        priority: Priority,
        targets: &[String],
    ) -> (id: String)
        ensures
            is_ulid_text(id@),
            final(queue).level(crate::model::other(priority)) == old(queue).level(
                crate::model::other(priority),
            ),
            final(queue).level(priority).len() >= old(queue).level(priority).len(),
            final(queue).level(priority).subrange(0, old(queue).level(priority).len() as int)
                == old(queue).level(priority),
            tasks_for(
                final(queue).level(priority).skip(old(queue).level(priority).len() as int),
                targets@,
                self.attempts(),
                id@,
                priority,
                payload,
            ),
    {
        let id = new_ulid();
        let ghost payload_value = payload;
        let context = Arc::new(Context { id: id.clone(), priority, payload });
        let ghost start = queue.level(priority);
        let ghost other_level = queue.level(crate::model::other(priority));
        let mut i: usize = 0;
        while i < targets.len()
            invariant
                i <= targets@.len(),
                context.id@ == id@,
                context.priority == priority,
                context.payload == payload_value,
                queue.level(crate::model::other(priority)) == other_level,
                queue.level(priority).len() == start.len() + i,
                queue.level(priority).subrange(0, start.len() as int) == start,
                forall|j: int|
                    #![trigger queue.level(priority)[start.len() + j]]
                    0 <= j < i ==> {
                        &&& queue.level(priority)[start.len() + j].target == targets@[j]
                        &&& queue.level(priority)[start.len() + j].ttl == self.ttl
                        &&& queue.level(priority)[start.len() + j].context == context
                    },
            decreases targets@.len() - i,
        {
            let task = Task { target: targets[i].clone(), context: share(&context), ttl: self.ttl };
            let ghost before = queue.level(priority);
            queue.enqueue(task);
            proof {
                assert(queue.level(priority) == before.push(task));
                assert(queue.level(priority).subrange(0, start.len() as int) =~= start);
                assert forall|j: int| 0 <= j < i + 1 implies {
                    &&& #[trigger] queue.level(priority)[start.len() + j].target == targets@[j]
                    &&& queue.level(priority)[start.len() + j].ttl == self.ttl
                    &&& queue.level(priority)[start.len() + j].context == context
                } by {
                    if j < i {
                        assert(queue.level(priority)[start.len() + j] == before[start.len() + j]);
                    }
                }
            }
            i = i + 1;
        }
        proof {
            let added = queue.level(priority).skip(start.len() as int);
            assert forall|j: int| 0 <= j < added.len() implies #[trigger] added[j] == queue.level(priority)[start.len() + j] by {}
        }
        id
    }

    /// `task` waits again at the end of the queue of its priority.
    pub fn requeue(&self, queue: &mut TwoLevelQueue<Task>, task: Task)
        ensures
            final(queue).level(task.spec_priority()) == old(queue).level(task.spec_priority()).push(task),
            final(queue).level(crate::model::other(task.spec_priority())) == old(queue).level(
                crate::model::other(task.spec_priority()),
            ),
    {
        queue.enqueue(task);
    }
}

/// What the runner does with tasks: it takes them from the queue, skips
/// those whose target is banned, hands the others to its clients in turn,
/// bans targets that answer `404 Not Found`, and gives tasks whose attempt
/// failed another try while they have attempts left.
pub struct Runner<C> {
    lb_clients: LoadBalancer<C>,
    cache404: NegativeCache,
    queue: TwoLevelQueue<Task>,
    global_limit: usize,
    retry_after: Duration,
}

impl<C> Runner<C> {
    /// The clients, in the order in which they are handed out.
    pub closed spec fn clients(&self) -> Seq<C> {
        self.lb_clients.targets()
    }

    /// How many clients were handed out so far, modulo the word size.
    pub closed spec fn client_counter(&self) -> usize {
        self.lb_clients.counter()
    }

    /// The banned targets.
    pub closed spec fn banned(&self) -> Set<Seq<char>> {
        self.cache404@
    }

    /// The waiting tasks.
    pub closed spec fn queue(&self) -> TwoLevelQueue<Task> {
        self.queue
    }

    /// How many requests may be under way at once.
    pub closed spec fn limit(&self) -> usize {
        self.global_limit
    }

    /// How long a task waits before it is tried again.
    pub closed spec fn delay(&self) -> Duration {
        self.retry_after
    }

    /// A runner over `clients` with nothing banned and nothing waiting.
    pub fn new(clients: Vec<C>, global_limit: usize, retry_after: Duration) -> (r: Self)
        requires
            power_of_two(clients@.len()),
        ensures
            r.clients() == clients@,
            r.client_counter() == 0,
            r.banned() == Set::<Seq<char>>::empty(),
            r.queue().level(Priority::High) == Seq::<Task>::empty(),
            r.queue().level(Priority::Low) == Seq::<Task>::empty(),
            r.limit() == global_limit,
            r.delay() == retry_after,
    {
        Runner {
            lb_clients: LoadBalancer::new(clients),
            cache404: NegativeCache::new(),
            queue: two_level_queue(),
            global_limit,
            retry_after,
        }
    }

    /// How many requests may be under way at once.
    pub fn global_limit(&self) -> (n: usize)
        ensures
            n == self.limit(),
    {
        self.global_limit
    }

    /// How long a task waits before it is tried again.
    pub fn retry_after(&self) -> (d: Duration)
        ensures
            d == self.delay(),
    {
        self.retry_after
    }

    /// New tasks for `targets`, made by `enqueuer`, wait in the queue.
    pub fn submit(&mut self, enqueuer: &Enqueuer, payload: Payload, priority: Priority, targets: &[String]) -> (id: String)
        ensures
            is_ulid_text(id@),
            final(self).queue().level(crate::model::other(priority)) == old(self).queue().level(
                crate::model::other(priority),
            ),
            final(self).queue().level(priority).len() >= old(self).queue().level(priority).len(),
            final(self).queue().level(priority).subrange(0, old(self).queue().level(priority).len() as int)
                == old(self).queue().level(priority),
            tasks_for(
                final(self).queue().level(priority).skip(old(self).queue().level(priority).len() as int),
                targets@,
                enqueuer.attempts(),
                id@,
                priority,
                payload,
            ),
            final(self).banned() == old(self).banned(),
            final(self).clients() == old(self).clients(),
            final(self).client_counter() == old(self).client_counter(),
            final(self).limit() == old(self).limit(),
            final(self).delay() == old(self).delay(),
    {
        enqueuer.enqueue(&mut self.queue, payload, priority, targets)
    }

    /// The next task, by priority and then by age, taken out of the queue;
    /// `None` while nothing waits.
    pub fn fetch(&mut self) -> (r: Option<Task>)
        ensures
            ({
                let q = old(self).queue();
                let high = q.level(Priority::High);
                let low = q.level(Priority::Low);
                &&& high.len() > 0 ==> r == Some(high[0]) && final(self).queue().level(Priority::High)
                    == high.drop_first() && final(self).queue().level(Priority::Low) == low
                &&& high.len() == 0 && low.len() > 0 ==> r == Some(low[0]) && final(self).queue().level(
                    Priority::Low,
                ) == low.drop_first() && final(self).queue().level(Priority::High) == high
                &&& high.len() == 0 && low.len() == 0 ==> r is None && final(self).queue().level(
                    Priority::High,
                ) == high && final(self).queue().level(Priority::Low) == low
            }),
            final(self).banned() == old(self).banned(),
            final(self).clients() == old(self).clients(),
            final(self).client_counter() == old(self).client_counter(),
            final(self).limit() == old(self).limit(),
            final(self).delay() == old(self).delay(),
    {
        match self.queue.fetch() {
            Some((t, _)) => Some(t),
            None => None,
        }
    }

    /// Whether `task` is sent at all: not when its target is banned.
    pub fn accepts(&self, task: &Task) -> (b: bool)
        ensures
            b == !self.banned().contains(task.target@),
    {
        !self.cache404.is_banned(task.target.as_str())
    }

    /// The client that sends the next request.
    pub fn next_client(&mut self) -> (c: &C)
        ensures
            c == old(self).clients()[(old(self).client_counter() as int) % (old(self).clients().len() as int)],
            final(self).clients() == old(self).clients(),
            final(self).client_counter() == crate::model::wrap_usize(old(self).client_counter() + 1),
            final(self).banned() == old(self).banned(),
            final(self).queue() == old(self).queue(),
            final(self).limit() == old(self).limit(),
            final(self).delay() == old(self).delay(),
    {
        self.lb_clients.fetch_next_ref()
    }

    /// What the outcome of an attempt means: a `404 Not Found` bans the
    /// target; a failed connection or a `5xx` status uses up one attempt,
    /// and the task comes back to be tried again if it has attempts left.
    pub fn settle(&mut self, task: Task, outcome: Outcome) -> (r: Option<Task>)
        requires
            worth_retrying(outcome) ==> task.ttl > 0,
        ensures
            final(self).banned() == (if outcome == Outcome::Status(NOT_FOUND) {
                old(self).banned().insert(task.target@)
            } else {
                old(self).banned()
            }),
            !worth_retrying(outcome) ==> r is None,
            worth_retrying(outcome) && task.ttl == 1 ==> r is None,
            worth_retrying(outcome) && task.ttl > 1 ==> (r matches Some(t) && t.ttl == task.ttl - 1
                && t.target == task.target && t.context == task.context),
            (outcome == Outcome::ConnectionError || (outcome matches Outcome::Status(code) && 500 <= code
                && code <= 599)) && task.ttl > 1 ==> (r matches Some(t) && t.ttl == task.ttl - 1
                && t.target == task.target && t.context == task.context),
            (outcome matches Outcome::Status(code) && !(500 <= code && code <= 599)) ==> r is None,
            outcome == Outcome::Status(404) ==> final(self).banned() == old(self).banned().insert(task.target@),
            outcome != Outcome::Status(404) ==> final(self).banned() == old(self).banned(),
            final(self).clients() == old(self).clients(),
            final(self).client_counter() == old(self).client_counter(),
            final(self).limit() == old(self).limit(),
            final(self).delay() == old(self).delay(),
            final(self).queue() == old(self).queue(),
    {
        let requeue = match outcome {
            Outcome::ConnectionError => true,
            Outcome::Status(code) => {
                if code == NOT_FOUND {
                    self.cache404.ban(task.target.as_str());
                }
                is_server_error(code)
            },
        };
        if !requeue {
            return None;
        }
        task.drain()
    }

    /// `task` waits again at the end of the queue of its priority.
    pub fn requeue(&mut self, task: Task)
        ensures
            final(self).queue().level(task.spec_priority()) == old(self).queue().level(task.spec_priority()).push(task),
            final(self).queue().level(crate::model::other(task.spec_priority())) == old(self).queue().level(
                crate::model::other(task.spec_priority()),
            ),
            final(self).banned() == old(self).banned(),
            final(self).clients() == old(self).clients(),
            final(self).client_counter() == old(self).client_counter(),
            final(self).limit() == old(self).limit(),
            final(self).delay() == old(self).delay(),
    {
        self.queue.enqueue(task);
    }

    /// The banned targets, each once, in no particular order.
    pub fn banned_targets(&self) -> (r: Vec<String>)
        ensures
            crate::string_set::string_views(r@).to_set() == self.banned(),
            crate::string_set::string_views(r@).no_duplicates(),
    {
        self.cache404.list()
    }

    /// The ban on `url` is lifted, if there was one.
    pub fn unban(&mut self, url: &str)
        ensures
            final(self).banned() == old(self).banned().remove(url@),
            final(self).clients() == old(self).clients(),
            final(self).client_counter() == old(self).client_counter(),
            final(self).limit() == old(self).limit(),
            final(self).delay() == old(self).delay(),
            final(self).queue() == old(self).queue(),
    {
        self.cache404.delete(url);
    }
}

/// The most requests that may be under way at once: what a semaphore can
/// hold.
pub const MAX_PERMITS: usize = usize::MAX >> 3;

/// The settings of a duplicator: its clients, how many requests may be
/// under way at once, how many attempts a task gets and how long a failed
/// task waits before its next attempt.
pub struct Builder<C> {
    clients: Vec<C>,
    global_limit: usize,
    ttl: usize,
    retry_after: Duration,
}

impl<C> Builder<C> {
    /// The clients.
    pub closed spec fn client_list(&self) -> Seq<C> {
        self.clients@
    }

    /// How many requests may be under way at once.
    pub closed spec fn limit(&self) -> usize {
        self.global_limit
    }

    /// How many attempts a task gets.
    pub closed spec fn attempts(&self) -> usize {
        self.ttl
    }

    /// How long a failed task waits before its next attempt.
    pub closed spec fn delay(&self) -> Duration {
        self.retry_after
    }

    /// The settings over `clients`: no limit on requests under way, three
    /// attempts per task, three seconds between attempts.
    #[must_use]
    pub fn new(clients: Vec<C>) -> (b: Self)
        ensures
            b.client_list() == clients@,
            b.limit() == usize::MAX,
            b.attempts() == 3,
            b.delay() == duration_from_secs(3),
    {
        Self { global_limit: usize::MAX, clients, retry_after: duration_secs(3), ttl: 3 }
    }

    /// How many requests may be under way at once.
    pub fn limit_value(&self) -> (n: usize)
        ensures
            n == self.limit(),
    {
        self.global_limit
    }

    /// How many clients there are.
    pub fn client_count(&self) -> (n: usize)
        ensures
            n == self.client_list().len(),
    {
        self.clients.len()
    }

    /// The same settings with another delay between attempts.
    #[must_use]
    pub fn retry_after(self, duration: Duration) -> (b: Self)
        ensures
            b.delay() == duration,
            b.client_list() == self.client_list(),
            b.limit() == self.limit(),
            b.attempts() == self.attempts(),
    {
        let mut b = self;
        b.retry_after = duration;
        b
    }

    /// The same settings with another limit on requests under way.
    #[must_use]
    pub fn global_limit(self, count: usize) -> (b: Self)
        ensures
            b.limit() == count,
            b.client_list() == self.client_list(),
            b.delay() == self.delay(),
            b.attempts() == self.attempts(),
    {
        let mut b = self;
        b.global_limit = count;
        b
    }

    /// The same settings with another number of attempts per task.
    #[must_use]
    pub fn ttl(self, count: usize) -> (b: Self)
        ensures
            b.attempts() == count,
            b.client_list() == self.client_list(),
            b.limit() == self.limit(),
            b.delay() == self.delay(),
    {
        let mut b = self;
        b.ttl = count;
        b
    }

    /// The enqueuer and the runner of these settings. The number of clients
    /// must be a power of two, and the limit on requests under way must fit
    /// a semaphore.
    #[must_use]
    pub fn build(self) -> (r: (Enqueuer, Runner<C>))
        requires
            power_of_two(self.client_list().len()),
            self.limit() <= MAX_PERMITS,
        ensures
            r.0.attempts() == self.attempts(),
            r.1.clients() == self.client_list(),
            r.1.client_counter() == 0,
            r.1.banned() == Set::<Seq<char>>::empty(),
            r.1.queue().level(Priority::High) == Seq::<Task>::empty(),
            r.1.queue().level(Priority::Low) == Seq::<Task>::empty(),
            r.1.limit() == self.limit(),
            r.1.delay() == self.delay(),
    {
        let enqueuer = Enqueuer::new(self.ttl);
        let runner = Runner::new(self.clients, self.global_limit, self.retry_after);
        (enqueuer, runner)
    }
}

} // verus!
