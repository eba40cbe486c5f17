use vstd::prelude::*;
use std::collections::VecDeque;
use crate::model::{Priority, wrap_usize};

verus! {

/// Work that knows its own priority.
pub trait Priorized {
    /// The priority of this item, as a value.
    spec fn spec_priority(&self) -> Priority;

    /// The priority of this item.
    fn priority(&self) -> (p: Priority)
        ensures
            p == self.spec_priority(),
    ;
}

/// A first-in first-out queue with a count of the items that were put in
/// and not yet resolved: an item counts from the moment it is put in until
/// the taker says it is done with it, after taking it out.
pub struct Queue<T> {
    items: VecDeque<T>,
    len: usize,
}

impl<T> Queue<T> {
    /// The items in the queue, oldest first.
    pub closed spec fn items(&self) -> Seq<T> {
        self.items@
    }

    /// The items put in and not yet resolved, modulo the word size.
    pub closed spec fn pending(&self) -> usize {
        self.len
    }

    /// An empty queue.
    pub fn new() -> (q: Self)
        ensures
            q.items() == Seq::<T>::empty(),
            q.pending() == 0,
    {
        Queue { items: VecDeque::new(), len: 0 }
    }

    /// `t` waits at the end of the queue.
    pub fn enqueue(&mut self, t: T)
        ensures
            final(self).items() == old(self).items().push(t),
            final(self).pending() == wrap_usize(old(self).pending() + 1),
    {
        self.len = self.len.wrapping_add(1);
        self.items.push_back(t);
    }

    /// The oldest item, taken out; it still counts as pending.
    pub fn dequeue(&mut self) -> (r: Option<T>)
        ensures
            old(self).items().len() > 0 ==> r == Some(old(self).items()[0])
                && final(self).items() == old(self).items().drop_first(),
            old(self).items().len() == 0 ==> r is None && final(self).items() == old(self).items(),
            final(self).pending() == old(self).pending(),
    {
        self.items.pop_front()
    }

    /// The taker is done with one item.
    pub fn resolve(&mut self)
        ensures
            final(self).items() == old(self).items(),
            final(self).pending() == wrap_usize(old(self).pending() - 1),
    {
        self.len = self.len.wrapping_sub(1);
    }

    /// Whether nothing is pending.
    pub fn is_empty(&self) -> (b: bool)
        ensures
            b == (self.pending() == 0),
    {
        self.len == 0
    }
}

/// An empty queue.
pub fn queue<T>() -> (q: Queue<T>)
    ensures
        q.items() == Seq::<T>::empty(),
        q.pending() == 0,
{
    Queue::new()
}

/// Two first-in first-out queues, one per priority: nothing is taken from
/// the low-priority queue while the high-priority queue holds anything.
pub struct TwoLevelQueue<T> {
    high_priority: VecDeque<T>,
    low_priority: VecDeque<T>,
}

impl<T> TwoLevelQueue<T> {
    /// The waiting items of priority `p`, oldest first.
    pub closed spec fn level(&self, p: Priority) -> Seq<T> {
        match p {
            Priority::High => self.high_priority@,
            Priority::Low => self.low_priority@,
        }
    }

    /// Both queues empty.
    pub fn new() -> (q: Self)
        ensures
            q.level(Priority::High) == Seq::<T>::empty(),
            q.level(Priority::Low) == Seq::<T>::empty(),
    {
        TwoLevelQueue { high_priority: VecDeque::new(), low_priority: VecDeque::new() }
    }

    /// `t` waits at the end of the queue of priority `p`.
    pub fn enqueue_at(&mut self, t: T, p: Priority)
        ensures
            final(self).level(p) == old(self).level(p).push(t),
            final(self).level(crate::model::other(p)) == old(self).level(crate::model::other(p)),
    {
        match p {
            Priority::High => self.high_priority.push_back(t),
            Priority::Low => self.low_priority.push_back(t),
        }
    }

    /// The oldest item of the highest priority that has one, taken out.
    pub fn fetch(&mut self) -> (r: Option<(T, Priority)>)
        ensures
            old(self).level(Priority::High).len() > 0 ==> {
                &&& r == Some((old(self).level(Priority::High)[0], Priority::High))
                &&& final(self).level(Priority::High) == old(self).level(Priority::High).drop_first()
                &&& final(self).level(Priority::Low) == old(self).level(Priority::Low)
            },
            old(self).level(Priority::High).len() == 0 && old(self).level(Priority::Low).len() > 0 ==> {
                &&& r == Some((old(self).level(Priority::Low)[0], Priority::Low))
                &&& final(self).level(Priority::Low) == old(self).level(Priority::Low).drop_first()
                &&& final(self).level(Priority::High) == old(self).level(Priority::High)
            },
            old(self).level(Priority::High).len() == 0 && old(self).level(Priority::Low).len() == 0 ==> {
                &&& r is None
                &&& final(self).level(Priority::High) == old(self).level(Priority::High)
                &&& final(self).level(Priority::Low) == old(self).level(Priority::Low)
            },
    {
        if self.high_priority.len() > 0 {
            let t = self.high_priority.pop_front().unwrap();
            Some((t, Priority::High))
        } else {
            match self.low_priority.pop_front() {
                Some(t) => Some((t, Priority::Low)),
                None => None,
            }
        }
    }

    /// Whether no high-priority item waits.
    pub fn is_idle(&self) -> (b: bool)
        ensures
            b == (self.level(Priority::High).len() == 0),
    {
        self.high_priority.len() == 0
    }

    /// How many items of priority `p` wait.
    pub fn len(&self, p: Priority) -> (n: usize)
        ensures
            n == self.level(p).len(),
    {
        match p {
            Priority::High => self.high_priority.len(),
            Priority::Low => self.low_priority.len(),
        }
    }

    /// Every low-priority item is dropped; the answer is how many there were.
    pub fn flush_low_priority(&mut self) -> (n: usize)
        ensures
            n == old(self).level(Priority::Low).len(),
            final(self).level(Priority::Low) == Seq::<T>::empty(),
            final(self).level(Priority::High) == old(self).level(Priority::High),
    {
        let n = self.low_priority.len();
        self.low_priority.clear();
        n
    }
}

impl<T: Priorized> TwoLevelQueue<T> {
    /// `t` waits at the end of the queue of its own priority.
    pub fn enqueue(&mut self, t: T)
        ensures
            final(self).level(t.spec_priority()) == old(self).level(t.spec_priority()).push(t),
            final(self).level(crate::model::other(t.spec_priority())) == old(self).level(
                crate::model::other(t.spec_priority()),
            ),
    {
        let p = t.priority();
        self.enqueue_at(t, p);
    }
}

/// An empty two-level queue.
pub fn priority_queue<T>() -> (q: TwoLevelQueue<T>)
    ensures
        q.level(Priority::High) == Seq::<T>::empty(),
        q.level(Priority::Low) == Seq::<T>::empty(),
{
    TwoLevelQueue::new()
}

/// An empty two-level queue.
pub fn two_level_queue<T>() -> (q: TwoLevelQueue<T>)
    ensures
        q.level(Priority::High) == Seq::<T>::empty(),
        q.level(Priority::Low) == Seq::<T>::empty(),
{
    TwoLevelQueue::new()
}

/// Within one priority, items come out in the order in which they went
/// in: when `a` and then `b` join a level that holds `s`, they come out
/// right after all of `s`, `a` first.
pub proof fn lemma_first_in_first_out<T>(s: Seq<T>, a: T, b: T)
    ensures
        s.push(a).push(b).take(s.len() as int) == s,
        s.push(a).push(b).skip(s.len() as int) == seq![a, b],
{
    assert(s.push(a).push(b).take(s.len() as int) =~= s);
    assert(s.push(a).push(b).skip(s.len() as int) =~= seq![a, b]);
}

} // verus!
