use vstd::prelude::*;
use std::sync::Arc;
use crate::headers::Header;
use crate::negative_cache::NegativeCache;
use crate::status::{Outcome, NOT_FOUND, is_worth_retrying, worth_retrying};
use crate::string_set::string_views;
use crate::foreign::share;

verus! {

/// What is sent to every target: the body, the headers and the method of
/// the incoming request, and the identifier that the copies share.
pub struct Payload {
    pub body: Vec<u8>,
    pub headers: Vec<Header>,
    pub method: String,
    pub id: String,
}

/// One copy of a request: its target, the shared payload and how many
/// attempts it has left.
pub struct Context {
    pub target: String,
    pub payload: Arc<Payload>,
    pub ttl: usize,
}

/// The targets of `targets` that are not banned, in order.
pub open spec fn admitted(targets: Seq<Seq<char>>, banned: Set<Seq<char>>) -> Seq<Seq<char>> {
    targets.filter(|t: Seq<char>| !banned.contains(t))
}

/// The targets of some copies, in order.
pub open spec fn job_targets(jobs: Seq<Context>) -> Seq<Seq<char>> {
    jobs.map_values(|c: Context| c.target@)
}

/// The admitted targets are exactly the targets that are not banned, in
/// their order: each of them comes from the list and is not banned, and each
/// target of the list that is not banned is among them.
pub proof fn lemma_admitted(targets: Seq<Seq<char>>, banned: Set<Seq<char>>)
    ensures
        forall|i: int|
            0 <= i < admitted(targets, banned).len() ==> !banned.contains(#[trigger] admitted(targets, banned)[i])
                && targets.contains(admitted(targets, banned)[i]),
        forall|j: int|
            0 <= j < targets.len() && !banned.contains(#[trigger] targets[j]) ==> admitted(targets, banned).contains(
                targets[j],
            ),
    decreases targets.len(),
{
    reveal(Seq::filter);
    if targets.len() > 0 {
        let rest = targets.drop_last();
        lemma_admitted(rest, banned);
        let a = admitted(targets, banned);
        let ar = admitted(rest, banned);
        assert forall|i: int| 0 <= i < a.len() implies !banned.contains(#[trigger] a[i]) && targets.contains(a[i]) by {
            if i < ar.len() {
                assert(a[i] == ar[i]);
                let j = choose|j: int| 0 <= j < rest.len() && rest[j] == ar[i];
                assert(targets[j] == a[i]);
            } else {
                assert(a[i] == targets.last());
                assert(targets[targets.len() - 1] == a[i]);
            }
        }
        assert forall|j: int| 0 <= j < targets.len() && !banned.contains(#[trigger] targets[j]) implies a.contains(targets[j]) by {
            if j < rest.len() {
                assert(rest[j] == targets[j]);
                let i = choose|i: int| 0 <= i < ar.len() && ar[i] == rest[j];
                assert(a[i] == ar[i]);
            } else {
                assert(a[a.len() - 1] == targets[j]);
            }
        }
    }
}

/// Fans requests out to targets, skipping those that answered
/// `404 Not Found` before.
pub struct Duplicator {
    negative_cache: NegativeCache,
}

impl Duplicator {
    /// The banned targets.
    pub closed spec fn banned_set(&self) -> Set<Seq<char>> {
        self.negative_cache@
    }

    /// A duplicator that bans nothing.
    pub fn new() -> (d: Self)
        ensures
            d.banned_set() == Set::<Seq<char>>::empty(),
    {
        Duplicator { negative_cache: NegativeCache::new() }
    }

    /// The banned targets, each once, in no particular order.
    pub fn banned(&self) -> (r: Vec<String>)
        ensures
            string_views(r@).to_set() == self.banned_set(),
            string_views(r@).no_duplicates(),
    {
        self.negative_cache.list()
    }

    /// The bans on `urls` are lifted.
    pub fn purge_banned_urls(&mut self, urls: Vec<String>)
        ensures
            final(self).banned_set() == old(self).banned_set().difference(string_views(urls@).to_set()),
    {
        let mut i: usize = 0;
        while i < urls.len()
            invariant
                i <= urls@.len(),
                self.banned_set() == old(self).banned_set().difference(string_views(urls@.take(i as int)).to_set()),
            decreases urls@.len() - i,
        {
            let ghost before = self.banned_set();
            self.negative_cache.delete(urls[i].as_str());
            proof {
                let taken = string_views(urls@.take(i as int));
                let next = string_views(urls@.take(i + 1));
                let u = urls@[i as int]@;
                assert(next =~= taken.push(u));
                assert forall|x: Seq<char>| next.contains(x) <==> (taken.contains(x) || x == u) by {
                    if next.contains(x) {
                        let j = choose|j: int| 0 <= j < next.len() && next[j] == x;
                        if j < taken.len() {
                            assert(taken[j] == x);
                        }
                    }
                    if taken.contains(x) {
                        let j = choose|j: int| 0 <= j < taken.len() && taken[j] == x;
                        assert(next[j] == x);
                    }
                    if x == u {
                        assert(next[taken.len() as int] == x);
                    }
                }
                assert(self.banned_set() =~= old(self).banned_set().difference(next.to_set()));
            }
            i = i + 1;
        }
        assert(urls@.take(urls@.len() as int) =~= urls@);
    }

    /// One copy of `payload` per target that is not banned, in the order of
    /// the targets, each with `retry` attempts.
    pub fn duplicate(&self, payload: Arc<Payload>, targets: Vec<String>, retry: usize) -> (jobs: Vec<Context>)
        ensures
            job_targets(jobs@) == admitted(string_views(targets@), self.banned_set()),
            forall|i: int| 0 <= i < jobs@.len() ==> !self.banned_set().contains((#[trigger] jobs@[i]).target@)
                && string_views(targets@).contains(jobs@[i].target@),
            forall|j: int|
                0 <= j < targets@.len() && !self.banned_set().contains((#[trigger] targets@[j])@) ==> exists|i: int|
                    0 <= i < jobs@.len() && (#[trigger] jobs@[i]).target@ == targets@[j]@,
            forall|i: int| 0 <= i < jobs@.len() ==> (#[trigger] jobs@[i]).ttl == retry && jobs@[i].payload == payload,
    {
        let mut jobs: Vec<Context> = Vec::new();
        let mut i: usize = 0;
        while i < targets.len()
            invariant
                i <= targets@.len(),
                job_targets(jobs@) == admitted(string_views(targets@.take(i as int)), self.banned_set()),
                forall|j: int| 0 <= j < jobs@.len() ==> (#[trigger] jobs@[j]).ttl == retry && jobs@[j].payload == payload,
            decreases targets@.len() - i,
        {
            let ghost before = jobs@;
            let target = &targets[i];
            if !self.negative_cache.is_banned(target.as_str()) {
                jobs.push(Context { target: target.clone(), payload: share(&payload), ttl: retry });
            }
            proof {
                reveal_with_fuel(Seq::<_>::filter, 1);
                assert(string_views(targets@.take(i + 1)).drop_last() =~= string_views(targets@.take(i as int)));
                assert(string_views(targets@.take(i + 1)).last() == target@);
                if !self.banned_set().contains(target@) {
                    assert(job_targets(jobs@) =~= job_targets(before).push(target@));
                } else {
                    assert(jobs@ == before);
                }
            }
            i = i + 1;
        }
        assert(targets@.take(targets@.len() as int) =~= targets@);
        proof {
            lemma_admitted(string_views(targets@), self.banned_set());
            let jt = job_targets(jobs@);
            let tv = string_views(targets@);
            assert forall|i: int| 0 <= i < jobs@.len() implies !self.banned_set().contains((#[trigger] jobs@[i]).target@)
                && tv.contains(jobs@[i].target@) by {
                assert(jt[i] == jobs@[i].target@);
            }
            assert forall|j: int| 0 <= j < targets@.len() && !self.banned_set().contains((#[trigger] targets@[j])@)
                implies exists|i: int| 0 <= i < jobs@.len() && (#[trigger] jobs@[i]).target@ == targets@[j]@ by {
                assert(tv[j] == targets@[j]@);
                assert(jt.contains(tv[j]));
                let i = choose|i: int| 0 <= i < jt.len() && jt[i] == tv[j];
                assert(jobs@[i].target@ == targets@[j]@);
            }
        }
        jobs
    }

    /// What the outcome of an attempt means: the attempt is used up; a
    /// `404 Not Found` bans the target; a failed connection or a `5xx`
    /// status sends the copy again if it has attempts left.
    pub fn process_result(&mut self, ctx: Context, outcome: Outcome) -> (r: Option<Context>)
        requires
            ctx.ttl > 0,
        ensures
            final(self).banned_set() == (if outcome == Outcome::Status(NOT_FOUND) {
                old(self).banned_set().insert(ctx.target@)
            } else {
                old(self).banned_set()
            }),
            (worth_retrying(outcome) && ctx.ttl > 1) ==> (r matches Some(c) && c.ttl == ctx.ttl - 1
                && c.target == ctx.target && c.payload == ctx.payload),
            (outcome == Outcome::ConnectionError || (outcome matches Outcome::Status(code) && 500 <= code
                && code <= 599)) && ctx.ttl > 1 ==> (r matches Some(c) && c.ttl == ctx.ttl - 1
                && c.target == ctx.target && c.payload == ctx.payload),
            (outcome matches Outcome::Status(code) && !(500 <= code && code <= 599)) ==> r is None,
            ctx.ttl == 1 ==> r is None,
            outcome == Outcome::Status(404) ==> final(self).banned_set() == old(self).banned_set().insert(ctx.target@),
            outcome != Outcome::Status(404) ==> final(self).banned_set() == old(self).banned_set(),
            !(worth_retrying(outcome) && ctx.ttl > 1) ==> r is None,
    {
        let mut ctx = ctx;
        ctx.ttl = ctx.ttl - 1;
        if let Outcome::Status(code) = outcome {
            if code == NOT_FOUND {
                self.negative_cache.ban(ctx.target.as_str());
            }
        }
        if is_worth_retrying(outcome) && ctx.ttl != 0 {
            Some(ctx)
        } else {
            None
        }
    }
}

} // verus!
