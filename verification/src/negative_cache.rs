use vstd::prelude::*;
use crate::string_set::{StringSet, string_views};

verus! {

/// The targets that answered `404 Not Found`: copies of requests are not
/// sent to them any more until their ban is lifted.
pub struct NegativeCache {
    cache: StringSet,
}

impl View for NegativeCache {
    type V = Set<Seq<char>>;

    closed spec fn view(&self) -> Set<Seq<char>> {
        self.cache@
    }
}

impl NegativeCache {
    /// A cache that bans nothing.
    pub fn new() -> (c: Self)
        ensures
            c@ == Set::<Seq<char>>::empty(),
    {
        NegativeCache { cache: StringSet::new() }
    }

    /// From now on `url` is banned.
    pub fn ban(&mut self, url: &str)
        ensures
            final(self)@ == old(self)@.insert(url@),
    {
        self.cache.insert(url);
    }

    /// Whether `url` is banned.
    pub fn is_banned(&self, url: &str) -> (b: bool)
        ensures
            b == self@.contains(url@),
    {
        self.cache.contains(url)
    }

    /// Every ban is lifted.
    pub fn clear(&mut self)
        ensures
            final(self)@ == Set::<Seq<char>>::empty(),
    {
        self.cache.clear();
    }

    /// The banned targets, each once, in no particular order.
    pub fn list(&self) -> (r: Vec<String>)
        ensures
            string_views(r@).to_set() == self@,
            string_views(r@).no_duplicates(),
    {
        self.cache.to_vec()
    }

    /// The ban on `url` is lifted, if there was one.
    pub fn delete(&mut self, url: &str)
        ensures
            final(self)@ == old(self)@.remove(url@),
    {
        self.cache.remove(url);
    }
}

/// A target is banned right after it is banned, and not right after its
/// ban is lifted; lifting a ban that was just laid leaves the cache as
/// lifting it alone would.
pub proof fn lemma_ban_then_lookup(cache: NegativeCache, url: Seq<char>)
    ensures
        cache@.insert(url).contains(url),
        !cache@.remove(url).contains(url),
        cache@.insert(url).remove(url) == cache@.remove(url),
{
    assert(cache@.insert(url).remove(url) =~= cache@.remove(url));
}

} // verus!
