use vstd::prelude::*;

verus! {

/// The views of a sequence of strings.
pub open spec fn string_views(v: Seq<String>) -> Seq<Seq<char>> {
    v.map_values(|s: String| s@)
}

/// A set of strings, each held once.
pub struct StringSet {
    cache: Vec<String>,
}

impl View for StringSet {
    type V = Set<Seq<char>>;

    closed spec fn view(&self) -> Set<Seq<char>> {
        string_views(self.cache@).to_set()
    }
}

impl StringSet {
    #[verifier::type_invariant]
    spec fn wf(self) -> bool {
        string_views(self.cache@).no_duplicates()
    }

    /// The empty set.
    pub fn new() -> (c: Self)
        ensures
            c@ == Set::<Seq<char>>::empty(),
    {
        let c = StringSet { cache: Vec::new() };
        assert(c@ =~= Set::<Seq<char>>::empty());
        c
    }

    /// Where `url` stands in the cache, if it does.
    fn position(&self, url: &String) -> (r: Option<usize>)
        ensures
            match r {
                Some(i) => i < self.cache@.len() && self.cache@[i as int]@ == url@ && self@.contains(url@),
                None => !self@.contains(url@),
            },
    {
        let mut i: usize = 0;
        while i < self.cache.len()
            invariant
                i <= self.cache@.len(),
                forall|j: int| 0 <= j < i ==> self.cache@[j]@ != url@,
            decreases self.cache@.len() - i,
        {
            if self.cache[i] == *url {
                assert(string_views(self.cache@)[i as int] == url@);
                return Some(i);
            }
            i = i + 1;
        }
        proof {
            if self@.contains(url@) {
                let j = choose|j: int| 0 <= j < string_views(self.cache@).len() && string_views(self.cache@)[j] == url@;
                assert(self.cache@[j]@ == url@);
            }
        }
        None
    }

    /// `url` is added.
    pub fn insert(&mut self, url: &str)
        ensures
            final(self)@ == old(self)@.insert(url@),
    {
        proof {
            use_type_invariant(&*self);
        }
        let key = url.to_owned();
        match self.position(&key) {
            Some(i) => {
                assert(old(self)@.insert(url@) =~= old(self)@);
            },
            None => {
                let ghost before = string_views(self.cache@);
                let mut cache = Vec::new();
                std::mem::swap(&mut cache, &mut self.cache);
                cache.push(key);
                proof {
                    let after = string_views(cache@);
                    assert(after =~= before.push(url@));
                    assert(!before.contains(url@));
                    assert forall|a: int, b: int| 0 <= a < after.len() && 0 <= b < after.len() && a != b implies after[a] != after[b] by {
                        if a < before.len() && b < before.len() {
                        } else if a == before.len() {
                            assert(after[b] == before[b]);
                        } else {
                            assert(after[a] == before[a]);
                        }
                    }
                }
                self.cache = cache;
                assert(string_views(self.cache@) =~= before.push(url@));
                assert forall|s: Seq<char>| self@.contains(s) <==> old(self)@.insert(url@).contains(s) by {
                    if s != url@ && old(self)@.contains(s) {
                        let j = choose|j: int| 0 <= j < before.len() && before[j] == s;
                        assert(string_views(self.cache@)[j] == s);
                    }
                    if s == url@ {
                        assert(string_views(self.cache@)[before.len() as int] == s);
                    }
                }
                assert(self@ =~= old(self)@.insert(url@));
            },
        }
    }

    /// Whether `url` is in the set.
    pub fn contains(&self, url: &str) -> (b: bool)
        ensures
            b == self@.contains(url@),
    {
        let key = url.to_owned();
        self.position(&key).is_some()
    }

    /// Every string is taken out.
    pub fn clear(&mut self)
        ensures
            final(self)@ == Set::<Seq<char>>::empty(),
    {
        self.cache = Vec::new();
        assert(self@ =~= Set::<Seq<char>>::empty());
    }

    /// The strings, each once, in no particular order.
    pub fn to_vec(&self) -> (r: Vec<String>)
        ensures
            string_views(r@).to_set() == self@,
            string_views(r@).no_duplicates(),
    {
        proof {
            use_type_invariant(self);
        }
        self.cache.clone()
    }

    /// `url` is taken out, if it was in.
    pub fn remove(&mut self, url: &str)
        ensures
            final(self)@ == old(self)@.remove(url@),
    {
        proof {
            use_type_invariant(&*self);
        }
        let key = url.to_owned();
        match self.position(&key) {
            Some(i) => {
                let ghost before = string_views(self.cache@);
                let mut cache = Vec::new();
                std::mem::swap(&mut cache, &mut self.cache);
                cache.remove(i);
                proof {
                    let after = string_views(cache@);
                    assert(after =~= before.remove(i as int));
                    assert forall|a: int, b: int| 0 <= a < after.len() && 0 <= b < after.len() && a != b implies after[a] != after[b] by {
                        let a2 = if a < i { a } else { a + 1 };
                        let b2 = if b < i { b } else { b + 1 };
                        assert(after[a] == before[a2]);
                        assert(after[b] == before[b2]);
                    }
                }
                self.cache = cache;
                assert(string_views(self.cache@) =~= before.remove(i as int));
                assert(before[i as int] == url@);
                assert forall|s: Seq<char>| self@.contains(s) <==> old(self)@.remove(url@).contains(s) by {
                    if self@.contains(s) {
                        let j = choose|j: int| 0 <= j < string_views(self.cache@).len() && string_views(self.cache@)[j] == s;
                        if j < i {
                            assert(before[j] == s);
                        } else {
                            assert(before[j + 1] == s);
                        }
                    }
                    if old(self)@.remove(url@).contains(s) {
                        let j = choose|j: int| 0 <= j < before.len() && before[j] == s;
                        assert(j != i);
                        if j < i {
                            assert(string_views(self.cache@)[j] == s);
                        } else {
                            assert(string_views(self.cache@)[j - 1] == s);
                        }
                    }
                }
                assert(self@ =~= old(self)@.remove(url@));
            },
            None => {
                assert(old(self)@.remove(url@) =~= old(self)@);
            },
        }
    }
}

} // verus!
