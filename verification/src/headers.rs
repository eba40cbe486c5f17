use vstd::prelude::*;

verus! {

/// A header: its name, in lower case, and its raw value.
pub type Header = (String, Vec<u8>);

/// The value of the first header called `name`, if there is one.
pub open spec fn first_value(h: Seq<Header>, name: Seq<char>) -> Option<Seq<u8>>
    decreases h.len(),
{
    if h.len() == 0 {
        None
    } else if h[0].0@ == name {
        Some(h[0].1@)
    } else {
        first_value(h.drop_first(), name)
    }
}

/// The value that `first_value` finds is that of the first header called
/// `name`, and it finds none exactly when no header is called so.
pub proof fn lemma_first_value_is_first(h: Seq<Header>, name: Seq<char>)
    ensures
        first_value(h, name) is None <==> forall|i: int| 0 <= i < h.len() ==> (#[trigger] h[i]).0@ != name,
        first_value(h, name) matches Some(v) ==> exists|i: int|
            0 <= i < h.len() && (#[trigger] h[i]).0@ == name && h[i].1@ == v && forall|j: int|
                0 <= j < i ==> (#[trigger] h[j]).0@ != name,
    decreases h.len(),
{
    if h.len() > 0 {
        let rest = h.drop_first();
        lemma_first_value_is_first(rest, name);
        if h[0].0@ == name {
            assert(h[0].0@ == name);
        } else {
            assert forall|i: int| 0 <= i < rest.len() implies #[trigger] rest[i] == h[i + 1] by {}
            if first_value(rest, name) is None {
                assert forall|i: int| 0 <= i < h.len() implies (#[trigger] h[i]).0@ != name by {
                    if i > 0 {
                        assert(h[i] == rest[i - 1]);
                    }
                }
            } else {
                let v = first_value(rest, name)->0;
                let i = choose|i: int|
                    0 <= i < rest.len() && (#[trigger] rest[i]).0@ == name && rest[i].1@ == v && forall|j: int|
                        0 <= j < i ==> (#[trigger] rest[j]).0@ != name;
                assert(h[i + 1] == rest[i]);
                assert forall|j: int| 0 <= j < i + 1 implies (#[trigger] h[j]).0@ != name by {
                    if j > 0 {
                        assert(h[j] == rest[j - 1]);
                    }
                }
                assert(!(forall|k: int| 0 <= k < h.len() ==> (#[trigger] h[k]).0@ != name)) by {
                    assert(h[i + 1].0@ == name);
                }
            }
        }
    }
}

/// Whether header `e` is not called `name`.
pub open spec fn not_named(name: Seq<char>) -> spec_fn(Header) -> bool {
    |e: Header| e.0@ != name
}

/// Whether a byte may stand in a header value that is read as text:
/// visible ASCII or a tab.
pub open spec fn is_visible_ascii(b: u8) -> bool {
    (32 <= b && b < 127) || b == 9
}

/// Whether every byte of a header value may be read as text.
pub open spec fn is_header_text(v: Seq<u8>) -> bool {
    forall|i: int| 0 <= i < v.len() ==> is_visible_ascii(#[trigger] v[i])
}

/// Whether every byte of a header value may be read as text.
pub fn is_text(value: &Vec<u8>) -> (b: bool)
    ensures
        b == is_header_text(value@),
        b <==> forall|i: int| 0 <= i < value@.len() ==> ((32 <= #[trigger] value@[i] && value@[i] <= 126) || value@[i] == 9),
{
    let mut i: usize = 0;
    while i < value.len()
        invariant
            i <= value@.len(),
            forall|j: int| 0 <= j < i ==> is_visible_ascii(#[trigger] value@[j]),
        decreases value@.len() - i,
    {
        let b = value[i];
        if !((32 <= b && b < 127) || b == 9) {
            return false;
        }
        i = i + 1;
    }
    true
}

/// The value of the first header called `name`.
pub fn get<'a>(headers: &'a Vec<Header>, name: &str) -> (r: Option<&'a Vec<u8>>)
    ensures
        match r {
            Some(v) => first_value(headers@, name@) == Some(v@),
            None => first_value(headers@, name@) is None,
        },
        r is None <==> forall|i: int| 0 <= i < headers@.len() ==> (#[trigger] headers@[i]).0@ != name@,
        r matches Some(v) ==> exists|i: int|
            0 <= i < headers@.len() && (#[trigger] headers@[i]).0@ == name@ && headers@[i].1@ == v@ && forall|j: int|
                0 <= j < i ==> (#[trigger] headers@[j]).0@ != name@,
{
    proof {
        lemma_first_value_is_first(headers@, name@);
    }
    let key = name.to_owned();
    let mut i: usize = 0;
    assert(headers@.skip(0) =~= headers@);
    while i < headers.len()
        invariant
            i <= headers@.len(),
            key@ == name@,
            first_value(headers@, name@) == first_value(headers@.skip(i as int), name@),
        decreases headers@.len() - i,
    {
        assert(headers@.skip(i as int)[0] == headers@[i as int]);
        if headers[i].0 == key {
            assert(first_value(headers@, name@) == Some(headers@[i as int].1@));
            proof {
                lemma_first_value_is_first(headers@, name@);
            }
            return Some(&headers[i].1);
        }
        assert(headers@.skip(i as int).drop_first() =~= headers@.skip(i + 1));
        i = i + 1;
    }
    None
}

/// Every header called `name` is taken out; the others keep their order.
pub fn remove(headers: &mut Vec<Header>, name: &str)
    ensures
        final(headers)@ == old(headers)@.filter(not_named(name@)),
        forall|i: int| 0 <= i < final(headers)@.len() ==> (#[trigger] final(headers)@[i]).0@ != name@,
        forall|i: int| 0 <= i < final(headers)@.len() ==> old(headers)@.contains(#[trigger] final(headers)@[i]),
        forall|i: int|
            0 <= i < old(headers)@.len() && (#[trigger] old(headers)@[i]).0@ != name@ ==> final(headers)@.contains(
                old(headers)@[i],
            ),
{
    let key = name.to_owned();
    let mut rest: Vec<Header> = Vec::new();
    std::mem::swap(&mut rest, headers);
    let ghost all = rest@;
    // taken from the back, the headers land in `pending` turned round
    let mut pending: Vec<Header> = Vec::new();
    while rest.len() > 0
        invariant
            rest@ + pending@.reverse() == all,
        decreases rest@.len(),
    {
        let ghost before_rest = rest@;
        let ghost before = pending@;
        let e = rest.pop().unwrap();
        pending.push(e);
        proof {
            assert(pending@.reverse() =~= seq![e] + before.reverse());
            assert(before_rest =~= rest@.push(e));
            assert(rest@ + pending@.reverse() =~= before_rest + before.reverse());
        }
    }
    assert(pending@.reverse() =~= all);
    let mut kept: Vec<Header> = Vec::new();
    while pending.len() > 0
        invariant
            key@ == name@,
            pending@.len() <= all.len(),
            pending@.reverse() == all.skip(all.len() - pending@.len()),
            kept@ == all.take(all.len() - pending@.len()).filter(not_named(name@)),
        decreases pending@.len(),
    {
        let ghost j = all.len() - pending@.len();
        let ghost before = pending@;
        let e = pending.pop().unwrap();
        proof {
            assert(before.reverse()[0] == e);
            assert(e == all[j]);
            assert(pending@.reverse() =~= before.reverse().drop_first());
            assert(all.skip(j).drop_first() =~= all.skip(j + 1));
            assert(all.take(j + 1).drop_last() =~= all.take(j));
            reveal_with_fuel(Seq::<_>::filter, 1);
        }
        if e.0 != key {
            kept.push(e);
        }
    }
    assert(all.take(all.len() as int) =~= all);
    *headers = kept;
    proof {
        broadcast use vstd::seq_lib::group_filter_ensures;
        let f = all.filter(not_named(name@));
        assert forall|i: int| 0 <= i < f.len() implies (#[trigger] f[i]).0@ != name@ by {
            assert(not_named(name@)(f[i]));
        }
        lemma_filter_from(all, not_named(name@));
        assert forall|i: int| 0 <= i < all.len() && (#[trigger] all[i]).0@ != name@ implies f.contains(all[i]) by {
            assert(not_named(name@)(all[i]));
        }
    }
}

/// A header list in which no header is called `name` has no value for it.
proof fn lemma_no_value_without_name(h: Seq<Header>, name: Seq<char>)
    requires
        forall|i: int| 0 <= i < h.len() ==> (#[trigger] h[i]).0@ != name,
    ensures
        first_value(h, name) is None,
    decreases h.len(),
{
    if h.len() > 0 {
        assert forall|i: int| 0 <= i < h.drop_first().len() implies (#[trigger] h.drop_first()[i]).0@ != name by {
            assert(h.drop_first()[i] == h[i + 1]);
        }
        lemma_no_value_without_name(h.drop_first(), name);
    }
}

/// After the headers called `name` are taken out, looking `name` up finds
/// nothing.
pub proof fn lemma_removed_header_is_gone(h: Seq<Header>, name: Seq<char>)
    ensures
        first_value(h.filter(not_named(name)), name) is None,
{
    broadcast use vstd::seq_lib::group_filter_ensures;
    let f = h.filter(not_named(name));
    assert forall|i: int| 0 <= i < f.len() implies (#[trigger] f[i]).0@ != name by {
        assert(not_named(name)(f[i]));
    }
    lemma_no_value_without_name(f, name);
}

/// What a filter keeps comes from what it filters.
proof fn lemma_filter_from<A>(s: Seq<A>, p: spec_fn(A) -> bool)
    ensures
        forall|i: int| 0 <= i < s.filter(p).len() ==> s.contains(#[trigger] s.filter(p)[i]),
    decreases s.len(),
{
    reveal(Seq::filter);
    if s.len() > 0 {
        let rest = s.drop_last();
        lemma_filter_from(rest, p);
        let f = s.filter(p);
        assert forall|i: int| 0 <= i < f.len() implies s.contains(#[trigger] f[i]) by {
            if i < rest.filter(p).len() {
                assert(f[i] == rest.filter(p)[i]);
                let j = choose|j: int| 0 <= j < rest.len() && rest[j] == f[i];
                assert(s[j] == f[i]);
            } else {
                assert(f[i] == s.last());
                assert(s[s.len() - 1] == f[i]);
            }
        }
    }
}

/// A header value reads as text exactly when every byte of it is a
/// visible ASCII character (32 to 126) or a tab (9): digits, letters and
/// punctuation all pass; control bytes, DEL and non-ASCII bytes do not.
pub proof fn lemma_header_text_is_visible_ascii(v: Seq<u8>)
    ensures
        is_header_text(v) <==> forall|i: int| 0 <= i < v.len() ==> ((32 <= #[trigger] v[i] && v[i] <= 126) || v[i] == 9),
        forall|b: u8| (32 <= b && b <= 126) ==> #[trigger] is_visible_ascii(b),
        is_visible_ascii(9),
        forall|b: u8| b < 32 && b != 9 ==> !#[trigger] is_visible_ascii(b),
        forall|b: u8| b >= 127 ==> !#[trigger] is_visible_ascii(b),
{
}

/// Taking out the headers called `a` and then those called `b` keeps
/// exactly the headers called neither, in their order.
pub proof fn lemma_remove_two_names(h: Seq<Header>, a: Seq<char>, b: Seq<char>)
    ensures
        h.filter(not_named(a)).filter(not_named(b)) == h.filter(|e: Header| e.0@ != a && e.0@ != b),
    decreases h.len(),
{
    reveal(Seq::filter);
    if h.len() > 0 {
        let rest = h.drop_last();
        let x = h.last();
        lemma_remove_two_names(rest, a, b);
        let fa = rest.filter(not_named(a));
        if x.0@ != a {
            assert(h.filter(not_named(a)) == fa.push(x));
            assert(fa.push(x).drop_last() =~= fa);
            assert(fa.push(x).last() == x);
        } else {
            assert(h.filter(not_named(a)) == fa);
        }
    }
}

} // verus!
