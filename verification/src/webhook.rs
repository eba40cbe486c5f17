use vstd::prelude::*;
use crate::foreign::{is_uri, parses_as_uri, string_from_chars};
use crate::string_set::string_views;

verus! {

/// How many requests one HTTP/2 connection carries at once.
pub const HTTP2_SETTINGS_MAX_CONCURRENT_STREAMS: usize = 100;

/// How many workers each address of the service gets.
pub const WORKER_COUNT_PER_IPS: usize = 8;

/// How many times the list of targets is repeated.
pub const SCALER: usize = 4;

/// `a / b`, rounded up.
pub open spec fn ceil_div(a: int, b: int) -> int {
    (a + b - 1) / b
}

/// `a / b`, rounded up.
pub fn div_ceil(a: usize, b: usize) -> (q: usize)
    requires
        b > 0,
    ensures
        q == ceil_div(a as int, b as int),
{
    let q = a / b;
    let r = a % b;
    proof {
        assert(a == q * b + r && 0 <= r < b) by (nonlinear_arith)
            requires
                b > 0,
                q == a / b,
                r == a % b,
        ;
        assert((a + b - 1) / (b as int) == if r == 0 { q as int } else { q + 1 }) by (nonlinear_arith)
            requires
                b > 0,
                a == q * b + r,
                0 <= r < b,
        ;
        assert(r != 0 ==> q < usize::MAX) by (nonlinear_arith)
            requires
                b > 0,
                a == q * b + r,
                0 <= r < b,
                a <= usize::MAX,
        ;
    }
    if r != 0 {
        q + 1
    } else {
        q
    }
}

/// How the jobs are cut for the workers.
pub struct JobPlan {
    /// How many targets go into one message to a worker.
    pub chunk_size: usize,
    /// How many messages there are.
    pub chunk_count: usize,
    /// How many rounds of full connections the jobs take.
    pub depth: usize,
}

/// The plan for `job_count` targets and `worker_count` workers: at least as
/// many targets per message as a connection carries at once, and otherwise
/// an even share per worker.
pub fn plan_jobs(job_count: usize, worker_count: usize) -> (p: JobPlan)
    requires
        worker_count > 0,
        worker_count * HTTP2_SETTINGS_MAX_CONCURRENT_STREAMS <= usize::MAX,
    ensures
        p.chunk_size == (if ceil_div(job_count as int, worker_count as int) > HTTP2_SETTINGS_MAX_CONCURRENT_STREAMS {
            ceil_div(job_count as int, worker_count as int)
        } else {
            HTTP2_SETTINGS_MAX_CONCURRENT_STREAMS as int
        }),
        p.chunk_count == ceil_div(job_count as int, p.chunk_size as int),
        p.depth == ceil_div(job_count as int, worker_count * HTTP2_SETTINGS_MAX_CONCURRENT_STREAMS),
{
    let share = div_ceil(job_count, worker_count);
    let chunk_size = if share > HTTP2_SETTINGS_MAX_CONCURRENT_STREAMS {
        share
    } else {
        HTTP2_SETTINGS_MAX_CONCURRENT_STREAMS
    };
    let chunk_count = div_ceil(job_count, chunk_size);
    let depth = div_ceil(job_count, worker_count * HTTP2_SETTINGS_MAX_CONCURRENT_STREAMS);
    JobPlan { chunk_size, chunk_count, depth }
}

/// The lines of `s`, split at each newline; the text after the last newline
/// is a line too, empty or not. `cur` is the start of the first line.
pub open spec fn split_lines_from(s: Seq<char>, cur: Seq<char>) -> Seq<Seq<char>>
    decreases s.len(),
{
    if s.len() == 0 {
        seq![cur]
    } else if s[0] == '\n' {
        seq![cur] + split_lines_from(s.drop_first(), Seq::empty())
    } else {
        split_lines_from(s.drop_first(), cur.push(s[0]))
    }
}

/// The lines of `s`, split at each newline.
pub open spec fn split_lines(s: Seq<char>) -> Seq<Seq<char>> {
    split_lines_from(s, Seq::empty())
}

/// `s` repeated `k` times.
pub open spec fn repeated<A>(s: Seq<A>, k: nat) -> Seq<A>
    decreases k,
{
    if k == 0 {
        Seq::empty()
    } else {
        repeated(s, (k - 1) as nat) + s
    }
}

/// Whether a line names a target: it parses as a URI.
pub open spec fn is_target_line() -> spec_fn(Seq<char>) -> bool {
    |l: Seq<char>| parses_as_uri(l)
}

/// The lines of `buffer` that name targets, in order.
pub fn target_lines(buffer: &str) -> (r: Vec<String>)
    ensures
        string_views(r@) == split_lines(buffer@).filter(is_target_line()),
{
    let ghost all = buffer@;
    let ghost pred = is_target_line();
    let mut valid: Vec<String> = Vec::new();
    let mut line: Vec<char> = Vec::new();
    let ghost mut done: Seq<Seq<char>> = Seq::empty();
    proof {
        assert(all.skip(0) =~= all);
        assert(done + split_lines_from(all, line@) =~= split_lines_from(all, Seq::empty()));
    }
    for c in it: buffer.chars()
        invariant
            it.seq() == all,
            pred == is_target_line(),
            split_lines(all) == done + split_lines_from(all.skip(it.index() as int), line@),
            string_views(valid@) == done.filter(pred),
    {
        let ghost idx = it.index() as int;
        proof {
            assert(all.skip(idx)[0] == c);
            assert(all.skip(idx).drop_first() =~= all.skip(idx + 1));
        }
        if c == '\n' {
            let text = string_from_chars(&line);
            let ghost before = valid@;
            if is_uri(text.as_str()) {
                valid.push(text);
            }
            proof {
                reveal_with_fuel(Seq::<_>::filter, 1);
                assert(done.push(line@).drop_last() =~= done);
                assert(text@ == line@);
                assert(pred(line@) == parses_as_uri(line@));
                assert(done.push(line@).last() == line@);
                assert(done.push(line@).filter(pred) == if pred(line@) {
                    done.filter(pred).push(line@)
                } else {
                    done.filter(pred)
                });
                if parses_as_uri(line@) {
                    assert(string_views(valid@) =~= string_views(before).push(line@));
                } else {
                    assert(valid@ == before);
                }
                assert(done + seq![line@] + split_lines_from(all.skip(idx + 1), Seq::empty()) =~= done.push(line@)
                    + split_lines_from(all.skip(idx + 1), Seq::empty()));
                done = done.push(line@);
            }
            line = Vec::new();
            proof {
                assert(line@ =~= Seq::<char>::empty());
            }
        } else {
            line.push(c);
        }
    }
    proof {
        assert(all.skip(all.len() as int) =~= Seq::<char>::empty());
    }
    let text = string_from_chars(&line);
    let ghost before = valid@;
    if is_uri(text.as_str()) {
        valid.push(text);
    }
    proof {
        reveal_with_fuel(Seq::<_>::filter, 1);
        assert(split_lines(all) =~= done.push(line@));
        assert(done.push(line@).drop_last() =~= done);
        assert(text@ == line@);
        if parses_as_uri(line@) {
            assert(string_views(valid@) =~= string_views(before).push(line@));
        } else {
            assert(valid@ == before);
        }
    }
    valid
}

/// The targets of the list `buffer`: its lines that parse as URIs, in order,
/// the whole list four times over.
pub fn collect_targets(buffer: &str) -> (r: Vec<String>)
    ensures
        string_views(r@) == repeated(split_lines(buffer@).filter(is_target_line()), SCALER as nat),
{
    let valid = target_lines(buffer);
    let ghost vs = string_views(valid@);
    let mut out: Vec<String> = Vec::new();
    let mut k: usize = 0;
    while k < SCALER
        invariant
            k <= SCALER,
            vs == string_views(valid@),
            string_views(out@) == repeated(vs, k as nat),
        decreases SCALER - k,
    {
        let mut j: usize = 0;
        while j < valid.len()
            invariant
                j <= valid@.len(),
                k < SCALER,
                vs == string_views(valid@),
                string_views(out@) == repeated(vs, k as nat) + vs.take(j as int),
            decreases valid@.len() - j,
        {
            let ghost before = out@;
            out.push(valid[j].clone());
            proof {
                assert(string_views(out@) =~= string_views(before).push(vs[j as int]));
                assert(vs.take(j + 1) =~= vs.take(j as int).push(vs[j as int]));
                assert(repeated(vs, k as nat) + vs.take(j + 1) =~= (repeated(vs, k as nat) + vs.take(j as int)).push(vs[j as int]));
            }
            j = j + 1;
        }
        proof {
            assert(vs.take(valid@.len() as int) =~= vs);
            assert(repeated(vs, (k + 1) as nat) == repeated(vs, k as nat) + vs);
        }
        k = k + 1;
    }
    out
}

/// `s` cut into pieces of `n` items, the last one possibly shorter.
pub open spec fn chunked<A>(s: Seq<A>, n: nat) -> Seq<Seq<A>>
    recommends
        n > 0,
    decreases s.len(),
    when n > 0
{
    if s.len() == 0 {
        Seq::empty()
    } else if s.len() <= n {
        seq![s]
    } else {
        seq![s.take(n as int)] + chunked(s.skip(n as int), n)
    }
}

/// `targets` cut into messages of `chunk_size` targets, the last one
/// possibly shorter.
pub fn chunk_targets(targets: &Vec<String>, chunk_size: usize) -> (r: Vec<Vec<String>>)
    requires
        chunk_size > 0,
    ensures
        r@.map_values(|c: Vec<String>| c@) == chunked(targets@, chunk_size as nat),
{
    let ghost all = targets@;
    let mut out: Vec<Vec<String>> = Vec::new();
    let mut start: usize = 0;
    proof {
        assert(all.skip(0) =~= all);
        assert(out@.map_values(|c: Vec<String>| c@) + chunked(all, chunk_size as nat) =~= chunked(all, chunk_size as nat));
    }
    while start < targets.len()
        invariant
            chunk_size > 0,
            all == targets@,
            start <= all.len(),
            out@.map_values(|c: Vec<String>| c@) + chunked(all.skip(start as int), chunk_size as nat)
                == chunked(all, chunk_size as nat),
        decreases all.len() - start,
    {
        let end = if targets.len() - start > chunk_size {
            start + chunk_size
        } else {
            targets.len()
        };
        let mut chunk: Vec<String> = Vec::new();
        let mut i = start;
        while i < end
            invariant
                start <= i <= end <= all.len(),
                all == targets@,
                chunk@ == all.subrange(start as int, i as int),
            decreases end - i,
        {
            chunk.push(targets[i].clone());
            proof {
                assert(chunk@ =~= all.subrange(start as int, i + 1));
            }
            i = i + 1;
        }
        proof {
            let rest = all.skip(start as int);
            assert(rest.len() > 0);
            if rest.len() <= chunk_size {
                assert(chunk@ =~= rest);
                assert(all.skip(end as int) =~= Seq::<String>::empty());
                assert(chunked(rest, chunk_size as nat) == seq![rest]);
            } else {
                assert(chunk@ =~= rest.take(chunk_size as int));
                assert(rest.skip(chunk_size as int) =~= all.skip(end as int));
            }
            let before = out@.map_values(|c: Vec<String>| c@);
            assert(before + chunked(rest, chunk_size as nat) =~= before.push(chunk@) + chunked(all.skip(end as int), chunk_size as nat));
        }
        out.push(chunk);
        proof {
            let before = out@.drop_last().map_values(|c: Vec<String>| c@);
            assert(out@.map_values(|c: Vec<String>| c@) =~= before.push(chunk@)) by {
                assert(out@.drop_last().map_values(|c: Vec<String>| c@).push(out@.last()@) =~= out@.map_values(|c: Vec<String>| c@));
            }
        }
        start = end;
    }
    proof {
        assert(all.skip(start as int) =~= Seq::<String>::empty());
        assert(out@.map_values(|c: Vec<String>| c@) + Seq::<Seq<String>>::empty() =~= out@.map_values(|c: Vec<String>| c@));
    }
    out
}

/// Cutting a list into pieces loses and adds nothing: the pieces, one after
/// the other, are the list; there are as many as `len / n` rounded up; each
/// holds at least one item and at most `n`.
pub proof fn lemma_chunks_cover<A>(s: Seq<A>, n: nat)
    requires
        n > 0,
    ensures
        chunked(s, n).flatten() == s,
        chunked(s, n).len() == ceil_div(s.len() as int, n as int),
        forall|i: int| 0 <= i < chunked(s, n).len() ==> 0 < (#[trigger] chunked(s, n)[i]).len() <= n,
    decreases s.len(),
{
    if s.len() == 0 {
        assert(chunked(s, n).flatten() =~= s);
        assert(ceil_div(0, n as int) == 0) by (nonlinear_arith)
            requires n > 0;
    } else if s.len() <= n {
        assert(seq![s].flatten() =~= s) by {
            assert(seq![s].drop_first() =~= Seq::<Seq<A>>::empty());
            assert(seq![s].drop_first().flatten() =~= Seq::<A>::empty());
            assert(seq![s].flatten() == seq![s][0] + seq![s].drop_first().flatten());
        }
        assert(ceil_div(s.len() as int, n as int) == 1) by (nonlinear_arith)
            requires n > 0, 0 < s.len() <= n;
    } else {
        let rest = s.skip(n as int);
        lemma_chunks_cover(rest, n);
        let c = chunked(s, n);
        assert(c == seq![s.take(n as int)] + chunked(rest, n));
        assert(c.len() > 0);
        assert(c.drop_first() =~= chunked(rest, n));
        assert(c.flatten() == c[0] + c.drop_first().flatten());
        assert(s.take(n as int) + rest =~= s);
        assert(ceil_div(s.len() as int, n as int) == ceil_div(rest.len() as int, n as int) + 1) by (nonlinear_arith)
            requires n > 0, rest.len() == s.len() - n;
        assert forall|i: int| 0 <= i < c.len() implies 0 < (#[trigger] c[i]).len() <= n by {
            if i > 0 {
                assert(c[i] == chunked(rest, n)[i - 1]);
            }
        }
    }
}

/// The order in which workers are started: the first worker of every
/// address, then the second of every address, and so on; each entry is the
/// number of the worker, counted from one, and the position of the address.
pub open spec fn worker_order(rounds: nat, ip_count: nat) -> Seq<(usize, usize)>
    decreases rounds,
{
    if rounds == 0 {
        Seq::empty()
    } else {
        worker_order((rounds - 1) as nat, ip_count) + Seq::new(ip_count, |j: int| (rounds as usize, j as usize))
    }
}

/// The workers to start for `ip_count` addresses, in order.
pub fn worker_plan(ip_count: usize) -> (r: Vec<(usize, usize)>)
    ensures
        r@ == worker_order(WORKER_COUNT_PER_IPS as nat, ip_count as nat),
{
    let mut r: Vec<(usize, usize)> = Vec::new();
    let mut n: usize = 0;
    while n < WORKER_COUNT_PER_IPS
        invariant
            n <= WORKER_COUNT_PER_IPS,
            r@ == worker_order(n as nat, ip_count as nat),
        decreases WORKER_COUNT_PER_IPS - n,
    {
        let ghost before = r@;
        let mut j: usize = 0;
        while j < ip_count
            invariant
                n < WORKER_COUNT_PER_IPS,
                j <= ip_count,
                r@ == before + Seq::new(j as nat, |k: int| ((n + 1) as usize, k as usize)),
            decreases ip_count - j,
        {
            r.push((n + 1, j));
            proof {
                assert(r@ =~= before + Seq::new((j + 1) as nat, |k: int| ((n + 1) as usize, k as usize)));
            }
            j = j + 1;
        }
        proof {
            assert(worker_order((n + 1) as nat, ip_count as nat) =~= before + Seq::new(ip_count as nat, |k: int| ((n + 1) as usize, k as usize)));
        }
        n = n + 1;
    }
    r
}

/// An address of the service.
#[derive(Clone, Copy, Debug, PartialEq, Eq, Structural)]
pub enum IpAddress {
    V4(u8, u8, u8, u8),
    V6(u16, u16, u16, u16, u16, u16, u16, u16),
}

/// The four bytes of an IPv4 address.
pub open spec fn v4_octets(a: IpAddress) -> (u8, u8, u8, u8) {
    match a {
        IpAddress::V4(a, b, c, d) => (a, b, c, d),
        IpAddress::V6(..) => (0, 0, 0, 0),
    }
}

/// The addresses, which must all be IPv4: `None` when one is IPv6.
pub fn ipv4_only(addrs: &Vec<IpAddress>) -> (r: Option<Vec<(u8, u8, u8, u8)>>)
    ensures
        (forall|i: int| 0 <= i < addrs@.len() ==> (#[trigger] addrs@[i]) is V4) ==> (r is Some
            && r->0@ == addrs@.map_values(|a: IpAddress| v4_octets(a))),
        (exists|i: int| 0 <= i < addrs@.len() && (#[trigger] addrs@[i]) is V6) ==> r is None,
{
    let mut out: Vec<(u8, u8, u8, u8)> = Vec::new();
    let mut i: usize = 0;
    while i < addrs.len()
        invariant
            i <= addrs@.len(),
            out@ == addrs@.take(i as int).map_values(|a: IpAddress| v4_octets(a)),
            forall|j: int| 0 <= j < i ==> (#[trigger] addrs@[j]) is V4,
        decreases addrs@.len() - i,
    {
        match addrs[i] {
            IpAddress::V4(a, b, c, d) => {
                out.push((a, b, c, d));
                proof {
                    assert(addrs@.take(i + 1) =~= addrs@.take(i as int).push(addrs@[i as int]));
                    assert(out@ =~= addrs@.take(i + 1).map_values(|a: IpAddress| v4_octets(a)));
                }
            },
            IpAddress::V6(..) => {
                return None;
            },
        }
        i = i + 1;
    }
    assert(addrs@.take(addrs@.len() as int) =~= addrs@);
    Some(out)
}

/// Whether the protocol that the connection agreed on is HTTP/2 (`h2`).
pub fn is_h2(negotiated: Option<&[u8]>) -> (b: bool)
    ensures
        b == (negotiated matches Some(p) && p@ == seq![104u8, 50u8]),
{
    match negotiated {
        Some(p) => {
            if p.len() == 2 && p[0] == 104 && p[1] == 50 {
                assert(p@ =~= seq![104u8, 50u8]);
                true
            } else {
                false
            }
        },
        None => false,
    }
}

/// The plan covers every job: each message carries at least as many
/// targets as one connection takes at once, and the messages together have
/// room for all targets, with less than one message to spare.
pub proof fn lemma_plan_covers_jobs(job_count: nat, chunk_size: nat, chunk_count: nat)
    requires
        chunk_size >= HTTP2_SETTINGS_MAX_CONCURRENT_STREAMS,
        chunk_count == ceil_div(job_count as int, chunk_size as int),
    ensures
        chunk_size * chunk_count >= job_count,
        job_count > 0 ==> chunk_size * (chunk_count - 1) < job_count,
{
    assert(chunk_size * chunk_count >= job_count) by (nonlinear_arith)
        requires
            chunk_size > 0,
            chunk_count == (job_count + chunk_size - 1) / (chunk_size as int),
    ;
    assert(job_count > 0 ==> chunk_size * (chunk_count - 1) < job_count) by (nonlinear_arith)
        requires
            chunk_size > 0,
            chunk_count == (job_count + chunk_size - 1) / (chunk_size as int),
    ;
}

/// The settings of the sender by number: one hundred streams per
/// connection, eight workers per address, the list four times over.
pub proof fn lemma_sender_numbers()
    ensures
        HTTP2_SETTINGS_MAX_CONCURRENT_STREAMS == 100,
        WORKER_COUNT_PER_IPS == 8,
        SCALER == 4,
{
}

/// `a / b` rounded up is the least number of `b`-sized parts that hold `a`.
pub proof fn lemma_ceil_div_is_least_cover(a: nat, b: nat)
    requires
        b > 0,
    ensures
        ceil_div(a as int, b as int) >= 0,
        ceil_div(a as int, b as int) * b >= a,
        a > 0 ==> (ceil_div(a as int, b as int) - 1) * b < a,
        a == 0 ==> ceil_div(a as int, b as int) == 0,
{
    assert(ceil_div(a as int, b as int) >= 0) by (nonlinear_arith)
        requires b > 0;
    assert(ceil_div(a as int, b as int) * b >= a) by (nonlinear_arith)
        requires b > 0;
    assert(a > 0 ==> (ceil_div(a as int, b as int) - 1) * b < a) by (nonlinear_arith)
        requires b > 0;
    assert(a == 0 ==> ceil_div(a as int, b as int) == 0) by (nonlinear_arith)
        requires b > 0;
}

/// The list four times over is the list, then the list again, three more
/// times.
pub proof fn lemma_scaled_is_four_copies<A>(s: Seq<A>)
    ensures
        repeated(s, SCALER as nat) == s + s + s + s,
        repeated(s, SCALER as nat).len() == 4 * s.len(),
        forall|i: int| 0 <= i < 4 * s.len() ==> #[trigger] repeated(s, SCALER as nat)[i] == s[i % (s.len() as int)],
{
    assert(repeated(s, 0) == Seq::<A>::empty());
    assert(repeated(s, 1) == repeated(s, 0) + s);
    assert(repeated(s, 1) =~= s);
    assert(repeated(s, 2) == repeated(s, 1) + s);
    assert(repeated(s, 3) == repeated(s, 2) + s);
    assert(repeated(s, 4) == repeated(s, 3) + s);
    assert(repeated(s, 4) =~= s + s + s + s);
    let n = s.len() as int;
    assert forall|i: int| 0 <= i < 4 * n implies #[trigger] repeated(s, SCALER as nat)[i] == s[i % n] by {
        let r = s + s + s + s;
        if i < n {
            vstd::arithmetic::div_mod::lemma_small_mod(i as nat, n as nat);
        } else if i < 2 * n {
            vstd::arithmetic::div_mod::lemma_mod_add_multiples_vanish(i - n, n);
            vstd::arithmetic::div_mod::lemma_small_mod((i - n) as nat, n as nat);
        } else if i < 3 * n {
            vstd::arithmetic::div_mod::lemma_mod_add_multiples_vanish(i - n, n);
            vstd::arithmetic::div_mod::lemma_mod_add_multiples_vanish(i - 2 * n, n);
            vstd::arithmetic::div_mod::lemma_small_mod((i - 2 * n) as nat, n as nat);
        } else {
            vstd::arithmetic::div_mod::lemma_mod_add_multiples_vanish(i - n, n);
            vstd::arithmetic::div_mod::lemma_mod_add_multiples_vanish(i - 2 * n, n);
            vstd::arithmetic::div_mod::lemma_mod_add_multiples_vanish(i - 3 * n, n);
            vstd::arithmetic::div_mod::lemma_small_mod((i - 3 * n) as nat, n as nat);
        }
    }
}

/// The workers start round by round: the entry at `n * ip_count + j` is
/// worker number `n + 1` of address `j`, and there are eight rounds.
pub proof fn lemma_worker_order_entries(rounds: nat, ip_count: nat)
    ensures
        worker_order(rounds, ip_count).len() == rounds * ip_count,
        forall|n: int, j: int|
            0 <= n < rounds && 0 <= j < ip_count ==> #[trigger] worker_order(rounds, ip_count)[n * ip_count + j]
                == ((n + 1) as usize, j as usize),
    decreases rounds,
{
    if rounds > 0 {
        let r1 = (rounds - 1) as nat;
        lemma_worker_order_entries(r1, ip_count);
        let last = Seq::new(ip_count, |j: int| (rounds as usize, j as usize));
        assert(worker_order(rounds, ip_count) == worker_order(r1, ip_count) + last);
        assert(last.len() == ip_count);
        assert(rounds * ip_count == r1 * ip_count + ip_count) by (nonlinear_arith)
            requires rounds == r1 + 1;
        assert forall|n: int, j: int| 0 <= n < rounds && 0 <= j < ip_count implies #[trigger] worker_order(rounds, ip_count)[n * ip_count + j]
            == ((n + 1) as usize, j as usize) by {
            if n < r1 {
                assert(n * ip_count + j < r1 * ip_count) by (nonlinear_arith)
                    requires n < r1, 0 <= j < ip_count, n >= 0;
            } else {
                assert(n * ip_count == r1 * ip_count) by (nonlinear_arith)
                    requires n == r1;
            }
        }
    } else {
        assert(rounds * ip_count == 0) by (nonlinear_arith)
            requires rounds == 0;
    }
}

} // verus!
