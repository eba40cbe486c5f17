use vstd::prelude::*;
use std::sync::Arc;
use crate::headers::{Header, first_value, is_header_text, not_named, get, is_text, remove, lemma_remove_two_names};
use crate::duplicator::{Context, Duplicator, Payload, admitted, job_targets};
use crate::foreign::{json_string_array, parse_json_string_array, new_ulid, is_ulid_text};
use crate::string_set::string_views;

verus! {

/// `200 OK`.
pub const OK: u16 = 200;

/// `202 Accepted`.
pub const ACCEPTED: u16 = 202;

/// `400 Bad Request`.
pub const BAD_REQUEST: u16 = 400;

/// How many attempts each copy of a duplicated request gets.
pub const DUPLICATE_ATTEMPTS: usize = 2;

/// Why a request was refused.
#[derive(Clone, Copy, Debug, PartialEq, Eq, Structural)]
pub enum ErrorReason {
    /// The header that lists the targets is missing or is no JSON array of
    /// strings.
    InvalidTargets,
}

/// The answer to a request to duplicate.
#[derive(Debug)]
pub enum DuplicateResponse {
    /// The copies were handed on; they share this identifier.
    EnqueuedNormally { id: String },
    /// Nothing was done.
    Error { reason: ErrorReason },
}

/// The targets that the header called `name` lists: it must be there, be
/// text, and hold a JSON array of strings.
pub open spec fn header_targets(headers: Seq<Header>, name: Seq<char>) -> Option<Seq<Seq<char>>> {
    match first_value(headers, name) {
        None => None,
        Some(v) => if is_header_text(v) {
            json_string_array(v)
        } else {
            None
        },
    }
}

/// The targets that the header called `name` lists.
pub fn read_targets(headers: &Vec<Header>, name: &str) -> (r: Option<Vec<String>>)
    ensures
        match r {
            Some(v) => header_targets(headers@, name@) == Some(string_views(v@)),
            None => header_targets(headers@, name@) is None,
        },
{
    match get(headers, name) {
        None => None,
        Some(v) => {
            if is_text(v) {
                parse_json_string_array(v.as_slice())
            } else {
                None
            }
        },
    }
}

/// The headers that the copies carry: all but the list of targets and the
/// host.
pub open spec fn forwarded_headers(headers: Seq<Header>) -> Seq<Header> {
    headers.filter(not_named("x-duplicate-targets"@)).filter(not_named("host"@))
}

/// A request to duplicate: the header `x-duplicate-targets` lists the
/// targets as a JSON array of strings. Without a valid list the answer is
/// `400 Bad Request` and nothing is sent; otherwise every target that is not
/// banned gets a copy of the method, the body and the headers but that list
/// and the host, with two attempts, and the answer is `202 Accepted` with the
/// identifier of the copies.
pub fn duplicate(
    duplicator: &Duplicator,
    method: String,
    headers: Vec<Header>,
    body: Vec<u8>,
) -> (r: (u16, DuplicateResponse, Vec<Context>))
    ensures
        header_targets(headers@, "x-duplicate-targets"@) is None ==> {
            &&& r.0 == BAD_REQUEST
            &&& r.0 == 400
            &&& r.1 == DuplicateResponse::Error { reason: ErrorReason::InvalidTargets }
            &&& r.2@.len() == 0
        },
        header_targets(headers@, "x-duplicate-targets"@) matches Some(targets) ==> {
            &&& r.0 == ACCEPTED
            &&& r.0 == 202
            &&& r.1 matches DuplicateResponse::EnqueuedNormally { id } && is_ulid_text(id@)
            &&& job_targets(r.2@) == admitted(targets, duplicator.banned_set())
            &&& forall|i: int|
                0 <= i < r.2@.len() ==> {
                    &&& (#[trigger] r.2@[i]).ttl == DUPLICATE_ATTEMPTS
                    &&& r.2@[i].ttl == 2
                    &&& r.2@[i].payload.method == method
                    &&& r.2@[i].payload.body == body
                    &&& r.2@[i].payload.headers@ == forwarded_headers(headers@)
                    &&& r.2@[i].payload.headers@ == headers@.filter(
                        |e: Header| e.0@ != "x-duplicate-targets"@ && e.0@ != "host"@,
                    )
                    &&& forall|j: int|
                        0 <= j < headers@.len() && (#[trigger] headers@[j]).0@ != "x-duplicate-targets"@
                            && headers@[j].0@ != "host"@ ==> r.2@[i].payload.headers@.contains(headers@[j])
                    &&& r.1 matches DuplicateResponse::EnqueuedNormally { id } && r.2@[i].payload.id@ == id@
                }
        },
{
    let targets = match read_targets(&headers, "x-duplicate-targets") {
        Some(t) => t,
        None => {
            return (BAD_REQUEST, DuplicateResponse::Error { reason: ErrorReason::InvalidTargets }, Vec::new());
        },
    };
    let ghost old_headers = headers@;
    let mut headers = headers;
    remove(&mut headers, "x-duplicate-targets");
    remove(&mut headers, "host");
    let id = new_ulid();
    let payload = Arc::new(Payload { body, headers, method, id: id.clone() });
    proof {
        lemma_forwarded_headers(old_headers);
    }
    let jobs = duplicator.duplicate(payload, targets, DUPLICATE_ATTEMPTS);
    (ACCEPTED, DuplicateResponse::EnqueuedNormally { id }, jobs)
}

/// The banned targets, with `200 OK`.
pub fn negative_cache(duplicator: &Duplicator) -> (r: (u16, Vec<String>))
    ensures
        r.0 == OK,
        string_views(r.1@).to_set() == duplicator.banned_set(),
        string_views(r.1@).no_duplicates(),
{
    (OK, duplicator.banned())
}

/// A request to lift bans: the header `x-delete-targets` lists the targets
/// as a JSON array of strings. Without a valid list the answer is
/// `400 Bad Request` and nothing changes; otherwise the bans on the listed
/// targets are lifted and the answer is `200 OK`.
pub fn negative_cache_del(duplicator: &mut Duplicator, headers: &Vec<Header>) -> (code: u16)
    ensures
        header_targets(headers@, "x-delete-targets"@) is None ==> code == BAD_REQUEST
            && final(duplicator).banned_set() == old(duplicator).banned_set(),
        header_targets(headers@, "x-delete-targets"@) matches Some(targets) ==> code == OK
            && final(duplicator).banned_set() == old(duplicator).banned_set().difference(targets.to_set()),
{
    match read_targets(headers, "x-delete-targets") {
        None => BAD_REQUEST,
        Some(targets) => {
            duplicator.purge_banned_urls(targets);
            OK
        },
    }
}

/// The copies carry every header of the request but those called
/// `x-duplicate-targets` and `host`, in the order of the request, and no
/// other header.
pub proof fn lemma_forwarded_headers(h: Seq<Header>)
    ensures
        forwarded_headers(h) == h.filter(|e: Header| e.0@ != "x-duplicate-targets"@ && e.0@ != "host"@),
        forall|j: int|
            0 <= j < h.len() && (#[trigger] h[j]).0@ != "x-duplicate-targets"@ && h[j].0@ != "host"@
                ==> forwarded_headers(h).contains(h[j]),
        forall|k: int|
            0 <= k < forwarded_headers(h).len() ==> (#[trigger] forwarded_headers(h)[k]).0@ != "x-duplicate-targets"@
                && forwarded_headers(h)[k].0@ != "host"@,
{
    broadcast use vstd::seq_lib::group_filter_ensures;
    let a = "x-duplicate-targets"@;
    let b = "host"@;
    lemma_remove_two_names(h, a, b);
    let p = |e: Header| e.0@ != "x-duplicate-targets"@ && e.0@ != "host"@;
    let q = |e: Header| e.0@ != a && e.0@ != b;
    assert(p =~= q);
    assert(forwarded_headers(h) == h.filter(q));
    let f = h.filter(p);
    assert forall|j: int| 0 <= j < h.len() && (#[trigger] h[j]).0@ != "x-duplicate-targets"@ && h[j].0@ != "host"@
        implies f.contains(h[j]) by {
        assert(p(h[j]));
    }
    assert forall|k: int| 0 <= k < f.len() implies (#[trigger] f[k]).0@ != "x-duplicate-targets"@ && f[k].0@ != "host"@ by {
        assert(p(f[k]));
    }
}

/// The answers of the API by number: `200 OK`, `202 Accepted`,
/// `400 Bad Request`; and each copy of a duplicated request gets two
/// attempts.
pub proof fn lemma_api_numbers()
    ensures
        OK == 200,
        ACCEPTED == 202,
        BAD_REQUEST == 400,
        DUPLICATE_ATTEMPTS == 2,
{
}

} // verus!
