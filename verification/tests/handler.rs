use std::sync::Arc;

use request_duplicator::duplicator::{Context, Duplicator, Payload};
use request_duplicator::headers::{get, is_text, remove};
use request_duplicator::http_handler::{
    duplicate, negative_cache, negative_cache_del, read_targets, DuplicateResponse, ErrorReason,
    ACCEPTED, BAD_REQUEST, DUPLICATE_ATTEMPTS, OK,
};
use request_duplicator::status::Outcome;

fn h(name: &str, value: &str) -> (String, Vec<u8>) {
    (name.to_string(), value.as_bytes().to_vec())
}

fn payload() -> Arc<Payload> {
    Arc::new(Payload { body: vec![1, 2, 3], headers: vec![], method: "PUT".to_string(), id: "P".to_string() })
}

fn is_ulid(id: &str) -> bool {
    id.len() == 26 && id.chars().all(|c| c.is_ascii_digit() || (c.is_ascii_uppercase() && !"ILOU".contains(c)))
}

#[test]
fn header_lookup_takes_the_first() {
    let hs = vec![h("a", "1"), h("b", "2"), h("a", "3")];
    assert_eq!(get(&hs, "a"), Some(&b"1".to_vec()));
    assert_eq!(get(&hs, "b"), Some(&b"2".to_vec()));
    assert_eq!(get(&hs, "c"), None);
}

#[test]
fn header_remove_takes_all_of_a_name() {
    let mut hs = vec![h("a", "1"), h("b", "2"), h("a", "3"), h("c", "4")];
    remove(&mut hs, "a");
    assert_eq!(hs, vec![h("b", "2"), h("c", "4")]);
    assert_eq!(get(&hs, "a"), None);
    remove(&mut hs, "zzz");
    assert_eq!(hs.len(), 2);
}

#[test]
fn header_text_is_visible_ascii_or_tab() {
    assert!(is_text(&b"[\"x\"]\t ok ~".to_vec()));
    assert!(is_text(&vec![]));
    assert!(!is_text(&vec![b'a', 0x7f]));
    assert!(!is_text(&vec![b'a', 0x1f]));
    assert!(!is_text(&vec![0xc3, 0xa9]));
}

#[test]
fn targets_header_is_read_as_json_array() {
    let hs = vec![h("x-duplicate-targets", "[\"https://a/\", \"https://b/\"]")];
    assert_eq!(
        read_targets(&hs, "x-duplicate-targets"),
        Some(vec!["https://a/".to_string(), "https://b/".to_string()])
    );
    assert_eq!(read_targets(&hs, "x-delete-targets"), None);
    let bad = vec![h("x-duplicate-targets", "https://a/")];
    assert_eq!(read_targets(&bad, "x-duplicate-targets"), None);
    let obj = vec![h("x-duplicate-targets", "{\"a\": 1}")];
    assert_eq!(read_targets(&obj, "x-duplicate-targets"), None);
    let nums = vec![h("x-duplicate-targets", "[1, 2]")];
    assert_eq!(read_targets(&nums, "x-duplicate-targets"), None);
    let binary = vec![("x-duplicate-targets".to_string(), b"[\"\xc3\xa9\"]".to_vec())];
    assert_eq!(read_targets(&binary, "x-duplicate-targets"), None);
    let empty = vec![h("x-duplicate-targets", "[]")];
    assert_eq!(read_targets(&empty, "x-duplicate-targets"), Some(vec![]));
}

#[test]
fn duplicate_without_targets_is_refused() {
    let d = Duplicator::new();
    let (code, resp, jobs) = duplicate(&d, "POST".to_string(), vec![h("host", "x")], vec![]);
    assert_eq!(code, BAD_REQUEST);
    assert!(matches!(resp, DuplicateResponse::Error { reason: ErrorReason::InvalidTargets }));
    assert!(jobs.is_empty());
    let (code, _, jobs) = duplicate(&d, "POST".to_string(), vec![h("x-duplicate-targets", "nope")], vec![]);
    assert_eq!(code, 400);
    assert!(jobs.is_empty());
}

#[test]
fn duplicate_fans_out_to_unbanned_targets() {
    let mut d = Duplicator::new();
    let banned = d.process_result(
        Context { target: "https://gone/".to_string(), payload: payload(), ttl: 2 },
        Outcome::Status(404),
    );
    assert!(banned.is_none());
    let headers = vec![
        h("x-duplicate-targets", "[\"https://a/\", \"https://gone/\", \"https://b/\"]"),
        h("host", "duplicator.local"),
        h("content-type", "application/json"),
    ];
    let (code, resp, jobs) = duplicate(&d, "POST".to_string(), headers, b"{}".to_vec());
    assert_eq!(code, ACCEPTED);
    let id = match resp {
        DuplicateResponse::EnqueuedNormally { id } => id,
        other => panic!("unexpected {other:?}"),
    };
    assert!(is_ulid(&id), "{id}");
    let targets: Vec<&str> = jobs.iter().map(|j| j.target.as_str()).collect();
    assert_eq!(targets, vec!["https://a/", "https://b/"]);
    for j in &jobs {
        assert_eq!(j.ttl, DUPLICATE_ATTEMPTS);
        assert_eq!(j.payload.id, id);
        assert_eq!(j.payload.method, "POST");
        assert_eq!(j.payload.body, b"{}".to_vec());
        assert_eq!(j.payload.headers, vec![h("content-type", "application/json")]);
    }
    assert!(Arc::ptr_eq(&jobs[0].payload, &jobs[1].payload));
}

#[test]
fn negative_cache_listing_and_deletion() {
    let mut d = Duplicator::new();
    for t in ["https://x/", "https://y/"] {
        d.process_result(Context { target: t.to_string(), payload: payload(), ttl: 1 }, Outcome::Status(404));
    }
    let (code, mut list) = negative_cache(&d);
    assert_eq!(code, OK);
    list.sort();
    assert_eq!(list, vec!["https://x/".to_string(), "https://y/".to_string()]);
    assert_eq!(negative_cache_del(&mut d, &vec![h("x-delete-targets", "oops")]), BAD_REQUEST);
    assert_eq!(negative_cache_del(&mut d, &vec![]), BAD_REQUEST);
    assert_eq!(d.banned().len(), 2);
    assert_eq!(negative_cache_del(&mut d, &vec![h("x-delete-targets", "[\"https://x/\"]")]), OK);
    assert_eq!(d.banned(), vec!["https://y/".to_string()]);
}

#[test]
fn duplicator_process_result_retries() {
    let mut d = Duplicator::new();
    let c = Context { target: "https://s/".to_string(), payload: payload(), ttl: 2 };
    let again = d.process_result(c, Outcome::Status(502)).expect("one attempt left");
    assert_eq!(again.ttl, 1);
    assert!(d.process_result(again, Outcome::ConnectionError).is_none());
    let c = Context { target: "https://s/".to_string(), payload: payload(), ttl: 5 };
    assert!(d.process_result(c, Outcome::Status(201)).is_none());
    let c = Context { target: "https://s/".to_string(), payload: payload(), ttl: 5 };
    assert!(d.process_result(c, Outcome::Status(403)).is_none());
    assert!(d.banned().is_empty());
}

#[test]
fn duplicator_purges_many() {
    let mut d = Duplicator::new();
    for t in ["a", "b", "c"] {
        d.process_result(Context { target: t.to_string(), payload: payload(), ttl: 1 }, Outcome::Status(404));
    }
    d.purge_banned_urls(vec!["a".to_string(), "c".to_string(), "zz".to_string()]);
    assert_eq!(d.banned(), vec!["b".to_string()]);
    let jobs = d.duplicate(payload(), vec!["a".to_string(), "b".to_string(), "c".to_string()], 4);
    let t: Vec<&str> = jobs.iter().map(|j| j.target.as_str()).collect();
    assert_eq!(t, vec!["a", "c"]);
    assert!(jobs.iter().all(|j| j.ttl == 4));
}
