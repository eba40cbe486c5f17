use std::sync::Arc;
use std::time::Duration;

use request_duplicator::dispatch::model::{Context, Payload, Task};
use request_duplicator::dispatch::queue::Priorized;
use request_duplicator::dispatch::runner::{Builder, Enqueuer, Runner, MAX_PERMITS};
use request_duplicator::model::Priority;
use request_duplicator::negative_cache::NegativeCache;
use request_duplicator::status::{is_client_error, is_server_error, is_success, is_worth_retrying, Outcome};

fn payload() -> Payload {
    Payload {
        body: b"{\"content\": \"hi\"}".to_vec(),
        headers: vec![("content-type".to_string(), b"application/json".to_vec())],
        method: "POST".to_string(),
    }
}

fn task(ttl: usize) -> Task {
    Task {
        target: "https://t.example/1".to_string(),
        context: Arc::new(Context { id: "ID".to_string(), priority: Priority::High, payload: payload() }),
        ttl,
    }
}

fn targets(n: usize) -> Vec<String> {
    (0..n).map(|i| format!("https://t.example/{i}")).collect()
}

#[test]
fn status_classes() {
    assert!(is_success(200) && is_success(204) && is_success(299));
    assert!(!is_success(199) && !is_success(300));
    assert!(is_client_error(400) && is_client_error(404) && is_client_error(499));
    assert!(!is_client_error(500) && !is_client_error(399));
    assert!(is_server_error(500) && is_server_error(503) && is_server_error(599));
    assert!(!is_server_error(600) && !is_server_error(499));
    assert!(is_worth_retrying(Outcome::ConnectionError));
    assert!(is_worth_retrying(Outcome::Status(502)));
    assert!(!is_worth_retrying(Outcome::Status(404)));
    assert!(!is_worth_retrying(Outcome::Status(200)));
}

#[test]
fn task_drain_counts_down_attempts() {
    let t = task(3);
    let t = t.drain().expect("two attempts left");
    assert_eq!(t.ttl, 2);
    let t = t.drain().expect("one attempt left");
    assert_eq!(t.ttl, 1);
    assert!(t.drain().is_none());
}

#[test]
fn task_priority_is_its_context_priority() {
    let mut t = task(1);
    assert_eq!(t.priority(), Priority::High);
    t.context = Arc::new(Context { id: "X".to_string(), priority: Priority::Low, payload: payload() });
    assert_eq!(t.priority(), Priority::Low);
}

#[test]
fn negative_cache_bans_and_lifts() {
    let mut c = NegativeCache::new();
    assert!(!c.is_banned("https://a/"));
    c.ban("https://a/");
    c.ban("https://a/");
    c.ban("https://b/");
    assert!(c.is_banned("https://a/"));
    assert!(c.is_banned("https://b/"));
    let mut l = c.list();
    l.sort();
    assert_eq!(l, vec!["https://a/".to_string(), "https://b/".to_string()]);
    c.delete("https://a/");
    assert!(!c.is_banned("https://a/"));
    assert!(c.is_banned("https://b/"));
    c.delete("https://never/");
    assert_eq!(c.list(), vec!["https://b/".to_string()]);
    c.clear();
    assert!(c.list().is_empty());
    assert!(!c.is_banned("https://b/"));
}

#[test]
fn builder_defaults_and_settings() {
    let b = Builder::new(vec![1u8, 2]);
    assert_eq!(b.limit_value(), usize::MAX);
    assert_eq!(b.client_count(), 2);
    let (e, r) = b.global_limit(MAX_PERMITS).build();
    let _ = e;
    assert_eq!(r.global_limit(), MAX_PERMITS);
    assert_eq!(r.retry_after(), Duration::from_secs(3));
    assert_eq!(MAX_PERMITS, tokio::sync::Semaphore::MAX_PERMITS);
    let (e, r) = Builder::new(vec![1u8])
        .ttl(5)
        .global_limit(10)
        .retry_after(Duration::from_millis(250))
        .build();
    assert_eq!(r.global_limit(), 10);
    assert_eq!(r.retry_after(), Duration::from_millis(250));
    let mut r = r;
    let ts = targets(1);
    r.submit(&e, payload(), Priority::Low, &ts);
    assert_eq!(r.fetch().unwrap().ttl, 5);
}

#[test]
fn enqueuer_makes_one_task_per_target() {
    let (e, mut r) = Builder::new(vec![0u8]).global_limit(4).build();
    let ts = targets(3);
    let id = r.submit(&e, payload(), Priority::Low, &ts);
    assert_eq!(id.len(), 26);
    assert!(id.chars().all(|c| c.is_ascii_digit() || (c.is_ascii_uppercase() && !"ILOU".contains(c))));
    let high = targets(1).into_iter().map(|t| t.replace("t.example", "h.example")).collect::<Vec<_>>();
    let id2 = r.submit(&e, payload(), Priority::High, &high);
    assert_ne!(id, id2);
    let first = r.fetch().unwrap();
    assert_eq!(first.target, "https://h.example/0");
    assert_eq!(first.context.id, id2);
    for (i, want) in ts.iter().enumerate() {
        let t = r.fetch().unwrap();
        assert_eq!(&t.target, want, "task {i}");
        assert_eq!(t.ttl, 3);
        assert_eq!(t.context.id, id);
        assert_eq!(t.context.priority, Priority::Low);
        assert_eq!(t.context.payload.method, "POST");
        assert_eq!(t.context.payload.body, payload().body);
    }
    assert!(r.fetch().is_none());
}

#[test]
fn enqueuer_direct_use() {
    let e = Enqueuer::new(2);
    let mut q = request_duplicator::dispatch::queue::two_level_queue();
    let ts = targets(2);
    let id = e.enqueue(&mut q, payload(), Priority::High, &ts);
    let (t, p) = q.fetch().unwrap();
    assert_eq!(p, Priority::High);
    assert_eq!(t.context.id, id);
    e.requeue(&mut q, t);
    assert_eq!(q.len(Priority::High), 2);
}

#[test]
fn runner_hands_clients_in_turn() {
    let (_, mut r) = Builder::new(vec!["c0", "c1"]).global_limit(4).build();
    let got: Vec<&str> = (0..5).map(|_| *r.next_client()).collect();
    assert_eq!(got, vec!["c0", "c1", "c0", "c1", "c0"]);
}

#[test]
fn runner_bans_on_not_found_and_skips() {
    let (_, mut r) = Builder::new(vec![0u8]).global_limit(4).build();
    let t = task(3);
    assert!(r.accepts(&t));
    assert!(r.settle(task(3), Outcome::Status(404)).is_none());
    assert!(!r.accepts(&t));
    assert_eq!(r.banned_targets(), vec!["https://t.example/1".to_string()]);
    r.unban("https://t.example/1");
    assert!(r.accepts(&t));
}

#[test]
fn runner_retries_server_errors_while_attempts_last() {
    let (_, mut r) = Builder::new(vec![0u8]).global_limit(4).build();
    let again = r.settle(task(3), Outcome::Status(503)).expect("retried");
    assert_eq!(again.ttl, 2);
    let again = r.settle(again, Outcome::ConnectionError).expect("retried");
    assert_eq!(again.ttl, 1);
    assert!(r.settle(again, Outcome::Status(500)).is_none());
    assert!(r.settle(task(3), Outcome::Status(200)).is_none());
    assert!(r.settle(task(3), Outcome::Status(400)).is_none());
    assert!(r.banned_targets().is_empty());
}

#[test]
fn runner_requeue_puts_task_back() {
    let (_, mut r) = Builder::new(vec![0u8]).global_limit(4).build();
    assert!(r.fetch().is_none());
    r.requeue(task(1));
    let t = r.fetch().unwrap();
    assert_eq!(t.target, "https://t.example/1");
    assert_eq!(t.ttl, 1);
}

#[test]
fn runner_new_is_empty() {
    let mut r = Runner::new(vec![1u8, 2, 3, 4], 8, Duration::from_secs(1));
    assert_eq!(r.global_limit(), 8);
    assert!(r.fetch().is_none());
    assert!(r.banned_targets().is_empty());
    assert_eq!(*r.next_client(), 1);
}
