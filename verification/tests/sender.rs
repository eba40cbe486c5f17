use std::sync::Arc;

use request_duplicator::model::{
    AppState, Channels, Counters, Log, Priority, ReadonlySharedObjectsBetweenContexts, RequestContext,
};
use request_duplicator::request_processor::{
    begin_request, is_delivered, low_priority_allowed, requeue_request, settle_request, RETRY_DELAY_SECS,
};
use request_duplicator::request_sender::RequestSender;
use request_duplicator::status::Outcome;

fn ctx(target: &str, ttl: usize) -> RequestContext {
    RequestContext {
        target: target.to_string(),
        readonly_objects: Arc::new(ReadonlySharedObjectsBetweenContexts {
            headers: vec![],
            method: "GET".to_string(),
        }),
        body: vec![],
        ttl,
    }
}

fn sender(clients: Vec<&'static str>) -> RequestSender<&'static str, u8, u8> {
    let state = AppState { channels: Channels::new(1u8, 2u8, 3u8), counters: Counters::new(), log: Log::new(), retry_count: 3 };
    RequestSender::new(state, clients, 5)
}

#[test]
fn sender_picks_clients_round_robin() {
    let mut s = sender(vec!["a", "b", "c"]);
    let got: Vec<&str> = (0..7).map(|_| *s.next_client()).collect();
    assert_eq!(got, vec!["a", "b", "c", "a", "b", "c", "a"]);
    assert_eq!(s.retry_delay(), 5);
    assert_eq!(*s.queue_of(Priority::Low), 2);
}

#[test]
fn sender_skips_banned_without_counting() {
    let mut s = sender(vec!["a"]);
    s.requeued(Priority::Low);
    s.requeued(Priority::Low);
    assert!(s.take_up(&ctx("https://t/", 2), Priority::Low));
    assert!(s.settle(ctx("https://t/", 2), Priority::Low, Outcome::Status(404)).is_none());
    assert!(!s.take_up(&ctx("https://t/", 2), Priority::Low));
    assert!(s.take_up(&ctx("https://u/", 2), Priority::Low));
    assert!(s.is_high_priority_idle());
    s.requeued(Priority::High);
    assert!(!s.is_high_priority_idle());
}

#[test]
fn sender_settles_each_kind_of_outcome() {
    let mut s = sender(vec!["a"]);
    assert!(s.settle(ctx("https://ok/", 3), Priority::High, Outcome::Status(204)).is_none());
    assert!(s.settle(ctx("https://no/", 3), Priority::High, Outcome::Status(403)).is_none());
    let again = s.settle(ctx("https://err/", 2), Priority::High, Outcome::Status(500)).expect("retried");
    assert_eq!(again.ttl, 1);
    assert!(s.settle(again, Priority::High, Outcome::ConnectionError).is_none());
    let again = s.settle(ctx("https://moved/", 2), Priority::High, Outcome::Status(301)).expect("retried");
    assert_eq!(again.ttl, 1);
}

#[test]
fn request_processor_outcomes() {
    let mut c = Counters::new();
    requeue_request(&mut c, Priority::Low);
    assert!(low_priority_allowed(&c));
    requeue_request(&mut c, Priority::High);
    assert!(!low_priority_allowed(&c));
    begin_request(&mut c, Priority::High);
    assert!(low_priority_allowed(&c));
    assert!(is_delivered(Outcome::Status(200)));
    assert!(is_delivered(Outcome::Status(299)));
    assert!(!is_delivered(Outcome::Status(300)));
    assert!(!is_delivered(Outcome::ConnectionError));
    assert_eq!(RETRY_DELAY_SECS, 3);

    assert!(settle_request(&mut c, ctx("a", 2), Priority::Low, Outcome::Status(200)).is_none());
    assert_eq!(c.get(Priority::Low).succeed, 1);
    let again = settle_request(&mut c, ctx("a", 2), Priority::Low, Outcome::Status(404)).expect("retried");
    assert_eq!(again.ttl, 1);
    assert_eq!(c.get(Priority::Low).failed, 1);
    assert_eq!(c.get(Priority::Low).dropped, 0);
    assert!(settle_request(&mut c, again, Priority::Low, Outcome::ConnectionError).is_none());
    assert_eq!(c.get(Priority::Low).failed, 2);
    assert_eq!(c.get(Priority::Low).dropped, 1);
    assert_eq!(c.get(Priority::High).failed, 0);
}
