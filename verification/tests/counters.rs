use request_duplicator::model::{Channels, Counter, Counters, Log, Priority};

#[test]
fn counters_start_at_zero() {
    let c = Counters::new();
    for p in [Priority::High, Priority::Low] {
        let k = c.get(p);
        assert_eq!(k.queued, 0);
        assert_eq!(k.succeed, 0);
        assert_eq!(k.failed, 0);
        assert_eq!(k.dropped, 0);
        assert!(k.is_queue_empty());
        assert_eq!(k.read_queue_count(), 0);
    }
}

#[test]
fn counter_enqueue_then_resolve_cancels() {
    let mut c = Counter::zero();
    c.enqueue();
    c.enqueue();
    assert_eq!(c.read_queue_count(), 2);
    assert!(!c.is_queue_empty());
    c.resolve();
    assert_eq!(c.read_queue_count(), 1);
    c.resolve();
    assert!(c.is_queue_empty());
}

#[test]
fn counter_resolve_below_zero_wraps() {
    let mut c = Counter::zero();
    c.resolve();
    assert_eq!(c.read_queue_count(), usize::MAX);
    c.enqueue();
    assert_eq!(c.read_queue_count(), 0);
}

#[test]
fn counter_resolve_n_subtracts() {
    let mut c = Counter::zero();
    for _ in 0..10 {
        c.enqueue();
    }
    c.resolve_n(7);
    assert_eq!(c.read_queue_count(), 3);
    c.resolve_n(5);
    assert_eq!(c.read_queue_count(), usize::MAX - 1);
}

#[test]
fn counter_outcomes_are_counted_apart() {
    let mut c = Counter::zero();
    c.succeed();
    c.succeed();
    c.failed();
    c.dropped();
    assert_eq!(c.succeed, 2);
    assert_eq!(c.failed, 1);
    assert_eq!(c.dropped, 1);
    assert_eq!(c.queued, 0);
}

#[test]
fn counter_increment_wraps_at_max() {
    let mut c = Counter { queued: usize::MAX, succeed: usize::MAX, dropped: 0, failed: 0 };
    c.enqueue();
    c.succeed();
    assert_eq!(c.queued, 0);
    assert_eq!(c.succeed, 0);
}

#[test]
fn counters_priorities_are_separate() {
    let mut c = Counters::new();
    c.get_mut(Priority::High).enqueue();
    c.get_mut(Priority::Low).failed();
    assert_eq!(c.get(Priority::High).queued, 1);
    assert_eq!(c.get(Priority::Low).queued, 0);
    assert_eq!(c.get(Priority::Low).failed, 1);
    assert_eq!(c.get(Priority::High).failed, 0);
}

#[test]
fn log_lists_targets_per_code() {
    let mut log = Log::new();
    assert!(log.read().is_empty());
    log.append(404, "https://a.example/");
    log.append(200, "https://b.example/");
    log.append(404, "https://c.example/");
    log.append(404, "https://a.example/");
    let mut entries = log.read();
    entries.sort_by_key(|e| e.0);
    assert_eq!(entries.len(), 2);
    assert_eq!(entries[0].0, 200);
    assert_eq!(entries[0].1, vec!["https://b.example/".to_string()]);
    assert_eq!(entries[1].0, 404);
    let mut t = entries[1].1.clone();
    t.sort();
    assert_eq!(t, vec!["https://a.example/".to_string(), "https://c.example/".to_string()]);
}

#[test]
fn channels_pick_by_priority() {
    let ch = Channels::new("high", "low", 7u8);
    assert_eq!(*ch.get_queue(Priority::High), "high");
    assert_eq!(*ch.get_queue(Priority::Low), "low");
    assert_eq!(ch.flush_low_priority_queue, 7);
}

#[test]
fn counter_reads_enqueues_minus_resolves() {
    let mut c = Counters::new();
    let ops = [true, true, false, true, false, true, true, false];
    for op in ops {
        if op {
            c.get_mut(Priority::Low).enqueue();
        } else {
            c.get_mut(Priority::Low).resolve();
        }
    }
    assert_eq!(c.get(Priority::Low).read_queue_count(), 5 - 3);
}
