use request_duplicator::webhook::{
    chunk_targets, collect_targets, div_ceil, ipv4_only, is_h2, plan_jobs, target_lines, worker_plan, IpAddress,
    HTTP2_SETTINGS_MAX_CONCURRENT_STREAMS, SCALER, WORKER_COUNT_PER_IPS,
};

#[test]
fn div_ceil_rounds_up() {
    assert_eq!(div_ceil(0, 3), 0);
    assert_eq!(div_ceil(1, 3), 1);
    assert_eq!(div_ceil(3, 3), 1);
    assert_eq!(div_ceil(4, 3), 2);
    assert_eq!(div_ceil(usize::MAX, 1), usize::MAX);
    assert_eq!(div_ceil(usize::MAX, 2), usize::MAX / 2 + 1);
    for a in 0..50usize {
        for b in 1..10usize {
            assert_eq!(div_ceil(a, b), a.div_ceil(b));
        }
    }
}

#[test]
fn job_plan_values() {
    let p = plan_jobs(1000, 4);
    assert_eq!((p.chunk_size, p.chunk_count, p.depth), (250, 4, 3));
    let p = plan_jobs(50, 4);
    assert_eq!((p.chunk_size, p.chunk_count, p.depth), (100, 1, 1));
    let p = plan_jobs(0, 8);
    assert_eq!((p.chunk_size, p.chunk_count, p.depth), (100, 0, 0));
    let p = plan_jobs(801, 8);
    assert_eq!((p.chunk_size, p.chunk_count, p.depth), (101, 8, 2));
    assert_eq!(HTTP2_SETTINGS_MAX_CONCURRENT_STREAMS, 100);
}

#[test]
fn lines_that_parse_as_uris_are_kept() {
    let text = "https://discord.com/api/webhooks/1/a\nnot a uri\n\nhttps://discord.com/api/webhooks/2/b";
    assert_eq!(
        target_lines(text),
        vec!["https://discord.com/api/webhooks/1/a".to_string(), "https://discord.com/api/webhooks/2/b".to_string()]
    );
    assert_eq!(target_lines(""), Vec::<String>::new());
    assert_eq!(target_lines("/relative\n"), vec!["/relative".to_string()]);
}

#[test]
fn targets_are_scaled_four_times() {
    let t = collect_targets("https://a.example/x\nhttps://b.example/y\n");
    assert_eq!(SCALER, 4);
    assert_eq!(t.len(), 8);
    assert_eq!(t[0], "https://a.example/x");
    assert_eq!(t[1], "https://b.example/y");
    assert_eq!(t[2], "https://a.example/x");
    assert_eq!(t[7], "https://b.example/y");
}

#[test]
fn chunks_cover_the_targets() {
    let t: Vec<String> = (0..7).map(|i| i.to_string()).collect();
    let c = chunk_targets(&t, 3);
    assert_eq!(c.len(), 3);
    assert_eq!(c[0], vec!["0", "1", "2"]);
    assert_eq!(c[1], vec!["3", "4", "5"]);
    assert_eq!(c[2], vec!["6"]);
    let c = chunk_targets(&t, 7);
    assert_eq!(c, vec![t.clone()]);
    let c = chunk_targets(&t, 100);
    assert_eq!(c, vec![t.clone()]);
    assert!(chunk_targets(&vec![], 5).is_empty());
    let flat: Vec<String> = chunk_targets(&t, 2).concat();
    assert_eq!(flat, t);
}

#[test]
fn workers_per_address_in_rounds() {
    let p = worker_plan(2);
    assert_eq!(p.len(), 2 * WORKER_COUNT_PER_IPS);
    assert_eq!(&p[..4], &[(1, 0), (1, 1), (2, 0), (2, 1)]);
    assert_eq!(p[15], (8, 1));
    assert!(worker_plan(0).is_empty());
}

#[test]
fn only_ipv4_addresses_are_accepted() {
    let v4 = vec![IpAddress::V4(162, 159, 128, 233), IpAddress::V4(1, 2, 3, 4)];
    assert_eq!(ipv4_only(&v4), Some(vec![(162, 159, 128, 233), (1, 2, 3, 4)]));
    let mixed = vec![IpAddress::V4(1, 2, 3, 4), IpAddress::V6(0, 0, 0, 0, 0, 0, 0, 1)];
    assert_eq!(ipv4_only(&mixed), None);
    assert_eq!(ipv4_only(&vec![]), Some(vec![]));
}

#[test]
fn alpn_must_be_h2() {
    assert!(is_h2(Some(b"h2")));
    assert!(!is_h2(Some(b"http/1.1")));
    assert!(!is_h2(Some(b"h")));
    assert!(!is_h2(None));
}
