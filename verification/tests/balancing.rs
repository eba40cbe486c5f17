use request_duplicator::dispatch::load_balancer::{is_power_of_two, LoadBalancer};
use request_duplicator::dispatch::queue::{priority_queue, queue, two_level_queue, Priorized, TwoLevelQueue};
use request_duplicator::model::Priority;

#[test]
fn power_of_two_detection() {
    assert!(!is_power_of_two(0));
    assert!(is_power_of_two(1));
    assert!(is_power_of_two(2));
    assert!(!is_power_of_two(3));
    assert!(is_power_of_two(4));
    assert!(!is_power_of_two(6));
    assert!(is_power_of_two(8));
    assert!(is_power_of_two(1 << 20));
    assert!(!is_power_of_two((1 << 20) + 1));
    assert!(is_power_of_two(1usize << (usize::BITS - 1)));
    assert!(!is_power_of_two(usize::MAX));
    for n in 0..1000usize {
        assert_eq!(is_power_of_two(n), n.count_ones() == 1, "n = {n}");
    }
}

#[test]
fn load_balancer_goes_round() {
    let mut lb = LoadBalancer::new(vec!['a', 'b', 'c', 'd']);
    let got: Vec<char> = (0..9).map(|_| *lb.fetch_next_ref()).collect();
    assert_eq!(got, vec!['a', 'b', 'c', 'd', 'a', 'b', 'c', 'd', 'a']);
}

#[test]
fn load_balancer_single_target() {
    let mut lb = LoadBalancer::new(vec![42u32]);
    for _ in 0..5 {
        assert_eq!(*lb.fetch_next_ref(), 42);
    }
}

#[derive(Debug, PartialEq)]
struct Item(u32, Priority);

impl Priorized for Item {
    fn spec_priority(&self) -> Priority {
        self.1
    }

    fn priority(&self) -> Priority {
        self.1
    }
}

#[test]
fn two_level_queue_serves_high_first_in_order() {
    let mut q: TwoLevelQueue<Item> = two_level_queue();
    q.enqueue(Item(1, Priority::Low));
    q.enqueue(Item(2, Priority::High));
    q.enqueue(Item(3, Priority::Low));
    q.enqueue(Item(4, Priority::High));
    assert!(!q.is_idle());
    assert_eq!(q.len(Priority::High), 2);
    assert_eq!(q.len(Priority::Low), 2);
    let order: Vec<u32> = std::iter::from_fn(|| q.fetch().map(|(i, _)| i.0)).collect();
    assert_eq!(order, vec![2, 4, 1, 3]);
    assert!(q.is_idle());
    assert!(q.fetch().is_none());
}

#[test]
fn two_level_queue_reports_the_level() {
    let mut q = priority_queue();
    q.enqueue_at(10u8, Priority::Low);
    assert_eq!(q.fetch(), Some((10, Priority::Low)));
    q.enqueue_at(11u8, Priority::High);
    assert_eq!(q.fetch(), Some((11, Priority::High)));
}

#[test]
fn two_level_queue_flushes_low_priority() {
    let mut q = priority_queue();
    q.enqueue_at(1u8, Priority::Low);
    q.enqueue_at(2u8, Priority::Low);
    q.enqueue_at(3u8, Priority::High);
    assert_eq!(q.flush_low_priority(), 2);
    assert_eq!(q.len(Priority::Low), 0);
    assert_eq!(q.fetch(), Some((3, Priority::High)));
    assert_eq!(q.fetch(), None);
    assert_eq!(q.flush_low_priority(), 0);
}

#[test]
fn simple_queue_counts_until_resolved() {
    let mut q = queue();
    assert!(q.is_empty());
    q.enqueue("x");
    q.enqueue("y");
    assert!(!q.is_empty());
    assert_eq!(q.dequeue(), Some("x"));
    assert!(!q.is_empty());
    q.resolve();
    assert_eq!(q.dequeue(), Some("y"));
    q.resolve();
    assert!(q.is_empty());
    assert_eq!(q.dequeue(), None);
}
