use elcron::date::Date;
use elcron::price::{is_time_ascending, sort_prices, PricePoint};
use elcron::queue::PriceQueue;

fn d(year: u16, month: u8, day: u8) -> Date {
    Date { year, month, day }
}

fn pp(year: u16, month: u8, day: u8, hour: u8, price: i64) -> PricePoint {
    PricePoint { date: d(year, month, day), hour, price }
}

fn queue_contents(q: &PriceQueue) -> Vec<PricePoint> {
    let mut v = Vec::new();
    let mut i = 0;
    while i < q.len() {
        v.push(q.get(i));
        i += 1;
    }
    v
}

#[test]
fn test_merge_into_empty_starts_at_now() {
    let mut q = PriceQueue::new();
    let new = vec![
        pp(2024, 1, 5, 8, 10000),
        pp(2024, 1, 5, 9, 20000),
        pp(2024, 1, 5, 10, 30000),
        pp(2024, 1, 5, 11, 40000),
        pp(2024, 1, 6, 0, 50000),
    ];
    q.merge(&new, d(2024, 1, 5), 10);
    assert_eq!(
        queue_contents(&q),
        vec![pp(2024, 1, 5, 10, 30000), pp(2024, 1, 5, 11, 40000), pp(2024, 1, 6, 0, 50000)]
    );
}

#[test]
fn test_merge_into_empty_drops_earlier_days() {
    let mut q = PriceQueue::new();
    let new = vec![pp(2024, 1, 4, 23, 1), pp(2024, 1, 5, 10, 2), pp(2024, 1, 6, 2, 3)];
    q.merge(&new, d(2024, 1, 5), 10);
    assert_eq!(queue_contents(&q), vec![pp(2024, 1, 5, 10, 2), pp(2024, 1, 6, 2, 3)]);
}

#[test]
fn test_merge_overlapping_next_day_keeps_midnight() {
    // A queue ending at the late evening hour, merged with data that repeats
    // that hour and adds the following midnight: the duplicate is dropped,
    // the midnight hour of the later date is kept.
    let mut q = PriceQueue::new();
    q.merge(&vec![pp(2024, 1, 1, 23, 50000)], d(2024, 1, 1), 23);
    assert_eq!(queue_contents(&q), vec![pp(2024, 1, 1, 23, 50000)]);

    let new = vec![pp(2024, 1, 1, 23, 50000), pp(2024, 1, 2, 0, 30000)];
    q.merge(&new, d(2024, 1, 1), 23);
    assert_eq!(
        queue_contents(&q),
        vec![pp(2024, 1, 1, 23, 50000), pp(2024, 1, 2, 0, 30000)]
    );
}

#[test]
fn test_merge_nonempty_never_adds_at_or_before_last() {
    let mut q = PriceQueue::new();
    q.merge(&vec![pp(2024, 1, 1, 23, 1)], d(2024, 1, 1), 23);
    let new = vec![pp(2024, 1, 1, 22, 2), pp(2024, 1, 1, 23, 3), pp(2024, 1, 2, 0, 4)];
    q.merge(&new, d(2024, 1, 1), 23);
    assert_eq!(queue_contents(&q), vec![pp(2024, 1, 1, 23, 1), pp(2024, 1, 2, 0, 4)]);
}

#[test]
fn test_pop_then_merge_does_not_reintroduce() {
    let mut q = PriceQueue::new();
    let day = vec![pp(2024, 1, 1, 10, 1), pp(2024, 1, 1, 11, 2)];
    q.merge(&day, d(2024, 1, 1), 10);
    let popped = q.pop_front().unwrap();
    assert_eq!(popped, pp(2024, 1, 1, 10, 1));
    let overlap = vec![pp(2024, 1, 1, 10, 1), pp(2024, 1, 1, 11, 2), pp(2024, 1, 1, 12, 3)];
    q.merge(&overlap, d(2024, 1, 1), 10);
    assert_eq!(queue_contents(&q), vec![pp(2024, 1, 1, 11, 2), pp(2024, 1, 1, 12, 3)]);
}

#[test]
fn test_pop_front_order_and_empty() {
    let mut q = PriceQueue::new();
    assert_eq!(q.pop_front(), None);
    q.merge(&vec![pp(2024, 3, 1, 0, 7), pp(2024, 3, 1, 1, 8)], d(2024, 3, 1), 0);
    assert_eq!(q.pop_front(), Some(pp(2024, 3, 1, 0, 7)));
    assert_eq!(q.pop_front(), Some(pp(2024, 3, 1, 1, 8)));
    assert_eq!(q.pop_front(), None);
    assert!(q.is_empty());
}

#[test]
fn test_push_front_restores_popped_point() {
    let mut q = PriceQueue::new();
    q.merge(&vec![pp(2024, 3, 1, 5, 7), pp(2024, 3, 1, 6, 8)], d(2024, 3, 1), 5);
    let p = q.pop_front().unwrap();
    q.push_front(p);
    assert_eq!(queue_contents(&q), vec![pp(2024, 3, 1, 5, 7), pp(2024, 3, 1, 6, 8)]);
}

#[test]
fn test_sort_prices_orders_by_date_then_hour() {
    let v = vec![
        pp(2024, 1, 2, 0, 4),
        pp(2024, 1, 1, 5, 1),
        pp(2024, 1, 1, 23, 3),
        pp(2024, 1, 1, 7, 2),
    ];
    let sorted = sort_prices(v);
    assert_eq!(
        sorted,
        vec![pp(2024, 1, 1, 5, 1), pp(2024, 1, 1, 7, 2), pp(2024, 1, 1, 23, 3), pp(2024, 1, 2, 0, 4)]
    );
}

#[test]
fn test_is_time_ascending() {
    assert!(is_time_ascending(&vec![]));
    assert!(is_time_ascending(&vec![pp(2024, 1, 1, 0, 1)]));
    assert!(is_time_ascending(&vec![pp(2024, 1, 1, 23, 1), pp(2024, 1, 2, 0, 1)]));
    assert!(!is_time_ascending(&vec![pp(2024, 1, 1, 5, 1), pp(2024, 1, 1, 5, 2)]));
    assert!(!is_time_ascending(&vec![pp(2024, 1, 2, 0, 1), pp(2024, 1, 1, 23, 1)]));
}
