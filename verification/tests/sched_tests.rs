use elcron::date::Date;
use elcron::queue::PriceQueue;
use elcron::price::PricePoint;
use elcron::sched::{
    dispatch_decision, dispatch_step, fetch_window, refetch_due, seconds_until_next_hour,
    DispatchDecision, DispatchOutcome,
};

fn d(year: u16, month: u8, day: u8) -> Date {
    Date { year, month, day }
}

#[test]
fn test_refetch_due_on_empty_queue_or_publication_hour() {
    assert!(refetch_due(true, 3, 15));
    assert!(refetch_due(false, 15, 15));
    assert!(!refetch_due(false, 14, 15));
}

#[test]
fn test_dispatch_decision_in_sync() {
    let p = PricePoint { date: d(2024, 1, 1), hour: 9, price: 1 };
    assert_eq!(dispatch_decision(&p, &d(2024, 1, 1), 9), DispatchDecision::InSync);
}

#[test]
fn test_dispatch_decision_ahead_and_behind() {
    let p = PricePoint { date: d(2024, 1, 1), hour: 9, price: 1 };
    assert_eq!(dispatch_decision(&p, &d(2024, 1, 1), 8), DispatchDecision::Ahead);
    assert_eq!(dispatch_decision(&p, &d(2024, 1, 1), 10), DispatchDecision::Behind);
    assert_eq!(dispatch_decision(&p, &d(2023, 12, 31), 23), DispatchDecision::Ahead);
    assert_eq!(dispatch_decision(&p, &d(2024, 1, 2), 0), DispatchDecision::Behind);
}

#[test]
fn test_fetch_window_is_today_through_tomorrow() {
    assert_eq!(fetch_window(d(2024, 1, 31)), (d(2024, 1, 31), d(2024, 2, 1)));
    assert_eq!(fetch_window(d(2024, 12, 31)), (d(2024, 12, 31), d(2025, 1, 1)));
}

#[test]
fn test_seconds_until_next_hour() {
    assert_eq!(seconds_until_next_hour(0, 0), 3600);
    assert_eq!(seconds_until_next_hour(59, 59), 1);
    assert_eq!(seconds_until_next_hour(30, 0), 1800);
}

#[test]
fn test_date_successor_handles_months_and_leap_years() {
    assert_eq!(d(2024, 1, 1).succ(), d(2024, 1, 2));
    assert_eq!(d(2024, 1, 31).succ(), d(2024, 2, 1));
    assert_eq!(d(2024, 2, 28).succ(), d(2024, 2, 29));
    assert_eq!(d(2024, 2, 29).succ(), d(2024, 3, 1));
    assert_eq!(d(2023, 2, 28).succ(), d(2023, 3, 1));
    assert_eq!(d(1900, 2, 28).succ(), d(1900, 3, 1));
    assert_eq!(d(2000, 2, 28).succ(), d(2000, 2, 29));
    assert_eq!(d(2024, 12, 31).succ(), d(2025, 1, 1));
}

#[test]
fn test_date_new_validates() {
    assert_eq!(Date::new(2024, 2, 29), Some(d(2024, 2, 29)));
    assert_eq!(Date::new(2023, 2, 29), None);
    assert_eq!(Date::new(2024, 13, 1), None);
    assert_eq!(Date::new(2024, 0, 1), None);
    assert_eq!(Date::new(2024, 4, 31), None);
    assert_eq!(Date::new(10000, 1, 1), None);
}

#[test]
fn test_date_order() {
    assert!(d(2024, 1, 31).lt(&d(2024, 2, 1)));
    assert!(d(2023, 12, 31).lt(&d(2024, 1, 1)));
    assert!(!d(2024, 2, 1).lt(&d(2024, 1, 31)));
    assert!(d(2024, 1, 1).le(&d(2024, 1, 1)));
    assert!(!d(2024, 1, 2).le(&d(2024, 1, 1)));
}

#[test]
fn test_dispatch_step_pops_the_due_point() {
    let mut q = PriceQueue::new();
    let points = vec![
        PricePoint { date: d(2024, 1, 1), hour: 9, price: 1 },
        PricePoint { date: d(2024, 1, 1), hour: 10, price: 2 },
    ];
    q.merge(&points, d(2024, 1, 1), 9);
    match dispatch_step(&mut q, &d(2024, 1, 1), 9) {
        DispatchOutcome::Dispatch(p) => assert_eq!(p, points[0]),
        _ => panic!("expected a dispatch"),
    }
    assert_eq!(q.len(), 1);
}

#[test]
fn test_dispatch_step_leaves_an_early_point_queued() {
    let mut q = PriceQueue::new();
    let points = vec![PricePoint { date: d(2024, 1, 1), hour: 10, price: 2 }];
    q.merge(&points, d(2024, 1, 1), 9);
    assert!(matches!(dispatch_step(&mut q, &d(2024, 1, 1), 9), DispatchOutcome::Ahead));
    assert_eq!(q.len(), 1);
    assert_eq!(q.get(0), points[0]);
}

#[test]
fn test_dispatch_step_reports_a_lagging_feed_and_an_empty_queue() {
    let mut q = PriceQueue::new();
    let points = vec![PricePoint { date: d(2024, 1, 1), hour: 9, price: 2 }];
    q.merge(&points, d(2024, 1, 1), 9);
    match dispatch_step(&mut q, &d(2024, 1, 1), 11) {
        DispatchOutcome::DispatchStale(p) => assert_eq!(p, points[0]),
        _ => panic!("expected a stale dispatch"),
    }
    assert!(matches!(dispatch_step(&mut q, &d(2024, 1, 1), 11), DispatchOutcome::Empty));
}
