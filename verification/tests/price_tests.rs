use elcron::date::Date;
use elcron::price::{parse_amount, PricePoint, PRICE_UNIT};

fn pp(hour: u8, price: i64) -> PricePoint {
    PricePoint { date: Date { year: 2024, month: 1, day: 1 }, hour, price }
}

#[test]
fn test_parse_amount_converts_feed_unit_to_display_scale() {
    // One tenth of the feed unit, held in ten-thousandths of the display unit.
    assert_eq!(parse_amount("24.0"), Some(24000));
    assert_eq!(parse_amount("100"), Some(10 * PRICE_UNIT));
    assert_eq!(parse_amount("0"), Some(0));
    assert_eq!(parse_amount("65.43"), Some(65430));
    assert_eq!(parse_amount("0.001"), Some(1));
    assert_eq!(parse_amount("-1.5"), Some(-1500));
    assert_eq!(parse_amount("+2.25"), Some(2250));
    assert_eq!(parse_amount("007"), Some(7000));
}

#[test]
fn test_parse_amount_rejects_what_the_scale_cannot_hold() {
    assert_eq!(parse_amount(""), None);
    assert_eq!(parse_amount("."), None);
    assert_eq!(parse_amount("5."), None);
    assert_eq!(parse_amount(".5"), None);
    assert_eq!(parse_amount("1e3"), None);
    assert_eq!(parse_amount("1.2345"), None);
    assert_eq!(parse_amount("1234567890123456"), None);
    assert_eq!(parse_amount("12 3"), None);
}

#[test]
fn test_point_time_order() {
    let a = pp(5, 0);
    let b = pp(6, 0);
    assert!(a.before(&b));
    assert!(!b.before(&a));
    assert!(!a.before(&a));
    assert!(a.same_slot(&pp(5, 99)));
    assert!(!a.same_slot(&b));
    let next_day = PricePoint { date: Date { year: 2024, month: 1, day: 2 }, hour: 0, price: 0 };
    assert!(b.before(&next_day));
}
