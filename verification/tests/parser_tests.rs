use elcron::date::Date;
use elcron::parser::{parse_price_xml, ParseError};
use elcron::price::PricePoint;

fn d(year: u16, month: u8, day: u8) -> Date {
    Date { year, month, day }
}

#[test]
fn xml_parser_test_xml_parsing() {
    let xml = r#"
            <root>
                <end>2021-01-01T00:00:00Z</end>
                <Point>
                    <position>1</position>
                    <price.amount>10.0</price.amount>
                </Point>
                <Point>
                    <position>2</position>
                    <price.amount>20.0</price.amount>
                </Point>
                <Point>
                    <position>3</position>
                    <price.amount>30.0</price.amount>
                </Point>
                <end>2021-01-02T00:00:00Z</end>
                <Point>
                    <position>4</position>
                    <price.amount>40.0</price.amount>
                </Point>
                <Point>
                    <position>5</position>
                    <price.amount>50.0</price.amount>
                </Point>
                <DoNotInclude>
                    <position>6</position>
                    <price.amount>60.0</price.amount>
                </DoNotInclude>
            </root>
        "#;
    let prices = parse_price_xml(xml).unwrap();
    assert_eq!(prices.len(), 5);
    assert_eq!(prices[0].date, d(2021, 1, 1));
    assert_eq!(prices[0].hour, 1);
    assert_eq!(prices[0].price, 10000);
    assert_eq!(prices[4].date, d(2021, 1, 2));
    assert_eq!(prices[4].hour, 5);
    assert_eq!(prices[4].price, 50000);
}

#[test]
fn test_full_day_with_rollover() {
    let mut xml = String::from("<root><end>2024-01-01T00:00Z</end>");
    for pos in 1..=23 {
        xml.push_str(&format!(
            "<Point><position>{}</position><price.amount>100</price.amount></Point>",
            pos
        ));
    }
    xml.push_str("<Point><position>24</position><price.amount>24.0</price.amount></Point>");
    xml.push_str("</root>");
    let prices = parse_price_xml(&xml).unwrap();
    assert_eq!(prices.len(), 24);
    assert_eq!(prices[0].date, d(2024, 1, 1));
    assert_eq!(prices[0].hour, 1);
    assert_eq!(prices[0].price, 100000);
    let last = &prices[23];
    assert_eq!(last.date, d(2024, 1, 2));
    assert_eq!(last.hour, 0);
    assert_eq!(last.price, 24000);
}

#[test]
fn test_parse_twice_gives_identical_sequences() {
    let xml = "<root><end>2021-06-01T00:00Z</end>\
               <Point><position>7</position><price.amount>12.3</price.amount></Point>\
               <Point><position>8</position><price.amount>-4.56</price.amount></Point></root>";
    let first = parse_price_xml(xml);
    let second = parse_price_xml(xml);
    assert_eq!(first, second);
    let prices = first.unwrap();
    assert_eq!(prices.len(), 2);
    assert_eq!(prices[0].price, 12300);
    assert_eq!(prices[1].price, -4560);
}

#[test]
fn test_malformed_markup_is_syntax_error() {
    assert_eq!(parse_price_xml("<a><b></a>"), Err(ParseError::Syntax));
    assert_eq!(parse_price_xml(""), Err(ParseError::Syntax));
}

#[test]
fn test_point_before_any_day_is_error() {
    let xml = "<root><Point><position>1</position></Point></root>";
    assert_eq!(parse_price_xml(xml), Err(ParseError::MissingDate));
}

#[test]
fn test_bad_day_text_is_error() {
    let xml = "<root><end>first of June</end></root>";
    assert_eq!(parse_price_xml(xml), Err(ParseError::BadDate));
    let xml2 = "<root><end>2021-02-30T00:00Z</end></root>";
    assert_eq!(parse_price_xml(xml2), Err(ParseError::BadDate));
}

#[test]
fn test_bad_position_is_error() {
    for bad in ["abc", "0", "25", "1.5", "-3"] {
        let xml = format!(
            "<root><end>2021-01-01T00:00Z</end><Point><position>{}</position></Point></root>",
            bad
        );
        assert_eq!(parse_price_xml(&xml), Err(ParseError::BadPosition), "{}", bad);
    }
}

#[test]
fn test_bad_amount_is_error() {
    for bad in ["1e5", "ten", "3.1415", "5."] {
        let xml = format!(
            "<root><end>2021-01-01T00:00Z</end>\
             <Point><position>1</position><price.amount>{}</price.amount></Point></root>",
            bad
        );
        assert_eq!(parse_price_xml(&xml), Err(ParseError::BadAmount), "{}", bad);
    }
}

#[test]
fn test_point_without_fields_keeps_zeroes() {
    let xml = "<root><end>2021-01-01</end><Point></Point></root>";
    let prices = parse_price_xml(xml).unwrap();
    assert_eq!(prices.len(), 1);
    assert_eq!(prices[0], PricePoint { date: d(2021, 1, 1), hour: 0, price: 0 });
}

#[test]
fn test_unterminated_point_is_dropped() {
    let xml = "<root><end>2021-01-01</end><Point><position>3</position></root>";
    // The reader rejects the unbalanced markup outright.
    assert_eq!(parse_price_xml(xml), Err(ParseError::Syntax));
}

#[test]
fn test_rollover_past_last_year_is_error() {
    let xml = "<root><end>9999-12-31T00:00Z</end>\
               <Point><position>24</position><price.amount>1</price.amount></Point></root>";
    assert_eq!(parse_price_xml(xml), Err(ParseError::BadDate));
}
