//! The streaming document parser.
//!
//! A day-ahead market document is a stream of markup events: `end` elements
//! naming the calendar day a price series belongs to, and `Point` elements
//! holding a 1-based `position` hour index and a `price.amount` value.  The
//! parser walks the token stream once, in two states — seeking, or inside a
//! `Point` block — and builds one price point per completed block.  A
//! `position` of 24 is the schema's day-rollover marker: the point moves to
//! hour zero of the following calendar day.  Malformed dates, positions or
//! amounts fail the whole parse; unknown elements are skipped; input that
//! simply ends is a normal end of the sequence.

use vstd::prelude::*;

use crate::date::Date;
use crate::price::{amount_e4, parse_amount, PricePoint};
use crate::text::{all_digits, digits_val, find_from, parse_uint, spec_find, str_eq, uint_str_val};
use crate::tokens::{tokenize, toks_view, xml_tokens, Tok, XmlTok};

verus! {

/// Why a document was rejected.
#[derive(Clone, Copy, Debug, PartialEq, Eq, Structural)]
pub enum ParseError {
    /// The text is not well-formed markup.
    Syntax,
    /// A `Point` block appeared before any `end` marker named a day.
    MissingDate,
    /// An `end` marker's text does not name a real `YYYY-MM-DD` day, or a
    /// rollover would leave the representable years.
    BadDate,
    /// A `position` field is not a number from 1 to 24.
    BadPosition,
    /// A `price.amount` field is not a plain decimal the fixed-point price
    /// scale can hold.
    BadAmount,
}

/// The day named by a `YYYY-MM-DD` text: four, two and two digits, naming a
/// real calendar day.
pub open spec fn spec_date(d: Seq<char>) -> Option<Date> {
    if d.len() == 10 && all_digits(d.subrange(0, 4)) && d[4] == '-' && all_digits(
        d.subrange(5, 7),
    ) && d[7] == '-' && all_digits(d.subrange(8, 10)) {
        let date = Date {
            year: digits_val(d.subrange(0, 4)) as u16,
            month: digits_val(d.subrange(5, 7)) as u8,
            day: digits_val(d.subrange(8, 10)) as u8,
        };
        if date.valid() {
            Some(date)
        } else {
            None
        }
    } else {
        None
    }
}

/// The day named by an `end` marker's text: only the part before the first
/// `T` counts, the time of day and zone are discarded.
pub open spec fn spec_end_date(t: Seq<char>) -> Option<Date> {
    spec_date(t.subrange(0, spec_find(t, 'T', 0)))
}

/// The hour index written by a `position` field: an unsigned decimal from 1
/// to 24.
pub open spec fn spec_position(t: Seq<char>) -> Option<int> {
    match uint_str_val(t) {
        Some(v) => if 1 <= v <= 24 {
            Some(v)
        } else {
            None
        },
        None => None,
    }
}

/// The last representable day: a rollover past it fails the parse.
pub open spec fn last_day() -> Date {
    Date { year: 9999, month: 12, day: 31 }
}

/// The parser seeking the next `end` or `Point` element, having read up to
/// token `i`, with `date` the day last named and `acc` the points built.
///
/// An `end` element consumes the following token; when that token is text it
/// must name a day.  A `Point` element needs a day to have been named and
/// opens a block.  Everything else is skipped.
pub open spec fn spec_seek(
    toks: Seq<Tok>,
    i: int,
    date: Option<Date>,
    acc: Seq<PricePoint>,
) -> Result<Seq<PricePoint>, ParseError>
    decreases toks.len() - i, 1int,
{
    if i < 0 || i >= toks.len() {
        Ok(acc)
    } else {
        match toks[i] {
            Tok::Start(name) => {
                if name == "end"@ {
                    if i + 1 >= toks.len() {
                        Ok(acc)
                    } else {
                        match toks[i + 1] {
                            Tok::Text(t) => match spec_end_date(t) {
                                Some(d) => spec_seek(toks, i + 2, Some(d), acc),
                                None => Err(ParseError::BadDate),
                            },
                            _ => spec_seek(toks, i + 2, date, acc),
                        }
                    }
                } else if name == "Point"@ {
                    match date {
                        Some(d) => spec_point(
                            toks,
                            i + 1,
                            d,
                            PricePoint { date: d, hour: 0, price: 0 },
                            acc,
                        ),
                        None => Err(ParseError::MissingDate),
                    }
                } else {
                    spec_seek(toks, i + 1, date, acc)
                }
            },
            _ => spec_seek(toks, i + 1, date, acc),
        }
    }
}

/// The parser inside a `Point` block: `day` is the ambient day, `pt` the
/// point built so far.  A `position` or `price.amount` element consumes the
/// following token; the block's end appends the point; input that ends
/// mid-block drops the unfinished point.
pub open spec fn spec_point(
    toks: Seq<Tok>,
    i: int,
    day: Date,
    pt: PricePoint,
    acc: Seq<PricePoint>,
) -> Result<Seq<PricePoint>, ParseError>
    decreases toks.len() - i, 0int,
{
    if i < 0 || i >= toks.len() {
        Ok(acc)
    } else {
        match toks[i] {
            Tok::Start(name) => {
                if name == "position"@ {
                    if i + 1 >= toks.len() {
                        Ok(acc)
                    } else {
                        match toks[i + 1] {
                            Tok::Text(t) => match spec_position(t) {
                                Some(pos) => if pos == 24 {
                                    if pt.date == last_day() {
                                        Err(ParseError::BadDate)
                                    } else {
                                        spec_point(
                                            toks,
                                            i + 2,
                                            day,
                                            PricePoint {
                                                date: pt.date.spec_succ(),
                                                hour: 0,
                                                price: pt.price,
                                            },
                                            acc,
                                        )
                                    }
                                } else {
                                    spec_point(
                                        toks,
                                        i + 2,
                                        day,
                                        PricePoint { date: pt.date, hour: pos as u8, price: pt.price },
                                        acc,
                                    )
                                },
                                None => Err(ParseError::BadPosition),
                            },
                            _ => spec_point(toks, i + 2, day, pt, acc),
                        }
                    }
                } else if name == "price.amount"@ {
                    if i + 1 >= toks.len() {
                        Ok(acc)
                    } else {
                        match toks[i + 1] {
                            Tok::Text(t) => match amount_e4(t) {
                                Some(v) => spec_point(
                                    toks,
                                    i + 2,
                                    day,
                                    PricePoint { date: pt.date, hour: pt.hour, price: v as i64 },
                                    acc,
                                ),
                                None => Err(ParseError::BadAmount),
                            },
                            _ => spec_point(toks, i + 2, day, pt, acc),
                        }
                    }
                } else {
                    spec_point(toks, i + 1, day, pt, acc)
                }
            },
            Tok::End(name) => {
                if name == "Point"@ {
                    spec_seek(toks, i + 1, Some(day), acc.push(pt))
                } else {
                    spec_point(toks, i + 1, day, pt, acc)
                }
            },
            _ => spec_point(toks, i + 1, day, pt, acc),
        }
    }
}

/// What parsing a token stream yields.
pub open spec fn spec_parse_tokens(toks: Seq<Tok>) -> Result<Seq<PricePoint>, ParseError> {
    spec_seek(toks, 0, None, Seq::empty())
}

/// What parsing a document text yields: the parse of its token stream, or a
/// syntax error where the text is not well-formed markup.
pub open spec fn spec_parse(s: Seq<char>) -> Result<Seq<PricePoint>, ParseError> {
    match xml_tokens(s) {
        Some(toks) => spec_parse_tokens(toks),
        None => Err(ParseError::Syntax),
    }
}

/// The exec outcome `r` is the spec outcome `s`: same error, or the same
/// points.
pub open spec fn parse_result_matches(
    r: Result<Vec<PricePoint>, ParseError>,
    s: Result<Seq<PricePoint>, ParseError>,
) -> bool {
    match r {
        Ok(v) => s == Ok::<Seq<PricePoint>, ParseError>(v@),
        Err(e) => s == Err::<Seq<PricePoint>, ParseError>(e),
    }
}

/// Reads a `YYYY-MM-DD` day.
fn parse_date(d: &str) -> (r: Option<Date>)
    ensures
        r == spec_date(d@),
{
    let n = d.unicode_len();
    if n != 10 {
        return None;
    }
    if d.get_char(4) != '-' || d.get_char(7) != '-' {
        return None;
    }
    let y = match crate::price::parse_digits_range(d, 0, 4) {
        Some(v) => v,
        None => {
            return None;
        },
    };
    let m = match crate::price::parse_digits_range(d, 5, 7) {
        Some(v) => v,
        None => {
            return None;
        },
    };
    let dd = match crate::price::parse_digits_range(d, 8, 10) {
        Some(v) => v,
        None => {
            return None;
        },
    };
    proof {
        crate::price::lemma_digits_val_upper(d@.subrange(0, 4));
        crate::price::lemma_digits_val_upper(d@.subrange(5, 7));
        crate::price::lemma_digits_val_upper(d@.subrange(8, 10));
    }
    Date::new(y as u16, m as u8, dd as u8)
}

/// Reads an `end` marker's text: the day before the first `T`.
fn parse_end_date(t: &str) -> (r: Option<Date>)
    ensures
        r == spec_end_date(t@),
{
    let cut = find_from(t, 'T', 0);
    parse_date(t.substring_char(0, cut))
}

/// Reads a `position` field: a number from 1 to 24.
fn parse_position(t: &str) -> (r: Option<u8>)
    ensures
        match r {
            Some(v) => spec_position(t@) == Some(v as int),
            None => spec_position(t@) is None,
        },
{
    match parse_uint(t, 24) {
        Some(v) => if v >= 1 {
            Some(v as u8)
        } else {
            None
        },
        None => None,
    }
}

/// Parses a token stream into its price points: exactly the outcome of
/// [`spec_parse_tokens`] on the tokens' text.
pub fn parse_tokens(toks: &Vec<XmlTok>) -> (r: Result<Vec<PricePoint>, ParseError>)
    ensures
        parse_result_matches(r, spec_parse_tokens(toks_view(toks@))),
        r matches Ok(v) ==> forall|k: int| 0 <= k < v@.len() ==> (#[trigger] v@[k]).wf(),
{
    let ghost big_t = toks_view(toks@);
    let n = toks.len();
    let mut i: usize = 0;
    let mut date: Option<Date> = None;
    let mut cur: Option<PricePoint> = None;
    let mut out: Vec<PricePoint> = Vec::new();
    proof {
        assert(big_t.len() == n);
    }
    while i < n
        invariant
            big_t == toks_view(toks@),
            big_t.len() == n == toks@.len(),
            0 <= i <= n,
            match date {
                Some(d) => d.valid(),
                None => true,
            },
            match cur {
                Some(pt) => date is Some && pt.date.valid() && pt.hour < 24,
                None => true,
            },
            forall|k: int| 0 <= k < out@.len() ==> (#[trigger] out@[k]).wf(),
            spec_parse_tokens(big_t) == (match cur {
                Some(pt) => spec_point(big_t, i as int, date->Some_0, pt, out@),
                None => spec_seek(big_t, i as int, date, out@),
            }),
        decreases n - i,
    {
        proof {
            assert(big_t[i as int] == toks@[i as int]@);
        }
        match cur {
            None => {
                match &toks[i] {
                    XmlTok::Start(name) => {
                        if str_eq(name.as_str(), "end") {
                            if i + 1 >= n {
                                i = n;
                            } else {
                                proof {
                                    assert(big_t[(i + 1) as int] == toks@[(i + 1) as int]@);
                                }
                                match &toks[i + 1] {
                                    XmlTok::Text(t) => {
                                        match parse_end_date(t.as_str()) {
                                            Some(d) => {
                                                date = Some(d);
                                                i = i + 2;
                                            },
                                            None => {
                                                return Err(ParseError::BadDate);
                                            },
                                        }
                                    },
                                    _ => {
                                        i = i + 2;
                                    },
                                }
                            }
                        } else if str_eq(name.as_str(), "Point") {
                            match date {
                                Some(d) => {
                                    cur = Some(PricePoint { date: d, hour: 0, price: 0 });
                                    i = i + 1;
                                },
                                None => {
                                    return Err(ParseError::MissingDate);
                                },
                            }
                        } else {
                            i = i + 1;
                        }
                    },
                    _ => {
                        i = i + 1;
                    },
                }
            },
            Some(pt) => {
                match &toks[i] {
                    XmlTok::Start(name) => {
                        if str_eq(name.as_str(), "position") {
                            if i + 1 >= n {
                                i = n;
                            } else {
                                proof {
                                    assert(big_t[(i + 1) as int] == toks@[(i + 1) as int]@);
                                }
                                match &toks[i + 1] {
                                    XmlTok::Text(t) => {
                                        match parse_position(t.as_str()) {
                                            Some(pos) => {
                                                if pos == 24 {
                                                    if pt.date.year == 9999 && pt.date.month == 12
                                                        && pt.date.day == 31 {
                                                        return Err(ParseError::BadDate);
                                                    }
                                                    cur = Some(
                                                        PricePoint {
                                                            date: pt.date.succ(),
                                                            hour: 0,
                                                            price: pt.price,
                                                        },
                                                    );
                                                } else {
                                                    cur = Some(
                                                        PricePoint {
                                                            date: pt.date,
                                                            hour: pos,
                                                            price: pt.price,
                                                        },
                                                    );
                                                }
                                                i = i + 2;
                                            },
                                            None => {
                                                return Err(ParseError::BadPosition);
                                            },
                                        }
                                    },
                                    _ => {
                                        i = i + 2;
                                    },
                                }
                            }
                        } else if str_eq(name.as_str(), "price.amount") {
                            if i + 1 >= n {
                                i = n;
                            } else {
                                proof {
                                    assert(big_t[(i + 1) as int] == toks@[(i + 1) as int]@);
                                }
                                match &toks[i + 1] {
                                    XmlTok::Text(t) => {
                                        match parse_amount(t.as_str()) {
                                            Some(v) => {
                                                cur = Some(
                                                    PricePoint {
                                                        date: pt.date,
                                                        hour: pt.hour,
                                                        price: v,
                                                    },
                                                );
                                                i = i + 2;
                                            },
                                            None => {
                                                return Err(ParseError::BadAmount);
                                            },
                                        }
                                    },
                                    _ => {
                                        i = i + 2;
                                    },
                                }
                            }
                        } else {
                            i = i + 1;
                        }
                    },
                    XmlTok::End(name) => {
                        if str_eq(name.as_str(), "Point") {
                            out.push(pt);
                            cur = None;
                            i = i + 1;
                        } else {
                            i = i + 1;
                        }
                    },
                    _ => {
                        i = i + 1;
                    },
                }
            },
        }
    }
    Ok(out)
}

/// Parses a day-ahead market document into its price points, in document
/// order: exactly the outcome of [`spec_parse`] on the text.
pub fn parse_price_xml(xml: &str) -> (r: Result<Vec<PricePoint>, ParseError>)
    ensures
        parse_result_matches(r, spec_parse(xml@)),
        r matches Ok(v) ==> forall|k: int| 0 <= k < v@.len() ==> (#[trigger] v@[k]).wf(),
{
    match tokenize(xml) {
        Some(toks) => parse_tokens(&toks),
        None => Err(ParseError::Syntax),
    }
}

/// Parsing is a function of the text alone: two parses of one document agree
/// in every outcome — the same error, or point-for-point the same sequence.
pub proof fn lemma_parse_idempotent(
    s: Seq<char>,
    r1: Result<Vec<PricePoint>, ParseError>,
    r2: Result<Vec<PricePoint>, ParseError>,
)
    requires
        parse_result_matches(r1, spec_parse(s)),
        parse_result_matches(r2, spec_parse(s)),
    ensures
        r1 is Ok <==> r2 is Ok,
        r1 matches Ok(v1) ==> r2 matches Ok(v2) && v1@ == v2@,
        r1 matches Err(e1) ==> r2 == Err::<Vec<PricePoint>, ParseError>(e1),
{
}

} // verus!
