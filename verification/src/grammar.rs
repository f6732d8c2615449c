//! Well-formed documents, and the proof that the parser reads them exactly.
//!
//! A well-formed day-ahead document is a sequence of two kinds of block: an
//! `end` element naming a calendar day, and a `Point` element holding one
//! `position` field and one `price.amount` field.  This module writes that
//! grammar down as a generator from a document model to its token stream and
//! proves that on every well-formed document the parser succeeds and yields
//! exactly one price point per `Point` block — with the day rolled over for
//! the 24th position.

use vstd::prelude::*;

use crate::date::Date;
use crate::parser::{
    last_day, spec_end_date, spec_parse_tokens, spec_point, spec_position, spec_seek, ParseError,
};
use crate::price::{amount_e4, PricePoint};
use crate::tokens::Tok;

verus! {

/// One block of a well-formed document.
pub enum DocItem {
    /// An `end` element whose text names the day of the following points.
    Day(Seq<char>),
    /// A `Point` element: a `position` field and a `price.amount` field.
    Point(Seq<char>, Seq<char>),
}

/// The token stream of one block.
pub open spec fn item_toks(it: DocItem) -> Seq<Tok> {
    match it {
        DocItem::Day(t) => seq![Tok::Start("end"@), Tok::Text(t), Tok::End("end"@)],
        DocItem::Point(p, a) => seq![
            Tok::Start("Point"@),
            Tok::Start("position"@),
            Tok::Text(p),
            Tok::End("position"@),
            Tok::Start("price.amount"@),
            Tok::Text(a),
            Tok::End("price.amount"@),
            Tok::End("Point"@),
        ],
    }
}

/// The token stream of a whole document.
pub open spec fn doc_toks(items: Seq<DocItem>) -> Seq<Tok>
    decreases items.len(),
{
    if items.len() == 0 {
        Seq::empty()
    } else {
        item_toks(items[0]) + doc_toks(items.drop_first())
    }
}

/// The document is well-formed under the day named so far: every field
/// parses, a day is named before the first point, and no rollover leaves the
/// representable years.
pub open spec fn wf_doc(items: Seq<DocItem>, day: Option<Date>) -> bool
    decreases items.len(),
{
    if items.len() == 0 {
        true
    } else {
        match items[0] {
            DocItem::Day(t) => spec_end_date(t) is Some && wf_doc(
                items.drop_first(),
                spec_end_date(t),
            ),
            DocItem::Point(p, a) => {
                &&& day is Some
                &&& spec_position(p) is Some
                &&& amount_e4(a) is Some
                &&& (spec_position(p) == Some(24int) ==> day->Some_0 != last_day())
                &&& wf_doc(items.drop_first(), day)
            },
        }
    }
}

/// The price point a `Point` block yields under day `day`: its hour is the
/// position, except that position 24 names hour zero of the following day.
pub open spec fn point_of(day: Date, p: Seq<char>, a: Seq<char>) -> PricePoint {
    let pos = spec_position(p)->Some_0;
    let amt = amount_e4(a)->Some_0;
    if pos == 24 {
        PricePoint { date: day.spec_succ(), hour: 0, price: amt as i64 }
    } else {
        PricePoint { date: day, hour: pos as u8, price: amt as i64 }
    }
}

/// The points a well-formed document describes, in document order.
pub open spec fn model_points(items: Seq<DocItem>, day: Option<Date>) -> Seq<PricePoint>
    decreases items.len(),
{
    if items.len() == 0 {
        Seq::empty()
    } else {
        match items[0] {
            DocItem::Day(t) => model_points(items.drop_first(), spec_end_date(t)),
            DocItem::Point(p, a) => seq![point_of(day->Some_0, p, a)] + model_points(
                items.drop_first(),
                day,
            ),
        }
    }
}

/// How many `Point` blocks the document holds.
pub open spec fn count_points(items: Seq<DocItem>) -> int
    decreases items.len(),
{
    if items.len() == 0 {
        0
    } else {
        (match items[0] {
            DocItem::Point(_, _) => 1int,
            DocItem::Day(_) => 0int,
        }) + count_points(items.drop_first())
    }
}

proof fn lemma_model_count(items: Seq<DocItem>, day: Option<Date>)
    ensures
        model_points(items, day).len() == count_points(items),
    decreases items.len(),
{
    if items.len() > 0 {
        match items[0] {
            DocItem::Day(t) => {
                lemma_model_count(items.drop_first(), spec_end_date(t));
            },
            DocItem::Point(p, a) => {
                lemma_model_count(items.drop_first(), day);
            },
        }
    }
}

/// The head of what remains at `i` is `head`: its tokens stand at `i`, and
/// past them the rest stands.
proof fn lemma_tail_subrange(big_t: Seq<Tok>, i: int, head: Seq<Tok>, rest: Seq<Tok>)
    requires
        0 <= i <= big_t.len(),
        big_t.subrange(i, big_t.len() as int) == head + rest,
    ensures
        i + head.len() + rest.len() == big_t.len(),
        big_t.subrange(i + head.len(), big_t.len() as int) == rest,
        forall|j: int| 0 <= j < head.len() ==> big_t[i + j] == head[j],
{
    assert(big_t.subrange(i, big_t.len() as int).len() == big_t.len() - i);
    assert forall|j: int| 0 <= j < head.len() implies big_t[i + j] == head[j] by {
        assert(big_t.subrange(i, big_t.len() as int)[j] == big_t[i + j]);
        assert((head + rest)[j] == head[j]);
    }
    assert forall|j: int| 0 <= j < rest.len() implies big_t.subrange(
        i + head.len(),
        big_t.len() as int,
    )[j] == rest[j] by {
        assert(big_t.subrange(i, big_t.len() as int)[head.len() + j] == big_t[i + head.len() + j]);
        assert((head + rest)[head.len() + j] == rest[j]);
    }
    assert(big_t.subrange(i + head.len(), big_t.len() as int) =~= rest);
}

/// Seeking at the start of a well-formed document tail parses it into
/// exactly its model points, appended to what was built before.
proof fn lemma_seek_doc(
    big_t: Seq<Tok>,
    i: int,
    items: Seq<DocItem>,
    day: Option<Date>,
    acc: Seq<PricePoint>,
)
    requires
        wf_doc(items, day),
        0 <= i <= big_t.len(),
        big_t.subrange(i, big_t.len() as int) == doc_toks(items),
    ensures
        spec_seek(big_t, i, day, acc) == Ok::<Seq<PricePoint>, ParseError>(
            acc + model_points(items, day),
        ),
    decreases items.len(),
{
    reveal_strlit("end");
    reveal_strlit("Point");
    reveal_strlit("position");
    reveal_strlit("price.amount");
    if items.len() == 0 {
        assert(doc_toks(items).len() == 0);
        assert(i == big_t.len());
        assert(acc + model_points(items, day) =~= acc);
    } else {
        let rest = items.drop_first();
        let head = item_toks(items[0]);
        assert(doc_toks(items) == head + doc_toks(rest));
        lemma_tail_subrange(big_t, i, head, doc_toks(rest));
        match items[0] {
            DocItem::Day(t) => {
                let d = spec_end_date(t)->Some_0;
                assert(big_t[i] == Tok::Start("end"@));
                assert(big_t[i + 1] == Tok::Text(t));
                assert(big_t[i + 2] == Tok::End("end"@));
                assert(spec_seek(big_t, i, day, acc) == spec_seek(big_t, i + 2, Some(d), acc));
                assert(spec_seek(big_t, i + 2, Some(d), acc) == spec_seek(
                    big_t,
                    i + 3,
                    Some(d),
                    acc,
                ));
                lemma_seek_doc(big_t, i + 3, rest, Some(d), acc);
                assert(model_points(items, day) == model_points(rest, Some(d)));
            },
            DocItem::Point(p, a) => {
                let d = day->Some_0;
                let pos = spec_position(p)->Some_0;
                let amt = amount_e4(a)->Some_0;
                assert(big_t[i] == Tok::Start("Point"@));
                assert(big_t[i + 1] == Tok::Start("position"@));
                assert(big_t[i + 2] == Tok::Text(p));
                assert(big_t[i + 3] == Tok::End("position"@));
                assert(big_t[i + 4] == Tok::Start("price.amount"@));
                assert(big_t[i + 5] == Tok::Text(a));
                assert(big_t[i + 6] == Tok::End("price.amount"@));
                assert(big_t[i + 7] == Tok::End("Point"@));
                let pt0 = PricePoint { date: d, hour: 0, price: 0 };
                let pt1 = if pos == 24 {
                    PricePoint { date: d.spec_succ(), hour: 0, price: 0 }
                } else {
                    PricePoint { date: d, hour: pos as u8, price: 0 }
                };
                let pt2 = PricePoint { date: pt1.date, hour: pt1.hour, price: amt as i64 };
                assert("end"@.len() == 3 && "Point"@.len() == 5);
                assert(spec_seek(big_t, i, day, acc) == spec_point(big_t, i + 1, d, pt0, acc));
                assert(spec_point(big_t, i + 1, d, pt0, acc) == spec_point(
                    big_t,
                    i + 3,
                    d,
                    pt1,
                    acc,
                ));
                assert(spec_point(big_t, i + 3, d, pt1, acc) == spec_point(
                    big_t,
                    i + 4,
                    d,
                    pt1,
                    acc,
                ));
                assert("position"@.len() == 8 && "price.amount"@.len() == 12);
                assert("position"@ != "price.amount"@);
                assert(i + 5 < big_t.len());
                assert(amount_e4(a) == Some(amt));
                assert(spec_point(big_t, i + 4, d, pt1, acc) == spec_point(
                    big_t,
                    i + 6,
                    d,
                    pt2,
                    acc,
                ));
                assert(spec_point(big_t, i + 6, d, pt2, acc) == spec_point(
                    big_t,
                    i + 7,
                    d,
                    pt2,
                    acc,
                ));
                assert(spec_point(big_t, i + 7, d, pt2, acc) == spec_seek(
                    big_t,
                    i + 8,
                    Some(d),
                    acc.push(pt2),
                ));
                lemma_seek_doc(big_t, i + 8, rest, Some(d), acc.push(pt2));
                assert(pt2 == point_of(d, p, a));
                assert(model_points(items, day) == seq![point_of(d, p, a)] + model_points(
                    rest,
                    day,
                ));
                assert(acc.push(pt2) + model_points(rest, day) =~= acc + model_points(items, day));
            },
        }
    }
}

/// On every well-formed document the parse succeeds and yields exactly the
/// document's model points: one per `Point` block, in document order.
pub proof fn lemma_parse_well_formed(items: Seq<DocItem>)
    requires
        wf_doc(items, None),
    ensures
        spec_parse_tokens(doc_toks(items)) == Ok::<Seq<PricePoint>, ParseError>(
            model_points(items, None),
        ),
        model_points(items, None).len() == count_points(items),
{
    let big_t = doc_toks(items);
    assert(big_t.subrange(0, big_t.len() as int) =~= big_t);
    lemma_seek_doc(big_t, 0, items, None, Seq::empty());
    assert(Seq::<PricePoint>::empty() + model_points(items, None) =~= model_points(items, None));
    lemma_model_count(items, None);
}

/// A `Point` block whose position reads 24 never yields a point on the named
/// day: its point lies at hour zero of the following day.
pub proof fn lemma_rollover_point(day: Date, p: Seq<char>, a: Seq<char>)
    requires
        day.valid(),
        spec_position(p) == Some(24int),
    ensures
        point_of(day, p, a).date == day.spec_succ(),
        point_of(day, p, a).hour == 0,
        point_of(day, p, a).date != day,
{
}

} // verus!
