//! The forward-looking queue of hourly prices.
//!
//! The queue holds upcoming price points strictly ascending by (date, hour),
//! with no two points for the same hour.  It changes only by merging freshly
//! parsed data at the back and by popping the due point at the front; the
//! scheduler may push a popped point back when it turns out to lie ahead of
//! the wall clock.

use vstd::prelude::*;

use crate::date::Date;
use crate::price::{
    lemma_ascending_all_pairs, time_ascending, PricePoint,
};

verus! {

/// Keeps a point merged while the queue is empty: its hour must not precede
/// the current wall-clock hour.
pub open spec fn boot_pred(d: Date, h: u8) -> spec_fn(PricePoint) -> bool {
    |p: PricePoint| !p.spec_before_slot(d, h)
}

/// Keeps a point merged behind a last queued point: its (date, hour) must
/// lie strictly after the last queued one's.
///
/// This is the full (date, hour) comparison: skipping first by date and then
/// by bare hour number would wrongly drop a next-day point whose hour number
/// is smaller than the last queued hour, such as the midnight hour after a
/// late-evening one.
pub open spec fn extend_pred(last: PricePoint) -> spec_fn(PricePoint) -> bool {
    |p: PricePoint| last.spec_before(p)
}

/// The new points a merge appends to a queue holding `q`: every point of
/// `new` that passes the filter the queue's state selects.
pub open spec fn merge_kept(
    q: Seq<PricePoint>,
    new: Seq<PricePoint>,
    d: Date,
    h: u8,
) -> Seq<PricePoint> {
    if q.len() == 0 {
        new.filter(boot_pred(d, h))
    } else {
        new.filter(extend_pred(q.last()))
    }
}

/// An ordered, deduplicated buffer of upcoming hourly prices.
pub struct PriceQueue {
    entries: Vec<PricePoint>,
}

impl View for PriceQueue {
    type V = Seq<PricePoint>;

    closed spec fn view(&self) -> Seq<PricePoint> {
        self.entries@
    }
}

/// Filtering keeps the strict time order and hands back only points of the
/// filtered sequence.
proof fn lemma_filter_ascending(s: Seq<PricePoint>, pred: spec_fn(PricePoint) -> bool)
    requires
        time_ascending(s),
    ensures
        time_ascending(s.filter(pred)),
        forall|i: int| 0 <= i < s.filter(pred).len() ==> s.contains(#[trigger] s.filter(pred)[i]),
    decreases s.len(),
{
    reveal(Seq::filter);
    if s.len() > 0 {
        let head = s.drop_last();
        let f = s.filter(pred);
        let ff = head.filter(pred);
        assert(time_ascending(head)) by {
            assert(forall|i: int|
                0 <= i < head.len() - 1 ==> #[trigger] head[i] == s[i] && head[i + 1] == s[i + 1]);
        }
        lemma_filter_ascending(head, pred);
        assert forall|i: int| 0 <= i < f.len() implies s.contains(#[trigger] f[i]) by {
            if pred(s.last()) && i == f.len() - 1 {
                assert(f[i] == s.last());
                assert(s[s.len() - 1] == s.last());
            } else {
                assert(f[i] == ff[i]);
                assert(head.contains(ff[i]));
                let j = choose|j: int| 0 <= j < head.len() && head[j] == ff[i];
                assert(s[j] == ff[i]);
            }
        }
        if pred(s.last()) && ff.len() > 0 {
            assert(f == ff.push(s.last()));
            assert(head.contains(ff[ff.len() - 1]));
            let j = choose|j: int| 0 <= j < head.len() && head[j] == ff[ff.len() - 1];
            lemma_ascending_all_pairs(s);
            assert(s[j].spec_before(s[s.len() - 1]));
            assert forall|i: int| 0 <= i < f.len() - 1 implies (#[trigger] f[i]).spec_before(
                f[i + 1],
            ) by {
                if i + 1 < f.len() - 1 {
                    assert(f[i] == ff[i] && f[i + 1] == ff[i + 1]);
                } else {
                    assert(f[i] == ff[ff.len() - 1] && f[i + 1] == s.last());
                }
            }
        }
    }
}

impl PriceQueue {
    /// Strictly ascending by (date, hour), every entry a real date and hour.
    pub open spec fn wf(self) -> bool {
        &&& time_ascending(self@)
        &&& forall|i: int| 0 <= i < self@.len() ==> (#[trigger] self@[i]).wf()
    }

    /// The empty queue.
    pub fn new() -> (q: PriceQueue)
        ensures
            q@ == Seq::<PricePoint>::empty(),
            q.wf(),
    {
        PriceQueue { entries: Vec::new() }
    }

    pub fn len(&self) -> (n: usize)
        ensures
            n == self@.len(),
    {
        self.entries.len()
    }

    pub fn is_empty(&self) -> (r: bool)
        ensures
            r == (self@.len() == 0),
    {
        self.entries.len() == 0
    }

    /// The queued point at position `i`, front first.
    pub fn get(&self, i: usize) -> (p: PricePoint)
        requires
            i < self@.len(),
        ensures
            p == self@[i as int],
    {
        self.entries[i]
    }

    /// Removes and returns the earliest queued point, or `None` when the
    /// queue has nothing to give.
    pub fn pop_front(&mut self) -> (r: Option<PricePoint>)
        requires
            old(self).wf(),
        ensures
            final(self).wf(),
            match r {
                Some(p) => old(self)@.len() > 0 && p == old(self)@[0] && final(self)@ == old(
                    self,
                )@.drop_first(),
                None => old(self)@.len() == 0 && final(self)@ == old(self)@,
            },
    {
        if self.entries.len() == 0 {
            return None;
        }
        let p = self.entries.remove(0);
        proof {
            assert(self@ =~= old(self)@.drop_first());
            assert(forall|i: int|
                0 <= i < self@.len() ==> #[trigger] self@[i] == old(self)@[i + 1]);
        }
        Some(p)
    }

    /// Puts a point back at the front; the caller hands back a point it has
    /// just popped, so the point lies before everything still queued.
    pub fn push_front(&mut self, p: PricePoint)
        requires
            old(self).wf(),
            p.wf(),
            old(self)@.len() > 0 ==> p.spec_before(old(self)@[0]),
        ensures
            final(self).wf(),
            final(self)@ == seq![p] + old(self)@,
    {
        self.entries.insert(0, p);
        proof {
            assert(self@ =~= seq![p] + old(self)@);
            assert(forall|i: int|
                1 <= i < self@.len() ==> #[trigger] self@[i] == old(self)@[i - 1]);
        }
    }

    /// Merges freshly fetched, strictly time-sorted points into the queue.
    ///
    /// Into an empty queue this keeps exactly the points from the current
    /// wall-clock hour of day `now_date` on, bootstrapping the queue at
    /// "now".  Into a non-empty queue it keeps exactly the points lying
    /// strictly after the last queued one, skipping what is already queued.
    /// Kept points are appended in their given order.
    pub fn merge(&mut self, new_points: &Vec<PricePoint>, now_date: Date, now_hour: u8)
        requires
            old(self).wf(),
            time_ascending(new_points@),
            forall|i: int| 0 <= i < new_points@.len() ==> (#[trigger] new_points@[i]).wf(),
            now_hour < 24,
        ensures
            final(self).wf(),
            final(self)@ == old(self)@ + merge_kept(old(self)@, new_points@, now_date, now_hour),
    {
        broadcast use vstd::seq_lib::group_filter_ensures;
        broadcast use Seq::lemma_filter_push;

        let ghost q0 = self@;
        let n = self.entries.len();
        let ghost pred = if q0.len() == 0 {
            boot_pred(now_date, now_hour)
        } else {
            extend_pred(q0.last())
        };
        let last: Option<PricePoint> = if n == 0 {
            None
        } else {
            Some(self.entries[n - 1])
        };
        let mut i: usize = 0;
        while i < new_points.len()
            invariant
                0 <= i <= new_points@.len(),
                n == q0.len(),
                match last {
                    Some(l) => n > 0 && l == q0.last(),
                    None => n == 0,
                },
                pred == (if q0.len() == 0 {
                    boot_pred(now_date, now_hour)
                } else {
                    extend_pred(q0.last())
                }),
                self@ == q0 + new_points@.subrange(0, i as int).filter(pred),
            decreases new_points@.len() - i,
        {
            let p = new_points[i];
            let keep = match &last {
                None => !p.before_slot(&now_date, now_hour),
                Some(l) => l.before(&p),
            };
            proof {
                let prefix = new_points@.subrange(0, i as int);
                let prefix1 = new_points@.subrange(0, (i + 1) as int);
                assert(prefix1 =~= prefix.push(new_points@[i as int]));
                assert(keep == pred(p));
                prefix.lemma_filter_push(p, pred);
                assert(prefix.push(p).filter(pred) == if pred(p) {
                    prefix.filter(pred).push(p)
                } else {
                    prefix.filter(pred)
                });
                if pred(p) {
                    assert((q0 + prefix.filter(pred)).push(p) =~= q0 + prefix.filter(pred).push(
                        p,
                    ));
                }
            }
            if keep {
                self.entries.push(p);
            }
            i = i + 1;
        }
        proof {
            assert(new_points@.subrange(0, new_points@.len() as int) =~= new_points@);
            let kept = new_points@.filter(pred);
            assert(self@ == q0 + kept);
            assert(kept == merge_kept(q0, new_points@, now_date, now_hour));
            lemma_filter_ascending(new_points@, pred);
            assert forall|i2: int| 0 <= i2 < kept.len() implies (#[trigger] kept[i2]).wf() by {
                assert(new_points@.contains(kept[i2]));
                let j = choose|j: int|
                    0 <= j < new_points@.len() && new_points@[j] == kept[i2];
            }
            if q0.len() > 0 {
                assert forall|i2: int| 0 <= i2 < kept.len() implies q0.last().spec_before(
                    #[trigger] kept[i2],
                ) by {
                    assert(pred(kept[i2]));
                }
            }
            assert(time_ascending(self@)) by {
                assert forall|i2: int| 0 <= i2 < self@.len() - 1 implies (
                #[trigger] self@[i2]).spec_before(self@[i2 + 1]) by {
                    if i2 + 1 < q0.len() {
                        assert(self@[i2] == q0[i2] && self@[i2 + 1] == q0[i2 + 1]);
                    } else if i2 + 1 == q0.len() {
                        assert(self@[i2] == q0.last() && self@[i2 + 1] == kept[0]);
                    } else {
                        assert(self@[i2] == kept[i2 - q0.len()] && self@[i2 + 1] == kept[
                        i2 + 1 - q0.len()]);
                    }
                }
            }
            assert forall|i2: int| 0 <= i2 < self@.len() implies (#[trigger] self@[i2]).wf() by {
                if i2 < q0.len() {
                    assert(self@[i2] == q0[i2]);
                } else {
                    assert(self@[i2] == kept[i2 - q0.len()]);
                }
            }
        }
    }
}

/// A well-formed queue holds no two points for the same (date, hour): what
/// the strict ascending order gives every queue the merge builds.
pub proof fn lemma_no_duplicate_slots(s: Seq<PricePoint>)
    requires
        time_ascending(s),
    ensures
        forall|i: int, j: int|
            0 <= i < j < s.len() ==> !(#[trigger] s[i]).spec_same_slot(#[trigger] s[j]),
{
    lemma_ascending_all_pairs(s);
}

/// Merging into an empty queue keeps exactly the points from the current
/// wall-clock hour on: every point whose hour precedes "now" is dropped,
/// every other point is kept, and the kept points stay in their given order.
pub proof fn lemma_merge_into_empty(new: Seq<PricePoint>, d: Date, h: u8)
    requires
        time_ascending(new),
    ensures
        forall|i: int|
            0 <= i < merge_kept(Seq::<PricePoint>::empty(), new, d, h).len() ==> !(
            #[trigger] merge_kept(Seq::<PricePoint>::empty(), new, d, h)[i]).spec_before_slot(d, h),
        forall|j: int|
            0 <= j < new.len() && !(#[trigger] new[j]).spec_before_slot(d, h) ==> merge_kept(
                Seq::<PricePoint>::empty(),
                new,
                d,
                h,
            ).contains(new[j]),
        time_ascending(merge_kept(Seq::<PricePoint>::empty(), new, d, h)),
{
    broadcast use vstd::seq_lib::group_filter_ensures;

    let kept = merge_kept(Seq::<PricePoint>::empty(), new, d, h);
    lemma_filter_ascending(new, boot_pred(d, h));
    assert forall|i: int| 0 <= i < kept.len() implies !(#[trigger] kept[i]).spec_before_slot(
        d,
        h,
    ) by {
        assert(boot_pred(d, h)(kept[i]));
    }
    assert forall|j: int|
        0 <= j < new.len() && !(#[trigger] new[j]).spec_before_slot(d, h) implies kept.contains(
        new[j],
    ) by {
        assert(boot_pred(d, h)(new[j]));
    }
}

/// Merging into a non-empty queue never introduces a point whose (date, hour)
/// is at or before the last queued point's: every appended point lies
/// strictly after it.
pub proof fn lemma_merge_stays_beyond_last(q: Seq<PricePoint>, new: Seq<PricePoint>, d: Date, h: u8)
    requires
        q.len() > 0,
    ensures
        forall|i: int|
            0 <= i < merge_kept(q, new, d, h).len() ==> q.last().spec_before(
                #[trigger] merge_kept(q, new, d, h)[i],
            ),
{
    broadcast use vstd::seq_lib::group_filter_ensures;

    let kept = merge_kept(q, new, d, h);
    assert forall|i: int| 0 <= i < kept.len() implies q.last().spec_before(
        #[trigger] kept[i],
    ) by {
        assert(extend_pred(q.last())(kept[i]));
    }
}

/// A point just popped from the front is never brought back by an
/// immediately following merge, however much the merged data overlaps what
/// was queued.  When the pop empties the queue this needs the wall clock to
/// stand past the popped hour, as it does once the hour has been serviced.
pub proof fn lemma_pop_then_merge_no_reintroduction(
    q: Seq<PricePoint>,
    new: Seq<PricePoint>,
    d: Date,
    h: u8,
)
    requires
        time_ascending(q),
        q.len() > 0,
        q.len() == 1 ==> q[0].spec_before_slot(d, h),
    ensures
        forall|i: int|
            0 <= i < merge_kept(q.drop_first(), new, d, h).len() ==> !(#[trigger] merge_kept(
                q.drop_first(),
                new,
                d,
                h,
            )[i]).spec_same_slot(q[0]),
{
    broadcast use vstd::seq_lib::group_filter_ensures;

    let rest = q.drop_first();
    let kept = merge_kept(rest, new, d, h);
    if q.len() == 1 {
        assert forall|i: int| 0 <= i < kept.len() implies !(#[trigger] kept[i]).spec_same_slot(
            q[0],
        ) by {
            assert(boot_pred(d, h)(kept[i]));
        }
    } else {
        lemma_ascending_all_pairs(q);
        assert(q[0].spec_before(q[q.len() - 1]));
        assert(rest.last() == q[q.len() - 1]);
        assert forall|i: int| 0 <= i < kept.len() implies !(#[trigger] kept[i]).spec_same_slot(
            q[0],
        ) by {
            assert(extend_pred(rest.last())(kept[i]));
        }
    }
}

} // verus!
