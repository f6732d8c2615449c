//! The hourly scheduler's decisions.
//!
//! The scheduler's loop — fetch, dispatch, sleep — lives in the surrounding
//! program, because it waits on the network and on the clock.  What it
//! decides each cycle is decided here, from plain values: whether a refetch
//! is due, what to do with the point popped for the current hour, the day
//! window to request, and how long to sleep until the next full hour.

use vstd::prelude::*;

use crate::date::Date;
use crate::price::PricePoint;
use crate::queue::PriceQueue;

verus! {

/// What to do with the point popped at the top of the hour.
#[derive(Clone, Copy, Debug, PartialEq, Eq, Structural)]
pub enum DispatchDecision {
    /// The point is for the current wall-clock hour: dispatch it.
    InSync,
    /// The point is for a later hour: push it back and wait for the clock.
    Ahead,
    /// The point is for an earlier hour: the feed lagged; dispatch it all the
    /// same and report the gap.
    Behind,
}

/// A refetch is due when the queue is empty or the feed's publication hour
/// has come.
pub fn refetch_due(queue_empty: bool, now_hour: u8, publication_hour: u8) -> (r: bool)
    ensures
        r == (queue_empty || now_hour == publication_hour),
{
    queue_empty || now_hour == publication_hour
}

/// Compares the popped point's hour with the current wall-clock hour.
pub fn dispatch_decision(p: &PricePoint, now_date: &Date, now_hour: u8) -> (d: DispatchDecision)
    ensures
        (d == DispatchDecision::InSync) == p.spec_at_slot(*now_date, now_hour),
        (d == DispatchDecision::Behind) == p.spec_before_slot(*now_date, now_hour),
        (d == DispatchDecision::Ahead) == (!p.spec_at_slot(*now_date, now_hour)
            && !p.spec_before_slot(*now_date, now_hour)),
{
    if p.at_slot(now_date, now_hour) {
        DispatchDecision::InSync
    } else if p.before_slot(now_date, now_hour) {
        DispatchDecision::Behind
    } else {
        DispatchDecision::Ahead
    }
}

/// What one dispatch tick did to the queue.
pub enum DispatchOutcome {
    /// The front point was due this very hour; it was popped for dispatch.
    Dispatch(PricePoint),
    /// The front point lay behind the wall clock — the feed lagged.  It was
    /// popped for dispatch all the same; the caller reports the gap.
    DispatchStale(PricePoint),
    /// The front point lies ahead of the wall clock; the queue is unchanged
    /// and the caller waits for real time to catch up.
    Ahead,
    /// Nothing is queued: the pipeline cannot act without data.
    Empty,
}

/// One dispatch tick: pops the due point, unless the queue is empty or its
/// front still lies ahead of the current wall-clock hour.
pub fn dispatch_step(q: &mut PriceQueue, now_date: &Date, now_hour: u8) -> (r: DispatchOutcome)
    requires
        old(q).wf(),
    ensures
        final(q).wf(),
        match r {
            DispatchOutcome::Dispatch(p) => old(q)@.len() > 0 && p == old(q)@[0] && p.spec_at_slot(
                *now_date,
                now_hour,
            ) && final(q)@ == old(q)@.drop_first(),
            DispatchOutcome::DispatchStale(p) => old(q)@.len() > 0 && p == old(q)@[0]
                && p.spec_before_slot(*now_date, now_hour) && final(q)@ == old(q)@.drop_first(),
            DispatchOutcome::Ahead => old(q)@.len() > 0 && !old(q)@[0].spec_at_slot(
                *now_date,
                now_hour,
            ) && !old(q)@[0].spec_before_slot(*now_date, now_hour) && final(q)@ == old(q)@,
            DispatchOutcome::Empty => old(q)@.len() == 0 && final(q)@ == old(q)@,
        },
{
    let p = match q.pop_front() {
        Some(p) => p,
        None => {
            return DispatchOutcome::Empty;
        },
    };
    match dispatch_decision(&p, now_date, now_hour) {
        DispatchDecision::InSync => DispatchOutcome::Dispatch(p),
        DispatchDecision::Behind => DispatchOutcome::DispatchStale(p),
        DispatchDecision::Ahead => {
            proof {
                if q@.len() > 0 {
                    assert(old(q)@[0].spec_before(old(q)@[1]));
                    assert(q@[0] == old(q)@[1]);
                }
            }
            q.push_front(p);
            proof {
                assert(q@ =~= old(q)@);
            }
            DispatchOutcome::Ahead
        },
    }
}

/// The day window to request from the feed: today through tomorrow.
pub fn fetch_window(today: Date) -> (r: (Date, Date))
    requires
        today.valid(),
    ensures
        r.0 == today,
        r.1 == today.spec_succ(),
        r.1.year <= 10000 && 1 <= r.1.month <= 12 && 1 <= r.1.day <= 31,
{
    (today, today.succ())
}

/// How long to sleep from `minute:second` past the hour until the top of the
/// next hour.
pub fn seconds_until_next_hour(minute: u8, second: u8) -> (r: u32)
    requires
        minute < 60,
        second < 60,
    ensures
        r as int == 3600 - minute as int * 60 - second as int,
        1 <= r <= 3600,
{
    3600 - (minute as u32) * 60 - (second as u32)
}

} // verus!
