//! Trigger jobs and the job file that defines them.
//!
//! A job file line reads `threshold, condition, command`: a price threshold in
//! display units, the word `above` or `below` in any letter case, and a shell
//! command.  Lines that are empty or start with `#` are skipped.  The trigger
//! engine is split into deciding and acting: the library decides which jobs a
//! price triggers, the surrounding program runs their commands.

use vstd::prelude::*;

use crate::price::PRICE_UNIT;
use crate::text::{
    find_from, matches_ci, spec_find, spec_trim, trim_str, uint_str_val, word_matches_ci,
};

verus! {

/// Whether a job fires when the price stands above or below its threshold.
#[derive(Clone, Copy, Debug, PartialEq, Eq, Structural)]
pub enum TriggerCondition {
    Above,
    Below,
}

/// One rule from the job file: run `command` when the price passes
/// `price_threshold` in the direction of `condition`.
///
/// The threshold is in whole display units; prices carry the fixed-point
/// scale of [`crate::price::PricePoint::price`].
#[derive(Clone, Debug, PartialEq, Eq)]
pub struct Job {
    pub price_threshold: u16,
    pub condition: TriggerCondition,
    pub command: String,
}

/// Why a job file, or one of its lines, was rejected.
#[derive(Clone, Copy, Debug, PartialEq, Eq, Structural)]
pub enum ElcronError {
    /// A line does not hold exactly three comma-separated parts.
    WrongPartCount,
    /// A threshold is not an unsigned number that fits sixteen bits.
    BadPrice,
    /// A condition word is neither `above` nor `below`.
    BadCondition,
    /// No line is left once comments and empty lines are dropped.
    NoJobs,
}

/// The threshold written by a job-file field: the field, trimmed, must be an
/// unsigned decimal no larger than the largest sixteen-bit value.
pub open spec fn spec_price_field(s: Seq<char>) -> Option<int> {
    match uint_str_val(spec_trim(s)) {
        Some(v) => if v <= 65535 {
            Some(v)
        } else {
            None
        },
        None => None,
    }
}

/// The condition written by a job-file field: the field, trimmed, must read
/// `above` or `below` in any ASCII letter case.
pub open spec fn spec_condition_field(s: Seq<char>) -> Option<TriggerCondition> {
    if matches_ci(spec_trim(s), "above"@) {
        Some(TriggerCondition::Above)
    } else if matches_ci(spec_trim(s), "below"@) {
        Some(TriggerCondition::Below)
    } else {
        None
    }
}

/// The three comma-separated parts of a job line, or `None` unless the line
/// holds exactly two commas.
pub open spec fn spec_line_parts(s: Seq<char>) -> Option<(Seq<char>, Seq<char>, Seq<char>)> {
    let i = spec_find(s, ',', 0);
    let j = spec_find(s, ',', i + 1);
    let k = spec_find(s, ',', j + 1);
    if i < s.len() && j < s.len() && k == s.len() {
        Some((s.subrange(0, i), s.subrange(i + 1, j), s.subrange(j + 1, s.len() as int)))
    } else {
        None
    }
}

/// `job` is what the job line `line` defines.
pub open spec fn job_matches_line(job: Job, line: Seq<char>) -> bool {
    match spec_line_parts(line) {
        Some(parts) => {
            &&& spec_price_field(parts.0) == Some(job.price_threshold as int)
            &&& spec_condition_field(parts.1) == Some(job.condition)
            &&& job.command@ == spec_trim(parts.2)
        },
        None => false,
    }
}

/// The reason a job line is rejected, or `None` for a well-formed line.
pub open spec fn spec_line_error(line: Seq<char>) -> Option<ElcronError> {
    match spec_line_parts(line) {
        None => Some(ElcronError::WrongPartCount),
        Some(parts) => if spec_price_field(parts.0) is None {
            Some(ElcronError::BadPrice)
        } else if spec_condition_field(parts.1) is None {
            Some(ElcronError::BadCondition)
        } else {
            None
        },
    }
}

/// A job-file line is kept when it is neither empty nor a `#` comment.
pub open spec fn live_line_pred() -> spec_fn(String) -> bool {
    |l: String| l@.len() > 0 && l@[0] != '#'
}

impl Job {
    /// Builds a job from its three fields.
    pub fn new(price_threshold: u16, condition: TriggerCondition, command: String) -> (job: Job)
        ensures
            job.price_threshold == price_threshold,
            job.condition == condition,
            job.command == command,
    {
        Job { price_threshold, condition, command }
    }

    /// Reads one job line: `threshold, condition, command`, with exactly two
    /// commas, and the command taken with surrounding whitespace removed.
    pub fn from_elcron_line(line: &str) -> (r: Result<Job, ElcronError>)
        ensures
            r is Ok <==> spec_line_error(line@) is None,
            match r {
                Ok(job) => job_matches_line(job, line@),
                Err(e) => spec_line_error(line@) == Some(e),
            },
    {
        let n = line.unicode_len();
        let i = find_from(line, ',', 0);
        if i == n {
            return Err(ElcronError::WrongPartCount);
        }
        let j = find_from(line, ',', i + 1);
        if j == n {
            return Err(ElcronError::WrongPartCount);
        }
        let k = find_from(line, ',', j + 1);
        if k < n {
            return Err(ElcronError::WrongPartCount);
        }
        let part_price = line.substring_char(0, i);
        let part_cond = line.substring_char(i + 1, j);
        let part_cmd = line.substring_char(j + 1, n);
        let price = match get_price(part_price) {
            Ok(v) => v,
            Err(e) => {
                return Err(e);
            },
        };
        let condition = match get_condition(part_cond) {
            Ok(c) => c,
            Err(e) => {
                return Err(e);
            },
        };
        let command = String::from_str(trim_str(part_cmd));
        Ok(Job { price_threshold: price, condition, command })
    }

    /// Whether the price triggers this job: strictly above the threshold for
    /// `Above`, strictly below it for `Below`.  A price exactly at the
    /// threshold triggers neither direction.
    pub open spec fn spec_triggers(self, price: int) -> bool {
        match self.condition {
            TriggerCondition::Above => price > self.price_threshold * (PRICE_UNIT as int),
            TriggerCondition::Below => price < self.price_threshold * (PRICE_UNIT as int),
        }
    }

    /// Whether `price` (in the fixed-point scale of
    /// [`crate::price::PricePoint::price`]) triggers this job.
    pub fn should_execute(&self, price: i64) -> (r: bool)
        ensures
            r == self.spec_triggers(price as int),
            price as int == self.price_threshold * (PRICE_UNIT as int) ==> !r,
    {
        let threshold: i64 = (self.price_threshold as i64) * PRICE_UNIT;
        match self.condition {
            TriggerCondition::Above => price > threshold,
            TriggerCondition::Below => price < threshold,
        }
    }
}

/// Reads a threshold field: the field, trimmed, as an unsigned number of at
/// most the largest sixteen-bit value.
pub fn get_price(price: &str) -> (r: Result<u16, ElcronError>)
    ensures
        match r {
            Ok(v) => spec_price_field(price@) == Some(v as int),
            Err(e) => spec_price_field(price@) is None && e == ElcronError::BadPrice,
        },
{
    let t = trim_str(price);
    match crate::text::parse_uint(t, 65535) {
        Some(v) => Ok(v as u16),
        None => Err(ElcronError::BadPrice),
    }
}

/// Reads a condition field: the field, trimmed, as `above` or `below` in any
/// ASCII letter case.
pub fn get_condition(condition: &str) -> (r: Result<TriggerCondition, ElcronError>)
    ensures
        match r {
            Ok(c) => spec_condition_field(condition@) == Some(c),
            Err(e) => spec_condition_field(condition@) is None && e == ElcronError::BadCondition,
        },
{
    let t = trim_str(condition);
    if word_matches_ci(t, "above") {
        Ok(TriggerCondition::Above)
    } else if word_matches_ci(t, "below") {
        Ok(TriggerCondition::Below)
    } else {
        Err(ElcronError::BadCondition)
    }
}

/// Parses every line into a job, in order; the first bad line rejects the
/// whole list with its reason.
pub fn parse_lines(lines: &Vec<String>) -> (r: Result<Vec<Job>, ElcronError>)
    ensures
        match r {
            Ok(jobs) => {
                &&& jobs@.len() == lines@.len()
                &&& forall|i: int|
                    0 <= i < lines@.len() ==> job_matches_line(
                        #[trigger] jobs@[i],
                        lines@[i]@,
                    )
            },
            Err(e) => exists|i: int|
                {
                    &&& 0 <= i < lines@.len()
                    &&& spec_line_error(#[trigger] lines@[i]@) == Some(e)
                    &&& forall|j: int| 0 <= j < i ==> spec_line_error(#[trigger] lines@[j]@) is None
                },
        },
{
    let mut jobs: Vec<Job> = Vec::new();
    let mut i: usize = 0;
    while i < lines.len()
        invariant
            0 <= i <= lines@.len(),
            jobs@.len() == i,
            forall|k: int| 0 <= k < i ==> job_matches_line(#[trigger] jobs@[k], lines@[k]@),
            forall|k: int| 0 <= k < i ==> spec_line_error(#[trigger] lines@[k]@) is None,
        decreases lines@.len() - i,
    {
        match Job::from_elcron_line(lines[i].as_str()) {
            Ok(job) => {
                jobs.push(job);
            },
            Err(e) => {
                proof {
                    assert(spec_line_error(lines@[i as int]@) == Some(e));
                }
                return Err(e);
            },
        }
        i = i + 1;
    }
    Ok(jobs)
}

/// Parses a whole job file, given as its lines: comment and empty lines are
/// skipped, at least one line must remain, and every remaining line must be a
/// well-formed job line.
pub fn parse_elcron_file(lines: &Vec<String>) -> (r: Result<Vec<Job>, ElcronError>)
    ensures
        ({
            let kept = lines@.filter(live_line_pred());
            match r {
                Ok(jobs) => {
                    &&& kept.len() > 0
                    &&& jobs@.len() == kept.len()
                    &&& forall|i: int|
                        0 <= i < kept.len() ==> job_matches_line(#[trigger] jobs@[i], kept[i]@)
                },
                Err(e) => {
                    ||| (kept.len() == 0 && e == ElcronError::NoJobs)
                    ||| exists|i: int|
                        {
                            &&& 0 <= i < kept.len()
                            &&& spec_line_error(#[trigger] kept[i]@) == Some(e)
                            &&& forall|j: int|
                                0 <= j < i ==> spec_line_error(#[trigger] kept[j]@) is None
                        }
                },
            }
        }),
{
    let ghost pred = live_line_pred();
    let mut kept: Vec<String> = Vec::new();
    let mut i: usize = 0;
    while i < lines.len()
        invariant
            0 <= i <= lines@.len(),
            pred == live_line_pred(),
            kept@ == lines@.subrange(0, i as int).filter(pred),
        decreases lines@.len() - i,
    {
        let line = &lines[i];
        let live = line.as_str().unicode_len() > 0 && line.as_str().get_char(0) != '#';
        proof {
            let prefix = lines@.subrange(0, i as int);
            let prefix1 = lines@.subrange(0, (i + 1) as int);
            assert(prefix1 =~= prefix.push(lines@[i as int]));
            assert(live == pred(lines@[i as int]));
            prefix.lemma_filter_push(lines@[i as int], pred);
        }
        if live {
            let copy = line.clone();
            assert(copy == lines@[i as int]);
            kept.push(copy);
        }
        i = i + 1;
    }
    proof {
        assert(lines@.subrange(0, lines@.len() as int) =~= lines@);
    }
    if kept.len() == 0 {
        return Err(ElcronError::NoJobs);
    }
    parse_lines(&kept)
}

/// Decides which jobs the current price triggers: the positions, in order, of
/// every job whose condition holds.  Running the commands is the caller's
/// side of the split between deciding and acting.
pub fn jobs_to_run(jobs: &Vec<Job>, price: i64) -> (r: Vec<usize>)
    ensures
        forall|k: int|
            0 <= k < r@.len() ==> #[trigger] r@[k] < jobs@.len() && jobs@[r@[k] as int].spec_triggers(
                price as int,
            ),
        forall|i: int|
            0 <= i < jobs@.len() && (#[trigger] jobs@[i]).spec_triggers(price as int) ==> r@.contains(
                i as usize,
            ),
        forall|k: int| 0 <= k < r@.len() - 1 ==> #[trigger] r@[k] < r@[k + 1],
{
    let mut r: Vec<usize> = Vec::new();
    let mut i: usize = 0;
    while i < jobs.len()
        invariant
            0 <= i <= jobs@.len(),
            forall|k: int|
                0 <= k < r@.len() ==> #[trigger] r@[k] < i && jobs@[r@[k] as int].spec_triggers(
                    price as int,
                ),
            forall|j: int|
                0 <= j < i && (#[trigger] jobs@[j]).spec_triggers(price as int) ==> r@.contains(
                    j as usize,
                ),
            forall|k: int| 0 <= k < r@.len() - 1 ==> #[trigger] r@[k] < r@[k + 1],
        decreases jobs@.len() - i,
    {
        if jobs[i].should_execute(price) {
            proof {
                assert forall|j: int|
                    0 <= j < i + 1 && (#[trigger] jobs@[j]).spec_triggers(price as int) implies r@.push(
                    i as usize,
                ).contains(j as usize) by {
                    if j < i {
                        let k = choose|k: int| 0 <= k < r@.len() && r@[k] == j as usize;
                        assert(r@.push(i as usize)[k] == j as usize);
                    } else {
                        assert(r@.push(i as usize)[r@.len() as int] == i as usize);
                    }
                }
            }
            r.push(i);
        }
        i = i + 1;
    }
    r
}

} // verus!
