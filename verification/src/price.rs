//! Hourly price points and their time order.
//!
//! A price point is the settled price of one clock hour on one calendar date.
//! Prices are plain decimals in the feed; they are held here as integers in
//! ten-thousandths of the display unit, so every comparison and conversion is
//! exact.  The feed writes amounts in a unit ten times the display unit, so an
//! amount text `24.0` becomes the display price `2.4`, held as `24000`.

use vstd::prelude::*;

use crate::date::Date;
use crate::text::{
    all_digits, char_is_digit, char_digit_val, digits_val, find_from, is_digit, spec_find,
};

verus! {

/// The settled price for one clock hour of one calendar date.
///
/// `price` is the display price multiplied by ten thousand.
#[derive(Clone, Copy, Debug, PartialEq, Eq, Structural)]
pub struct PricePoint {
    pub date: Date,
    pub hour: u8,
    pub price: i64,
}

/// One display unit, in the fixed-point price scale used by [`PricePoint`].
pub const PRICE_UNIT: i64 = 10000;

impl PricePoint {
    /// The hour is a clock hour and the date names a real calendar day.
    pub open spec fn wf(self) -> bool {
        self.hour < 24 && self.date.valid()
    }

    /// `self`'s hour comes strictly earlier in time than `other`'s.
    pub open spec fn spec_before(self, other: PricePoint) -> bool {
        self.date.spec_lt(other.date) || (self.date == other.date && self.hour < other.hour)
    }

    /// Both points name the same calendar date and clock hour.
    pub open spec fn spec_same_slot(self, other: PricePoint) -> bool {
        self.date == other.date && self.hour == other.hour
    }

    /// `self`'s hour comes strictly earlier in time than `other`'s.
    pub fn before(&self, other: &PricePoint) -> (r: bool)
        ensures
            r == self.spec_before(*other),
    {
        self.date.lt(&other.date) || (self.date == other.date && self.hour < other.hour)
    }

    /// Both points name the same calendar date and clock hour.
    pub fn same_slot(&self, other: &PricePoint) -> (r: bool)
        ensures
            r == self.spec_same_slot(*other),
    {
        self.date == other.date && self.hour == other.hour
    }

    /// The point's hour lies strictly before the clock hour `h` of day `d`.
    pub open spec fn spec_before_slot(self, d: Date, h: u8) -> bool {
        self.date.spec_lt(d) || (self.date == d && self.hour < h)
    }

    /// The point names exactly the clock hour `h` of day `d`.
    pub open spec fn spec_at_slot(self, d: Date, h: u8) -> bool {
        self.date == d && self.hour == h
    }

    /// The point's hour lies strictly before the clock hour `h` of day `d`.
    pub fn before_slot(&self, d: &Date, h: u8) -> (r: bool)
        ensures
            r == self.spec_before_slot(*d, h),
    {
        self.date.lt(d) || (self.date == *d && self.hour < h)
    }

    /// The point names exactly the clock hour `h` of day `d`.
    pub fn at_slot(&self, d: &Date, h: u8) -> (r: bool)
        ensures
            r == self.spec_at_slot(*d, h),
    {
        self.date == *d && self.hour == h
    }
}

/// Each point comes no later than the next: sorted by (date, hour).
pub open spec fn time_sorted(s: Seq<PricePoint>) -> bool {
    forall|i: int| 0 <= i < s.len() - 1 ==> !(#[trigger] s[i + 1]).spec_before(s[i])
}

/// Each point comes strictly earlier than the next: sorted by (date, hour)
/// with no two points sharing a slot.
pub open spec fn time_ascending(s: Seq<PricePoint>) -> bool {
    forall|i: int| 0 <= i < s.len() - 1 ==> (#[trigger] s[i]).spec_before(s[i + 1])
}

/// The slot order is transitive.
pub proof fn lemma_before_trans(a: PricePoint, b: PricePoint, c: PricePoint)
    requires
        a.spec_before(b),
        b.spec_before(c),
    ensures
        a.spec_before(c),
{
}

/// In a strictly ascending sequence every earlier point is strictly before
/// every later one.
pub proof fn lemma_ascending_all_pairs(s: Seq<PricePoint>)
    requires
        time_ascending(s),
    ensures
        forall|i: int, j: int| 0 <= i < j < s.len() ==> (#[trigger] s[i]).spec_before(#[trigger] s[j]),
    decreases s.len(),
{
    if s.len() > 1 {
        let t = s.drop_first();
        assert(time_ascending(t)) by {
            assert(forall|i: int|
                0 <= i < t.len() - 1 ==> #[trigger] t[i] == s[i + 1] && t[i + 1] == s[i + 2]);
        }
        lemma_ascending_all_pairs(t);
        assert forall|i: int, j: int| 0 <= i < j < s.len() implies (#[trigger] s[i]).spec_before(
            #[trigger] s[j],
        ) by {
            if i == 0 {
                assert(s[0].spec_before(s[1]));
                if j > 1 {
                    assert(t[0].spec_before(t[j - 1]));
                    lemma_before_trans(s[0], s[1], s[j]);
                }
            } else {
                assert(t[i - 1] == s[i] && t[j - 1] == s[j]);
            }
        }
    }
}

/// Ten to the `k`th power.
pub open spec fn pow10(k: int) -> int
    decreases k,
{
    if k <= 0 {
        1
    } else {
        10 * pow10(k - 1)
    }
}

/// A digit string of length `n` writes a value below ten to the `n`th.
pub proof fn lemma_digits_val_upper(s: Seq<char>)
    requires
        all_digits(s),
    ensures
        0 <= digits_val(s) < pow10(s.len() as int),
    decreases s.len(),
{
    if s.len() > 0 {
        assert(all_digits(s.drop_last())) by {
            assert(forall|i: int|
                0 <= i < s.len() - 1 ==> s.drop_last()[i] == #[trigger] s[i] && is_digit(s[i]));
        }
        lemma_digits_val_upper(s.drop_last());
        assert(is_digit(s.last()));
    }
}

/// The value of a feed amount text, already converted to the display scale of
/// [`PricePoint::price`]: ten-thousandths of the display unit, one tenth of
/// the feed unit.
///
/// The accepted texts are plain decimals: an optional sign, one to fifteen
/// integer digits, and optionally a point followed by one to three fraction
/// digits.  Anything else — in particular exponents or wider fractions than
/// this fixed-point scale can hold exactly — is not an amount.
pub open spec fn amount_e4(s: Seq<char>) -> Option<int> {
    let off: int = if s.len() > 0 && (s[0] == '-' || s[0] == '+') {
        1
    } else {
        0
    };
    let neg = s.len() > 0 && s[0] == '-';
    let dot = spec_find(s, '.', off);
    let ip = s.subrange(off, dot);
    let fp = if dot == s.len() {
        Seq::<char>::empty()
    } else {
        s.subrange(dot + 1, s.len() as int)
    };
    if 1 <= ip.len() <= 15 && all_digits(ip) && (dot == s.len() || (1 <= fp.len() <= 3
        && all_digits(fp))) {
        let mag = digits_val(ip) * 1000 + digits_val(fp) * pow10(3 - fp.len());
        Some(
            if neg {
                -mag
            } else {
                mag
            },
        )
    } else {
        None
    }
}

/// Reads the digit run `s[from..to]` as a number.  `None` as soon as one
/// character is not a digit.
pub(crate) fn parse_digits_range(s: &str, from: usize, to: usize) -> (r: Option<u64>)
    requires
        from <= to <= s@.len(),
        to - from <= 15,
    ensures
        match r {
            Some(v) => {
                &&& to > from
                &&& all_digits(s@.subrange(from as int, to as int))
                &&& v as int == digits_val(s@.subrange(from as int, to as int))
                &&& (v as int) < pow10((to - from) as int)
            },
            None => to == from || !all_digits(s@.subrange(from as int, to as int)),
        },
{
    if from == to {
        return None;
    }
    let mut acc: u64 = 0;
    let mut i: usize = from;
    while i < to
        invariant
            from <= i <= to <= s@.len(),
            to - from <= 15,
            all_digits(s@.subrange(from as int, i as int)),
            acc as int == digits_val(s@.subrange(from as int, i as int)),
            (acc as int) < pow10((i - from) as int),
        decreases to - i,
    {
        let c = s.get_char(i);
        if !char_is_digit(c) {
            assert(!all_digits(s@.subrange(from as int, to as int))) by {
                assert(s@.subrange(from as int, to as int)[i - from] == s@[i as int]);
            }
            return None;
        }
        let d = char_digit_val(c);
        proof {
            let pre = s@.subrange(from as int, i as int);
            let cur = s@.subrange(from as int, (i + 1) as int);
            assert(cur.drop_last() =~= pre);
            assert(cur.last() == s@[i as int]);
            assert(forall|j: int|
                0 <= j < cur.len() ==> #[trigger] cur[j] == s@[from + j] && is_digit(cur[j]));
            assert(pow10((i + 1 - from) as int) == 10 * pow10((i - from) as int));
            lemma_pow10_le((i - from) as int, 15);
            lemma_pow10_concrete();
        }
        acc = 10 * acc + (d as u64);
        i = i + 1;
    }
    proof {
        lemma_pow10_le((to - from) as int, 15);
        lemma_pow10_concrete();
    }
    Some(acc)
}

proof fn lemma_pow10_concrete()
    ensures
        pow10(0) == 1,
        pow10(1) == 10,
        pow10(2) == 100,
        pow10(3) == 1000,
        pow10(15) == 1000000000000000,
{
    reveal_with_fuel(pow10, 17);
}

proof fn lemma_pow10_pos(k: int)
    ensures
        pow10(k) >= 1,
    decreases k,
{
    if k > 0 {
        lemma_pow10_pos(k - 1);
    }
}

proof fn lemma_pow10_le(a: int, b: int)
    requires
        a <= b,
    ensures
        pow10(a) <= pow10(b),
    decreases b,
{
    if a < b && b > 0 {
        lemma_pow10_le(a, b - 1);
        lemma_pow10_pos(b - 1);
    }
}

/// Parses a feed amount text into the display price scale: the value of
/// [`amount_e4`] on the text.
pub fn parse_amount(s: &str) -> (r: Option<i64>)
    ensures
        match r {
            Some(v) => amount_e4(s@) == Some(v as int),
            None => amount_e4(s@) is None,
        },
{
    let n = s.unicode_len();
    let mut off: usize = 0;
    let mut neg = false;
    if n > 0 {
        let c0 = s.get_char(0);
        if c0 == '-' || c0 == '+' {
            off = 1;
            neg = c0 == '-';
        }
    }
    let dot = find_from(s, '.', off);
    if dot == off || dot - off > 15 {
        return None;
    }
    let ipv = match parse_digits_range(s, off, dot) {
        Some(v) => v,
        None => {
            return None;
        },
    };
    let mut fpv: u64 = 0;
    let mut scale: u64 = 1000;
    if dot < n {
        if n - (dot + 1) < 1 || n - (dot + 1) > 3 {
            return None;
        }
        fpv = match parse_digits_range(s, dot + 1, n) {
            Some(v) => v,
            None => {
                return None;
            },
        };
        let fl = n - (dot + 1);
        scale = if fl == 1 {
            100
        } else if fl == 2 {
            10
        } else {
            1
        };
        proof {
            lemma_pow10_concrete();
            assert(scale as int == pow10(3 - (n - (dot + 1))));
        }
    }
    proof {
        lemma_pow10_concrete();
        lemma_pow10_le((dot - off) as int, 15);
        if dot < n {
            assert(fpv as int * (scale as int) < pow10(3)) by {
                let fl = n - (dot + 1);
                assert((fpv as int) < pow10(fl as int));
                assert(pow10(fl as int) * pow10(3 - fl as int) == pow10(3)) by {
                    lemma_pow10_add(fl as int, 3 - fl as int);
                }
            };
        }
    }
    let mag: u64 = ipv * 1000 + fpv * scale;
    let v: i64 = mag as i64;
    if neg {
        Some(0i64 - v)
    } else {
        Some(v)
    }
}

proof fn lemma_pow10_add(a: int, b: int)
    requires
        0 <= a,
        0 <= b,
    ensures
        pow10(a) * pow10(b) == pow10(a + b),
    decreases a,
{
    if a > 0 {
        lemma_pow10_add(a - 1, b);
        assert(pow10(a) * pow10(b) == 10 * (pow10(a - 1) * pow10(b))) by (nonlinear_arith)
            requires
                pow10(a) == 10 * pow10(a - 1),
        ;
    }
}

/// Sorts price points ascending by (date, hour), keeping exactly the given
/// points.  Points sharing a slot stay adjacent in an unspecified order.
pub fn sort_prices(prices: Vec<PricePoint>) -> (r: Vec<PricePoint>)
    ensures
        time_sorted(r@),
        r@.to_multiset() == prices@.to_multiset(),
        r@.len() == prices@.len(),
{
    broadcast use vstd::seq_lib::group_to_multiset_ensures;

    let mut src = prices;
    let mut out: Vec<PricePoint> = Vec::new();
    while src.len() > 0
        invariant
            time_sorted(out@),
            out@.to_multiset().add(src@.to_multiset()) == prices@.to_multiset(),
            out@.len() + src@.len() == prices@.len(),
            forall|i: int, j: int|
                0 <= i < out@.len() && 0 <= j < src@.len() ==> !(#[trigger] src@[j]).spec_before(
                    #[trigger] out@[i],
                ),
        decreases src.len(),
    {
        let mut m: usize = 0;
        let mut k: usize = 1;
        while k < src.len()
            invariant
                src@.len() > 0,
                0 <= m < k <= src@.len(),
                forall|j: int| 0 <= j < k ==> !(#[trigger] src@[j]).spec_before(src@[m as int]),
            decreases src.len() - k,
        {
            if src[k].before(&src[m]) {
                proof {
                    assert forall|j: int| 0 <= j < k + 1 implies !(#[trigger] src@[j]).spec_before(
                        src@[k as int],
                    ) by {
                        if j < k && src@[j].spec_before(src@[k as int]) {
                            lemma_before_trans(src@[j], src@[k as int], src@[m as int]);
                        }
                    }
                }
                m = k;
            }
            k = k + 1;
        }
        let ghost src0 = src@;
        let ghost out0 = out@;
        let p = src.remove(m);
        out.push(p);
        proof {
            broadcast use vstd::seq_lib::group_to_multiset_ensures;
            broadcast use vstd::multiset::group_multiset_axioms;

            src0.remove_ensures(m as int);
            assert(src0.contains(p)) by {
                assert(src0[m as int] == p);
            }
            assert(src0.to_multiset().count(p) > 0);
            assert(src@.to_multiset() =~= src0.to_multiset().remove(p));
            assert(out@ == out0.push(p));
            assert(out@.to_multiset() =~= out0.to_multiset().insert(p));
            assert(out@.to_multiset().add(src@.to_multiset()) =~= out0.to_multiset().add(
                src0.to_multiset(),
            ));
            assert forall|i: int| 0 <= i < out@.len() - 1 implies !(#[trigger] out@[i
                + 1]).spec_before(out@[i]) by {
                if i + 1 == out@.len() - 1 {
                    assert(out@[i + 1] == p && out@[i] == out0[i]);
                }
            }
            assert forall|i: int, j: int|
                0 <= i < out@.len() && 0 <= j < src@.len() implies !(
            #[trigger] src@[j]).spec_before(#[trigger] out@[i]) by {
                let q = if j < m {
                    src0[j]
                } else {
                    src0[j + 1]
                };
                assert(src@[j] == q);
                if i < out@.len() - 1 {
                    assert(out@[i] == out0[i]);
                    assert(!q.spec_before(out0[i]));
                } else {
                    assert(out@[i] == p);
                    assert(!q.spec_before(src0[m as int]));
                }
            }
        }
    }
    out
}

/// Whether the points are strictly ascending by (date, hour): the order the
/// price queue requires of merged data.
pub fn is_time_ascending(prices: &Vec<PricePoint>) -> (r: bool)
    ensures
        r == time_ascending(prices@),
{
    let mut i: usize = 0;
    if prices.len() == 0 {
        return true;
    }
    while i < prices.len() - 1
        invariant
            prices@.len() > 0,
            0 <= i <= prices@.len() - 1,
            forall|j: int| 0 <= j < i ==> (#[trigger] prices@[j]).spec_before(prices@[j + 1]),
        decreases prices@.len() - i,
    {
        if !prices[i].before(&prices[i + 1]) {
            return false;
        }
        i = i + 1;
    }
    true
}

} // verus!
