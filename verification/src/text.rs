//! Verified text scanning helpers used by the document and job-file parsers.
//!
//! Everything here works on `&str` values through their `Seq<char>` views, so
//! the parsers built on top can state their contracts directly over the text.

use vstd::prelude::*;

verus! {

pub open spec fn is_space(c: char) -> bool {
    c == ' ' || c == '\t' || c == '\n' || c == '\r'
}

pub open spec fn is_digit(c: char) -> bool {
    '0' <= c && c <= '9'
}

pub open spec fn digit_val(c: char) -> int {
    c as int - '0' as int
}

pub open spec fn all_digits(s: Seq<char>) -> bool {
    forall|i: int| 0 <= i < s.len() ==> is_digit(#[trigger] s[i])
}

/// The number written by a digit string, most significant digit first.
pub open spec fn digits_val(s: Seq<char>) -> int
    decreases s.len(),
{
    if s.len() == 0 {
        0
    } else {
        10 * digits_val(s.drop_last()) + digit_val(s.last())
    }
}

/// How many characters at the front of `s` satisfy `p`.
pub open spec fn leading_while(s: Seq<char>, p: spec_fn(char) -> bool) -> int
    decreases s.len(),
{
    if s.len() > 0 && p(s[0]) {
        1 + leading_while(s.drop_first(), p)
    } else {
        0
    }
}

/// How many characters at the back of `s` satisfy `p`.
pub open spec fn trailing_while(s: Seq<char>, p: spec_fn(char) -> bool) -> int
    decreases s.len(),
{
    if s.len() > 0 && p(s.last()) {
        1 + trailing_while(s.drop_last(), p)
    } else {
        0
    }
}

/// `s` with every leading and trailing character satisfying `p` removed.
pub open spec fn strip_while(s: Seq<char>, p: spec_fn(char) -> bool) -> Seq<char> {
    if leading_while(s, p) == s.len() {
        Seq::empty()
    } else {
        s.subrange(leading_while(s, p), s.len() - trailing_while(s, p))
    }
}

pub open spec fn space_pred() -> spec_fn(char) -> bool {
    |c: char| is_space(c)
}

pub open spec fn quote_pred() -> spec_fn(char) -> bool {
    |c: char| c == '"'
}

/// `s` without leading and trailing ASCII whitespace.
pub open spec fn spec_trim(s: Seq<char>) -> Seq<char> {
    strip_while(s, space_pred())
}

/// `s` without leading and trailing double-quote characters.
pub open spec fn spec_strip_quotes(s: Seq<char>) -> Seq<char> {
    strip_while(s, quote_pred())
}

pub proof fn lemma_leading_while_unique(s: Seq<char>, p: spec_fn(char) -> bool, i: int)
    requires
        0 <= i <= s.len(),
        forall|j: int| 0 <= j < i ==> p(#[trigger] s[j]),
        i < s.len() ==> !p(s[i]),
    ensures
        i == leading_while(s, p),
    decreases s.len(),
{
    if s.len() > 0 && p(s[0]) {
        assert(i > 0);
        lemma_leading_while_unique(s.drop_first(), p, i - 1);
    }
}

pub proof fn lemma_trailing_while_unique(s: Seq<char>, p: spec_fn(char) -> bool, t: int)
    requires
        0 <= t <= s.len(),
        forall|j: int| s.len() - t <= j < s.len() ==> p(#[trigger] s[j]),
        t < s.len() ==> !p(s[s.len() - t - 1]),
    ensures
        t == trailing_while(s, p),
    decreases s.len(),
{
    if s.len() > 0 && p(s.last()) {
        assert(t > 0);
        lemma_trailing_while_unique(s.drop_last(), p, t - 1);
    }
}

pub fn char_is_space(c: char) -> (r: bool)
    ensures
        r == is_space(c),
{
    c == ' ' || c == '\t' || c == '\n' || c == '\r'
}

pub fn char_is_digit(c: char) -> (r: bool)
    ensures
        r == is_digit(c),
{
    '0' <= c && c <= '9'
}

pub fn char_digit_val(c: char) -> (r: u8)
    requires
        is_digit(c),
    ensures
        r as int == digit_val(c),
        r <= 9,
{
    (c as u8) - ('0' as u8)
}

/// `s` without leading and trailing ASCII whitespace.
pub fn trim_str<'a>(s: &'a str) -> (r: &'a str)
    ensures
        r@ == spec_trim(s@),
{
    strip_ends(s, true)
}

/// `s` without leading and trailing double quotes.
pub fn strip_quotes_str<'a>(s: &'a str) -> (r: &'a str)
    ensures
        r@ == spec_strip_quotes(s@),
{
    strip_ends(s, false)
}

/// Whether `c` is removed by the chosen stripper: ASCII whitespace when
/// `spaces` is set, a double quote otherwise.
fn strip_target(c: char, spaces: bool) -> (r: bool)
    ensures
        r == (if spaces {
            space_pred()
        } else {
            quote_pred()
        })(c),
{
    if spaces {
        char_is_space(c)
    } else {
        c == '"'
    }
}

/// Removes from both ends the characters matched by the chosen predicate:
/// ASCII whitespace when `spaces` is set, double quotes otherwise.
fn strip_ends<'a>(s: &'a str, spaces: bool) -> (r: &'a str)
    ensures
        r@ == strip_while(s@, if spaces { space_pred() } else { quote_pred() }),
{
    let ghost p = if spaces {
        space_pred()
    } else {
        quote_pred()
    };
    let n = s.unicode_len();
    let mut lo: usize = 0;
    while lo < n && strip_target(s.get_char(lo), spaces)
        invariant
            n == s@.len(),
            p == (if spaces { space_pred() } else { quote_pred() }),
            0 <= lo <= n,
            forall|j: int| 0 <= j < lo ==> p(#[trigger] s@[j]),
        decreases n - lo,
    {
        lo = lo + 1;
    }
    proof {
        lemma_leading_while_unique(s@, p, lo as int);
    }
    if lo == n {
        let r = s.substring_char(0, 0);
        proof {
            assert(r@ =~= strip_while(s@, p));
        }
        return r;
    }
    let mut hi: usize = n;
    while hi > lo && strip_target(s.get_char(hi - 1), spaces)
        invariant
            n == s@.len(),
            p == (if spaces { space_pred() } else { quote_pred() }),
            lo < n,
            lo <= hi <= n,
            !p(s@[lo as int]),
            forall|j: int| hi <= j < n ==> p(#[trigger] s@[j]),
        decreases hi,
    {
        hi = hi - 1;
    }
    proof {
        assert(hi > lo);
        lemma_trailing_while_unique(s@, p, n - hi);
    }
    s.substring_char(lo, hi)
}

/// The first position of `c` in `s` at or after `from`, or the length of `s`
/// when `c` does not occur there.
pub open spec fn spec_find(s: Seq<char>, c: char, from: int) -> int
    decreases s.len() - from,
{
    if !(0 <= from < s.len()) {
        s.len() as int
    } else if s[from] == c {
        from
    } else {
        spec_find(s, c, from + 1)
    }
}

pub proof fn lemma_spec_find(s: Seq<char>, c: char, from: int)
    requires
        0 <= from <= s.len(),
    ensures
        from <= spec_find(s, c, from) <= s.len(),
        spec_find(s, c, from) < s.len() ==> s[spec_find(s, c, from)] == c,
        forall|j: int| from <= j < spec_find(s, c, from) ==> s[j] != c,
    decreases s.len() - from,
{
    if from < s.len() && s[from] != c {
        lemma_spec_find(s, c, from + 1);
    }
}

pub fn find_from(s: &str, c: char, from: usize) -> (r: usize)
    requires
        from <= s@.len(),
    ensures
        r == spec_find(s@, c, from as int),
        from <= r <= s@.len(),
        r < s@.len() ==> s@[r as int] == c,
        forall|j: int| from <= j < r ==> s@[j] != c,
{
    let n = s.unicode_len();
    let mut i: usize = from;
    while i < n && s.get_char(i) != c
        invariant
            n == s@.len(),
            from <= i <= n,
            spec_find(s@, c, from as int) == spec_find(s@, c, i as int),
            forall|j: int| from <= j < i ==> s@[j] != c,
        decreases n - i,
    {
        i = i + 1;
    }
    proof {
        lemma_spec_find(s@, c, i as int);
    }
    i
}

/// Character-for-character string equality.
pub fn str_eq(a: &str, b: &str) -> (r: bool)
    ensures
        r == (a@ == b@),
{
    let na = a.unicode_len();
    let nb = b.unicode_len();
    if na != nb {
        return false;
    }
    let mut i: usize = 0;
    while i < na
        invariant
            na == a@.len(),
            na == b@.len(),
            0 <= i <= na,
            forall|j: int| 0 <= j < i ==> a@[j] == b@[j],
        decreases na - i,
    {
        if a.get_char(i) != b.get_char(i) {
            return false;
        }
        i = i + 1;
    }
    proof {
        assert(a@ =~= b@);
    }
    true
}

/// `a` reads as `b` when ASCII letter case is ignored: either the characters
/// are equal, or `b` is a lowercase ASCII letter and `a` its uppercase form.
pub open spec fn eq_ci(a: char, b: char) -> bool {
    a == b || ('a' <= b && b <= 'z' && a as int + 32 == b as int)
}

/// `s` reads as the word `w` when ASCII letter case is ignored in `s`.
pub open spec fn matches_ci(s: Seq<char>, w: Seq<char>) -> bool {
    s.len() == w.len() && forall|i: int| 0 <= i < w.len() ==> eq_ci(s[i], #[trigger] w[i])
}

pub fn char_eq_ci(a: char, b: char) -> (r: bool)
    ensures
        r == eq_ci(a, b),
{
    if a == b {
        true
    } else if 'a' <= b && b <= 'z' && 'A' <= a && a <= 'Z' {
        (a as u8) + 32 == (b as u8)
    } else {
        false
    }
}

/// Whether `s` reads as the word `w` when ASCII letter case is ignored in `s`.
pub fn word_matches_ci(s: &str, w: &str) -> (r: bool)
    ensures
        r == matches_ci(s@, w@),
{
    let n = s.unicode_len();
    if n != w.unicode_len() {
        return false;
    }
    let mut i: usize = 0;
    while i < n
        invariant
            n == s@.len(),
            n == w@.len(),
            0 <= i <= n,
            forall|j: int| 0 <= j < i ==> eq_ci(s@[j], #[trigger] w@[j]),
        decreases n - i,
    {
        if !char_eq_ci(s.get_char(i), w.get_char(i)) {
            return false;
        }
        i = i + 1;
    }
    true
}

/// The value of an unsigned decimal literal: an optional `+` sign followed by
/// at least one digit.  Mirrors how the standard integer parsers read text,
/// without any bound on the value.
pub open spec fn uint_str_val(s: Seq<char>) -> Option<int> {
    let t = if s.len() > 0 && s[0] == '+' {
        s.drop_first()
    } else {
        s
    };
    if t.len() > 0 && all_digits(t) {
        Some(digits_val(t))
    } else {
        None
    }
}

pub proof fn lemma_digits_val_bounds(s: Seq<char>)
    requires
        all_digits(s),
    ensures
        0 <= digits_val(s),
    decreases s.len(),
{
    if s.len() > 0 {
        assert(all_digits(s.drop_last())) by {
            assert(forall|i: int|
                0 <= i < s.len() - 1 ==> s.drop_last()[i] == #[trigger] s[i] && is_digit(s[i]));
        }
        lemma_digits_val_bounds(s.drop_last());
        assert(is_digit(s.last()));
    }
}

/// Reading more digits never makes the value smaller.
pub proof fn lemma_digits_val_prefix(s: Seq<char>, m: int)
    requires
        all_digits(s),
        0 <= m <= s.len(),
    ensures
        digits_val(s.subrange(0, m)) <= digits_val(s),
    decreases s.len(),
{
    if m == s.len() {
        assert(s.subrange(0, m) =~= s);
    } else {
        assert(all_digits(s.drop_last())) by {
            assert(forall|i: int|
                0 <= i < s.len() - 1 ==> s.drop_last()[i] == #[trigger] s[i] && is_digit(s[i]));
        }
        lemma_digits_val_prefix(s.drop_last(), m);
        assert(s.drop_last().subrange(0, m) =~= s.subrange(0, m));
        lemma_digits_val_bounds(s.drop_last());
        assert(is_digit(s.last()));
    }
}

/// Parses an unsigned decimal with an optional `+` sign, accepting only
/// values up to `max`.  `None` both for text that is not such a literal and
/// for values over `max`, as the standard bounded integer parsers do.
pub fn parse_uint(s: &str, max: u32) -> (r: Option<u32>)
    ensures
        match r {
            Some(v) => uint_str_val(s@) == Some(v as int) && v <= max,
            None => match uint_str_val(s@) {
                Some(v) => v > max,
                None => true,
            },
        },
{
    let n = s.unicode_len();
    let mut i: usize = 0;
    if n > 0 && s.get_char(0) == '+' {
        i = 1;
    }
    let start = i;
    let ghost t = if s@.len() > 0 && s@[0] == '+' {
        s@.drop_first()
    } else {
        s@
    };
    proof {
        assert(t =~= s@.subrange(start as int, n as int));
    }
    if i == n {
        return None;
    }
    let mut acc: u64 = 0;
    while i < n
        invariant
            n == s@.len(),
            start <= i <= n,
            start < n,
            max <= u32::MAX,
            t == s@.subrange(start as int, n as int),
            t == (if s@.len() > 0 && s@[0] == '+' { s@.drop_first() } else { s@ }),
            acc == digits_val(s@.subrange(start as int, i as int)),
            all_digits(s@.subrange(start as int, i as int)),
            acc <= max,
        decreases n - i,
    {
        let c = s.get_char(i);
        if !char_is_digit(c) {
            assert(!all_digits(t)) by {
                assert(t[i - start] == s@[i as int]);
            }
            return None;
        }
        let d = char_digit_val(c);
        proof {
            let pre = s@.subrange(start as int, i as int);
            let cur = s@.subrange(start as int, (i + 1) as int);
            assert(cur.drop_last() =~= pre);
            assert(cur.last() == s@[i as int]);
            assert(forall|j: int|
                0 <= j < cur.len() ==> #[trigger] cur[j] == s@[start + j] && is_digit(cur[j]));
        }
        acc = 10 * acc + (d as u64);
        i = i + 1;
        if acc > max as u64 {
            proof {
                if t.len() > 0 && all_digits(t) {
                    lemma_digits_val_prefix(t, i - start);
                    assert(t.subrange(0, i - start) =~= s@.subrange(start as int, i as int));
                }
            }
            return None;
        }
    }
    proof {
        assert(s@.subrange(start as int, i as int) =~= t);
    }
    Some(acc as u32)
}

} // verus!
