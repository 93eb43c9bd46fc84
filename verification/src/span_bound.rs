use vstd::prelude::*;

use crate::decimal::{digit_value, is_digit};
use crate::duration::max_duration_nanos;
use crate::text::{chars_equal, chars_of};

verus! {

/// A letter that `humantime` reads as part of a unit name.
pub open spec fn is_unit_letter(c: char) -> bool {
    ('a' <= c <= 'z') || ('A' <= c <= 'Z') || c == '\u{b5}'
}

/// The names `humantime` gives the nanosecond.
pub open spec fn is_nanosecond_name(w: Seq<char>) -> bool {
    ||| w == seq!['n', 'a', 'n', 'o', 's']
    ||| w == seq!['n', 's', 'e', 'c']
    ||| w == seq!['n', 's']
}

/// The names `humantime` gives the microsecond.
pub open spec fn is_microsecond_name(w: Seq<char>) -> bool {
    ||| w == seq!['u', 's', 'e', 'c']
    ||| w == seq!['u', 's']
    ||| w == seq!['\u{b5}', 's']
}

/// The names `humantime` gives the millisecond.
pub open spec fn is_millisecond_name(w: Seq<char>) -> bool {
    ||| w == seq!['m', 'i', 'l', 'l', 'i', 's']
    ||| w == seq!['m', 's', 'e', 'c']
    ||| w == seq!['m', 's']
}

/// The names `humantime` gives the second.
pub open spec fn is_second_name(w: Seq<char>) -> bool {
    ||| w == seq!['s', 'e', 'c', 'o', 'n', 'd', 's']
    ||| w == seq!['s', 'e', 'c', 'o', 'n', 'd']
    ||| w == seq!['s', 'e', 'c', 's']
    ||| w == seq!['s', 'e', 'c']
    ||| w == seq!['s']
}

/// The names `humantime` gives the minute.
pub open spec fn is_minute_name(w: Seq<char>) -> bool {
    ||| w == seq!['m', 'i', 'n', 'u', 't', 'e', 's']
    ||| w == seq!['m', 'i', 'n', 'u', 't', 'e']
    ||| w == seq!['m', 'i', 'n']
    ||| w == seq!['m', 'i', 'n', 's']
    ||| w == seq!['m']
}

/// The names `humantime` gives the hour.
pub open spec fn is_hour_name(w: Seq<char>) -> bool {
    ||| w == seq!['h', 'o', 'u', 'r', 's']
    ||| w == seq!['h', 'o', 'u', 'r']
    ||| w == seq!['h', 'r']
    ||| w == seq!['h', 'r', 's']
    ||| w == seq!['h']
}

/// The names `humantime` gives the day.
pub open spec fn is_day_name(w: Seq<char>) -> bool {
    ||| w == seq!['d', 'a', 'y', 's']
    ||| w == seq!['d', 'a', 'y']
    ||| w == seq!['d']
}

/// The names `humantime` gives the week.
pub open spec fn is_week_name(w: Seq<char>) -> bool {
    ||| w == seq!['w', 'e', 'e', 'k', 's']
    ||| w == seq!['w', 'e', 'e', 'k']
    ||| w == seq!['w', 'k']
    ||| w == seq!['w', 'k', 's']
    ||| w == seq!['w']
}

/// The names `humantime` gives the month.
pub open spec fn is_month_name(w: Seq<char>) -> bool {
    ||| w == seq!['m', 'o', 'n', 't', 'h', 's']
    ||| w == seq!['m', 'o', 'n', 't', 'h']
    ||| w == seq!['M']
}

/// The names `humantime` gives the year.
pub open spec fn is_year_name(w: Seq<char>) -> bool {
    ||| w == seq!['y', 'e', 'a', 'r', 's']
    ||| w == seq!['y', 'e', 'a', 'r']
    ||| w == seq!['y', 'r']
    ||| w == seq!['y', 'r', 's']
    ||| w == seq!['y']
}

/// What `humantime` makes of a unit name: the factor it multiplies the
/// integer part by (in its own unit: nanoseconds below the second, seconds
/// from the second on) and the nanoseconds in one unit; `None` for a name it
/// does not know.
pub open spec fn unit_of(w: Seq<char>) -> Option<(nat, nat)> {
    if is_nanosecond_name(w) {
        Some((1, 1))
    } else if is_microsecond_name(w) {
        Some((1000, 1000))
    } else if is_millisecond_name(w) {
        Some((1000000, 1000000))
    } else if is_second_name(w) {
        Some((1, 1000000000))
    } else if is_minute_name(w) {
        Some((60, 60000000000))
    } else if is_hour_name(w) {
        Some((3600, 3600000000000))
    } else if is_day_name(w) {
        Some((86400, 86400000000000))
    } else if is_week_name(w) {
        Some((604800, 604800000000000))
    } else if is_month_name(w) {
        Some((2630016, 2630016000000000))
    } else if is_year_name(w) {
        Some((31557600, 31557600000000000))
    } else {
        None
    }
}

fn nanosecond_name(w: &Vec<char>) -> (b: bool)
    ensures
        b == is_nanosecond_name(w@),
{
    let mut found = false;
    let lit = vec!['n', 'a', 'n', 'o', 's'];
    assert(lit@ =~= seq!['n', 'a', 'n', 'o', 's']);
    found = found || chars_equal(w, &lit);
    let lit = vec!['n', 's', 'e', 'c'];
    assert(lit@ =~= seq!['n', 's', 'e', 'c']);
    found = found || chars_equal(w, &lit);
    let lit = vec!['n', 's'];
    assert(lit@ =~= seq!['n', 's']);
    found = found || chars_equal(w, &lit);
    found
}

fn microsecond_name(w: &Vec<char>) -> (b: bool)
    ensures
        b == is_microsecond_name(w@),
{
    let mut found = false;
    let lit = vec!['u', 's', 'e', 'c'];
    assert(lit@ =~= seq!['u', 's', 'e', 'c']);
    found = found || chars_equal(w, &lit);
    let lit = vec!['u', 's'];
    assert(lit@ =~= seq!['u', 's']);
    found = found || chars_equal(w, &lit);
    let lit = vec!['\u{b5}', 's'];
    assert(lit@ =~= seq!['\u{b5}', 's']);
    found = found || chars_equal(w, &lit);
    found
}

fn millisecond_name(w: &Vec<char>) -> (b: bool)
    ensures
        b == is_millisecond_name(w@),
{
    let mut found = false;
    let lit = vec!['m', 'i', 'l', 'l', 'i', 's'];
    assert(lit@ =~= seq!['m', 'i', 'l', 'l', 'i', 's']);
    found = found || chars_equal(w, &lit);
    let lit = vec!['m', 's', 'e', 'c'];
    assert(lit@ =~= seq!['m', 's', 'e', 'c']);
    found = found || chars_equal(w, &lit);
    let lit = vec!['m', 's'];
    assert(lit@ =~= seq!['m', 's']);
    found = found || chars_equal(w, &lit);
    found
}

fn second_name(w: &Vec<char>) -> (b: bool)
    ensures
        b == is_second_name(w@),
{
    let mut found = false;
    let lit = vec!['s', 'e', 'c', 'o', 'n', 'd', 's'];
    assert(lit@ =~= seq!['s', 'e', 'c', 'o', 'n', 'd', 's']);
    found = found || chars_equal(w, &lit);
    let lit = vec!['s', 'e', 'c', 'o', 'n', 'd'];
    assert(lit@ =~= seq!['s', 'e', 'c', 'o', 'n', 'd']);
    found = found || chars_equal(w, &lit);
    let lit = vec!['s', 'e', 'c', 's'];
    assert(lit@ =~= seq!['s', 'e', 'c', 's']);
    found = found || chars_equal(w, &lit);
    let lit = vec!['s', 'e', 'c'];
    assert(lit@ =~= seq!['s', 'e', 'c']);
    found = found || chars_equal(w, &lit);
    let lit = vec!['s'];
    assert(lit@ =~= seq!['s']);
    found = found || chars_equal(w, &lit);
    found
}

fn minute_name(w: &Vec<char>) -> (b: bool)
    ensures
        b == is_minute_name(w@),
{
    let mut found = false;
    let lit = vec!['m', 'i', 'n', 'u', 't', 'e', 's'];
    assert(lit@ =~= seq!['m', 'i', 'n', 'u', 't', 'e', 's']);
    found = found || chars_equal(w, &lit);
    let lit = vec!['m', 'i', 'n', 'u', 't', 'e'];
    assert(lit@ =~= seq!['m', 'i', 'n', 'u', 't', 'e']);
    found = found || chars_equal(w, &lit);
    let lit = vec!['m', 'i', 'n'];
    assert(lit@ =~= seq!['m', 'i', 'n']);
    found = found || chars_equal(w, &lit);
    let lit = vec!['m', 'i', 'n', 's'];
    assert(lit@ =~= seq!['m', 'i', 'n', 's']);
    found = found || chars_equal(w, &lit);
    let lit = vec!['m'];
    assert(lit@ =~= seq!['m']);
    found = found || chars_equal(w, &lit);
    found
}

fn hour_name(w: &Vec<char>) -> (b: bool)
    ensures
        b == is_hour_name(w@),
{
    let mut found = false;
    let lit = vec!['h', 'o', 'u', 'r', 's'];
    assert(lit@ =~= seq!['h', 'o', 'u', 'r', 's']);
    found = found || chars_equal(w, &lit);
    let lit = vec!['h', 'o', 'u', 'r'];
    assert(lit@ =~= seq!['h', 'o', 'u', 'r']);
    found = found || chars_equal(w, &lit);
    let lit = vec!['h', 'r'];
    assert(lit@ =~= seq!['h', 'r']);
    found = found || chars_equal(w, &lit);
    let lit = vec!['h', 'r', 's'];
    assert(lit@ =~= seq!['h', 'r', 's']);
    found = found || chars_equal(w, &lit);
    let lit = vec!['h'];
    assert(lit@ =~= seq!['h']);
    found = found || chars_equal(w, &lit);
    found
}

fn day_name(w: &Vec<char>) -> (b: bool)
    ensures
        b == is_day_name(w@),
{
    let mut found = false;
    let lit = vec!['d', 'a', 'y', 's'];
    assert(lit@ =~= seq!['d', 'a', 'y', 's']);
    found = found || chars_equal(w, &lit);
    let lit = vec!['d', 'a', 'y'];
    assert(lit@ =~= seq!['d', 'a', 'y']);
    found = found || chars_equal(w, &lit);
    let lit = vec!['d'];
    assert(lit@ =~= seq!['d']);
    found = found || chars_equal(w, &lit);
    found
}

fn week_name(w: &Vec<char>) -> (b: bool)
    ensures
        b == is_week_name(w@),
{
    let mut found = false;
    let lit = vec!['w', 'e', 'e', 'k', 's'];
    assert(lit@ =~= seq!['w', 'e', 'e', 'k', 's']);
    found = found || chars_equal(w, &lit);
    let lit = vec!['w', 'e', 'e', 'k'];
    assert(lit@ =~= seq!['w', 'e', 'e', 'k']);
    found = found || chars_equal(w, &lit);
    let lit = vec!['w', 'k'];
    assert(lit@ =~= seq!['w', 'k']);
    found = found || chars_equal(w, &lit);
    let lit = vec!['w', 'k', 's'];
    assert(lit@ =~= seq!['w', 'k', 's']);
    found = found || chars_equal(w, &lit);
    let lit = vec!['w'];
    assert(lit@ =~= seq!['w']);
    found = found || chars_equal(w, &lit);
    found
}

fn month_name(w: &Vec<char>) -> (b: bool)
    ensures
        b == is_month_name(w@),
{
    let mut found = false;
    let lit = vec!['m', 'o', 'n', 't', 'h', 's'];
    assert(lit@ =~= seq!['m', 'o', 'n', 't', 'h', 's']);
    found = found || chars_equal(w, &lit);
    let lit = vec!['m', 'o', 'n', 't', 'h'];
    assert(lit@ =~= seq!['m', 'o', 'n', 't', 'h']);
    found = found || chars_equal(w, &lit);
    let lit = vec!['M'];
    assert(lit@ =~= seq!['M']);
    found = found || chars_equal(w, &lit);
    found
}

fn year_name(w: &Vec<char>) -> (b: bool)
    ensures
        b == is_year_name(w@),
{
    let mut found = false;
    let lit = vec!['y', 'e', 'a', 'r', 's'];
    assert(lit@ =~= seq!['y', 'e', 'a', 'r', 's']);
    found = found || chars_equal(w, &lit);
    let lit = vec!['y', 'e', 'a', 'r'];
    assert(lit@ =~= seq!['y', 'e', 'a', 'r']);
    found = found || chars_equal(w, &lit);
    let lit = vec!['y', 'r'];
    assert(lit@ =~= seq!['y', 'r']);
    found = found || chars_equal(w, &lit);
    let lit = vec!['y', 'r', 's'];
    assert(lit@ =~= seq!['y', 'r', 's']);
    found = found || chars_equal(w, &lit);
    let lit = vec!['y'];
    assert(lit@ =~= seq!['y']);
    found = found || chars_equal(w, &lit);
    found
}

fn unit_of_exec(w: &Vec<char>) -> (r: Option<(u64, u128)>)
    ensures
        match unit_of(w@) {
            Some((f, u)) => r == Some((f as u64, u as u128)),
            None => r is None,
        },
{
    if nanosecond_name(w) {
        Some((1, 1))
    } else if microsecond_name(w) {
        Some((1000, 1000))
    } else if millisecond_name(w) {
        Some((1000000, 1000000))
    } else if second_name(w) {
        Some((1, 1000000000))
    } else if minute_name(w) {
        Some((60, 60000000000))
    } else if hour_name(w) {
        Some((3600, 3600000000000))
    } else if day_name(w) {
        Some((86400, 86400000000000))
    } else if week_name(w) {
        Some((604800, 604800000000000))
    } else if month_name(w) {
        Some((2630016, 2630016000000000))
    } else if year_name(w) {
        Some((31557600, 31557600000000000))
    } else {
        None
    }
}

/// The state of the bound while reading a span text: the nanoseconds of the
/// spans closed so far, the integer part of the span under way, whether its
/// fraction is being read, the letters of its unit so far, and whether
/// reading has reached a point where `humantime` refuses the text before it
/// adds anything more.
pub type SpanState = (nat, nat, bool, Seq<char>, bool);

/// Closes the span under way, if its unit has begun: an unknown unit name,
/// or an integer part that the unit's factor takes past `u64::MAX`, is
/// refused before anything is added; else the span counts its integer part
/// in units, and one unit more where a fraction was read.
pub open spec fn close_span(st: SpanState) -> SpanState {
    if st.4 || st.3.len() == 0 {
        st
    } else {
        match unit_of(st.3) {
            None => (st.0, st.1, st.2, st.3, true),
            Some((f, u)) => if st.1 * f > u64::MAX {
                (st.0, st.1, st.2, st.3, true)
            } else {
                (
                    st.0 + st.1 * u + if st.2 {
                        u
                    } else {
                        0
                    },
                    0,
                    false,
                    Seq::empty(),
                    false,
                )
            },
        }
    }
}

/// One character more: letters make up a unit name, anything else ends it;
/// digits outside a fraction make up the integer part, which `humantime`
/// refuses once it passes `u64::MAX`; `.` opens the fraction.
pub open spec fn span_step(st: SpanState, c: char) -> SpanState {
    if st.4 {
        st
    } else if is_unit_letter(c) {
        (st.0, st.1, st.2, st.3.push(c), false)
    } else {
        let t = close_span(st);
        if t.4 {
            t
        } else if is_digit(c) {
            if t.2 {
                t
            } else if t.1 * 10 + digit_value(c) > u64::MAX {
                (t.0, t.1, t.2, t.3, true)
            } else {
                (t.0, t.1 * 10 + digit_value(c), t.2, t.3, false)
            }
        } else if c == '.' {
            (t.0, t.1, true, t.3, false)
        } else {
            t
        }
    }
}

pub open spec fn span_state(s: Seq<char>) -> SpanState
    decreases s.len(),
{
    if s.len() == 0 {
        (0, 0, false, Seq::empty(), false)
    } else {
        span_step(span_state(s.drop_last()), s.last())
    }
}

/// An upper bound on the nanoseconds that `humantime::parse_duration` adds
/// up while reading `text`, up to where it returns or refuses the text: each
/// span counts its integer part (the digits before its unit or its `.`, with
/// whatever stands between them but letters and `.`) times its unit, and one
/// unit more where a fraction follows; counting stops at the first span
/// whose integer part, or its product with the unit's factor, leaves `u64`,
/// or whose unit name is unknown, since the text is refused there.
pub open spec fn human_duration_load(text: Seq<char>) -> nat {
    close_span(span_state(text)).0
}

/// The texts on which `humantime::parse_duration` surely does not panic:
/// the sum it builds never passes the largest `Duration`, so it never
/// reaches the one sum (`u64::MAX` seconds and a carried second) on which
/// building the `Duration` panics.
pub open spec fn human_duration_fits(text: Seq<char>) -> bool {
    human_duration_load(text) <= max_duration_nanos()
}

proof fn lemma_span_monotone(s: Seq<char>, k: int)
    requires
        0 <= k <= s.len(),
    ensures
        span_state(s.take(k)).0 <= span_state(s).0,
        span_state(s).0 <= human_duration_load(s),
    decreases s.len(),
{
    if k < s.len() {
        assert(s.drop_last().take(k) == s.take(k));
        lemma_span_monotone(s.drop_last(), k);
    } else {
        assert(s.take(k) == s);
    }
}

proof fn lemma_span_stuck(s: Seq<char>, k: int)
    requires
        0 <= k <= s.len(),
        span_state(s.take(k)).4,
    ensures
        span_state(s) == span_state(s.take(k)),
        human_duration_load(s) == span_state(s.take(k)).0,
    decreases s.len() - k,
{
    if k < s.len() {
        assert(s.take(k + 1).drop_last() == s.take(k));
        lemma_span_stuck(s, k + 1);
    } else {
        assert(s.take(k) == s);
    }
}

/// Whether `text` is one on which `humantime::parse_duration` surely does
/// not panic.
pub fn human_duration_in_range(text: &str) -> (b: bool)
    ensures
        b == human_duration_fits(text@),
{
    let chars = chars_of(text);
    let max_nanos: u128 = 18_446_744_073_709_551_615u128 * 1_000_000_000 + 999_999_999;
    assert(max_nanos == max_duration_nanos());
    let mut done: u128 = 0;
    let mut cur: u64 = 0;
    let mut frac = false;
    let mut word: Vec<char> = Vec::new();
    let mut i: usize = 0;
    assert(chars@.take(0) == Seq::<char>::empty());
    while i < chars.len()
        invariant
            i <= chars@.len(),
            chars@ == text@,
            max_nanos == max_duration_nanos(),
            done <= max_nanos,
            !span_state(chars@.take(i as int)).4,
            done == span_state(chars@.take(i as int)).0,
            cur == span_state(chars@.take(i as int)).1,
            frac == span_state(chars@.take(i as int)).2,
            word@ == span_state(chars@.take(i as int)).3,
        decreases chars@.len() - i,
    {
        let c = chars[i];
        let ghost st = span_state(chars@.take(i as int));
        assert(chars@.take(i + 1).drop_last() == chars@.take(i as int));
        assert(chars@.take(i + 1).last() == c);
        if ('a' <= c && c <= 'z') || ('A' <= c && c <= 'Z') || c == '\u{b5}' {
            word.push(c);
        } else {
            if word.len() > 0 {
                match unit_of_exec(&word) {
                    None => {
                        proof {
                            lemma_span_stuck(chars@, i + 1);
                        }
                        return true;
                    },
                    Some((f, u)) => {
                        if cur > u64::MAX / f {
                            assert(cur * f > u64::MAX) by (nonlinear_arith)
                                requires
                                    cur > u64::MAX / f,
                                    f >= 1,
                            ;
                            proof {
                                lemma_span_stuck(chars@, i + 1);
                            }
                            return true;
                        }
                        assert(cur * f <= u64::MAX) by (nonlinear_arith)
                            requires
                                cur <= u64::MAX / f,
                                f >= 1,
                        ;
                        assert(cur * u <= 18_446_744_073_709_551_615 * 31_557_600_000_000_000)
                            by (nonlinear_arith)
                            requires
                                cur <= 18_446_744_073_709_551_615,
                                u <= 31_557_600_000_000_000,
                        ;
                        let extra: u128 = if frac {
                            u
                        } else {
                            0
                        };
                        done = done + cur as u128 * u + extra;
                        cur = 0;
                        frac = false;
                        word = Vec::new();
                        if done > max_nanos {
                            proof {
                                lemma_span_monotone(chars@, i + 1);
                            }
                            return false;
                        }
                    },
                }
            }
            if '0' <= c && c <= '9' {
                if !frac {
                    let digit = (c as u32 - '0' as u32) as u64;
                    if cur > (u64::MAX - digit) / 10 {
                        assert(cur * 10 + digit > u64::MAX) by (nonlinear_arith)
                            requires
                                cur > (u64::MAX - digit) / 10,
                                digit <= 9,
                        ;
                        proof {
                            lemma_span_stuck(chars@, i + 1);
                        }
                        return true;
                    }
                    assert(cur * 10 + digit <= u64::MAX) by (nonlinear_arith)
                        requires
                            cur <= (u64::MAX - digit) / 10,
                            digit <= 9,
                    ;
                    cur = cur * 10 + digit;
                }
            } else if c == '.' {
                frac = true;
            }
        }
        i = i + 1;
    }
    assert(chars@.take(i as int) == chars@);
    if word.len() > 0 {
        match unit_of_exec(&word) {
            None => true,
            Some((f, u)) => {
                if cur > u64::MAX / f {
                    assert(cur * f > u64::MAX) by (nonlinear_arith)
                        requires
                            cur > u64::MAX / f,
                            f >= 1,
                    ;
                    true
                } else {
                    assert(cur * f <= u64::MAX) by (nonlinear_arith)
                        requires
                            cur <= u64::MAX / f,
                            f >= 1,
                    ;
                    assert(cur * u <= 18_446_744_073_709_551_615 * 31_557_600_000_000_000)
                        by (nonlinear_arith)
                        requires
                            cur <= 18_446_744_073_709_551_615,
                            u <= 31_557_600_000_000_000,
                    ;
                    let extra: u128 = if frac {
                        u
                    } else {
                        0
                    };
                    done + cur as u128 * u + extra <= max_nanos
                }
            },
        }
    } else {
        true
    }
}

} // verus!
