use vstd::prelude::*;

use crate::decimal::{IntError, decimal, is_digit, lemma_decimal, lemma_parse_decimal, parse_u64_range, parse_u64_spec};
use crate::pattern::{compile_pattern, pattern_captures, regex_captures, regex_is_valid};
use crate::text::{
    bounds_within, chars_of, free_of, lemma_split_on_extend, lemma_split_on_separator, line_bounds,
    lines_of, pieces_of, split_bounds, split_on,
};

verus! {

/// The pattern that finds the total length in ffmpeg's report on a file.
pub const DURATION_PATTERN: &'static str = "Duration: ([0-9:\\.]*), start:.*bitrate:";

/// The pattern that finds the end and the length of a silence in the report
/// of ffmpeg's `silencedetect` filter.
pub const SILENCE_PATTERN: &'static str =
    "\\[silencedetect.*?silence_end: (?P<silence_end>.*?) \\| silence_duration: (?P<silence_duration>.*)";

/// Group `k` of a list of capture groups: its text, or `None` where it took
/// no part in the match or the list has no such group.
pub open spec fn group_of(groups: Seq<Option<Seq<char>>>, k: int) -> Option<Seq<char>> {
    if 0 <= k < groups.len() {
        groups[k]
    } else {
        None
    }
}

/// The text of capture group `k` where `pattern` matches `haystack`.
pub open spec fn captured_group(pattern: Seq<char>, haystack: Seq<char>, k: int) -> Option<
    Seq<char>,
> {
    if regex_is_valid(pattern) {
        match regex_captures(pattern, haystack) {
            Some(groups) => group_of(groups, k),
            None => None,
        }
    } else {
        None
    }
}

/// The text of group `k` in `groups`, the capture groups of a match.
pub fn group_text(groups: &Vec<Option<String>>, k: usize) -> (r: Option<String>)
    ensures
        r.deep_view() == group_of(groups.deep_view(), k as int),
{
    if k < groups.len() {
        match &groups[k] {
            Some(text) => Some(text.clone()),
            None => None,
        }
    } else {
        None
    }
}

/// The total length that ffmpeg reports, as text (`HH:MM:SS.ff`): the first
/// group of `DURATION_PATTERN` in `output`. Where the pattern does not
/// compile or the group took no part in the match, the result is `None`.
pub fn get_duration_from_output(output: &str) -> (r: Option<String>)
    ensures
        r.deep_view() == captured_group(DURATION_PATTERN@, output@, 1),
{
    let pattern = match compile_pattern(DURATION_PATTERN) {
        Some(p) => p,
        None => return None,
    };
    match pattern_captures(&pattern, output) {
        Some(groups) => group_text(&groups, 1),
        None => None,
    }
}

/// The end and length texts that the capture groups of a silence report
/// line hold: groups 1 and 2, where both took part in the match.
pub open spec fn silence_of_groups(groups: Seq<Option<Seq<char>>>) -> Option<
    (Seq<char>, Seq<char>),
> {
    match (group_of(groups, 1), group_of(groups, 2)) {
        (Some(end), Some(length)) => Some((end, length)),
        _ => None,
    }
}

/// The end and length texts of the silence that one report line announces.
pub open spec fn silence_of_line(line: Seq<char>) -> Option<(Seq<char>, Seq<char>)> {
    if regex_is_valid(SILENCE_PATTERN@) {
        match regex_captures(SILENCE_PATTERN@, line) {
            Some(groups) => silence_of_groups(groups),
            None => None,
        }
    } else {
        None
    }
}

/// The end and length texts that `groups`, the capture groups of a silence
/// report line, hold.
pub fn silence_from_groups(groups: &Vec<Option<String>>) -> (r: Option<(String, String)>)
    ensures
        r.deep_view() == silence_of_groups(groups.deep_view()),
{
    match (group_text(groups, 1), group_text(groups, 2)) {
        (Some(end), Some(length)) => Some((end, length)),
        _ => None,
    }
}

/// The silences announced by `lines`, in order.
pub open spec fn silences_of(lines: Seq<Seq<char>>) -> Seq<(Seq<char>, Seq<char>)>
    decreases lines.len(),
{
    if lines.len() == 0 {
        Seq::empty()
    } else {
        let prev = silences_of(lines.drop_last());
        match silence_of_line(lines.last()) {
            Some(s) => prev.push(s),
            None => prev,
        }
    }
}

/// For each line of the `silencedetect` report `output` that announces a
/// silence, the texts of its end and of its length, in seconds. A line on
/// which either group took no part in the match is passed over, and so is
/// every line where the pattern does not compile.
pub fn silence_fields(output: &str) -> (r: Vec<(String, String)>)
    ensures
        r.deep_view() == silences_of(lines_of(output@)),
{
    let mut found: Vec<(String, String)> = Vec::new();
    let chars = chars_of(output);
    let lines = line_bounds(&chars);
    let ghost ls = lines_of(output@);
    let pattern = compile_pattern(SILENCE_PATTERN);
    let mut k: usize = 0;
    while k < lines.len()
        invariant
            k <= lines@.len(),
            chars@ == output@,
            bounds_within(lines@, chars@.len()),
            pieces_of(chars@, lines@) == ls,
            pattern is Some <==> regex_is_valid(SILENCE_PATTERN@),
            pattern matches Some(p) ==> p@ == SILENCE_PATTERN@,
            found.deep_view() == silences_of(ls.take(k as int)),
        decreases lines@.len() - k,
    {
        let (from, to) = lines[k];
        assert(lines@[k as int].0 <= lines@[k as int].1 <= chars@.len());
        let ghost line = ls[k as int];
        assert(ls.take(k + 1).drop_last() == ls.take(k as int));
        assert(ls.take(k + 1).last() == line);
        if let Some(p) = &pattern {
            let text = output.substring_char(from, to);
            assert(text@ == line);
            if let Some(groups) = pattern_captures(p, text) {
                if let Some(found_one) = silence_from_groups(&groups) {
                    let ghost old_found = found.deep_view();
                    found.push(found_one);
                    assert(found.deep_view() == old_found.push(found_one.deep_view()));
                }
            }
        }
        k = k + 1;
    }
    assert(ls.take(lines@.len() as int) == ls);
    found
}

/// Why the length text of an audio file was refused.
#[derive(Clone, Copy, Debug, PartialEq, Eq, Structural)]
pub enum ClockError {
    /// The text holds no field, or more than four, separated by `:`.
    WrongFieldCount,
    /// A field before the seconds is not a number that fits in a `u64`.
    InvalidNumber(IntError),
}

/// The seconds that one unit of each field but the last stands for, by
/// the number of fields: minutes, hours and minutes, or (with the first
/// field counted as hours too) days, hours and minutes.
pub open spec fn clock_weights(count: nat) -> Seq<nat> {
    if count == 2 {
        seq![60]
    } else if count == 3 {
        seq![3600, 60]
    } else if count == 4 {
        seq![3600, 3600, 60]
    } else {
        seq![]
    }
}

/// The outcome of reading the first `k` of `fields` with their `weights`,
/// from the left: the weighted values, a refusal, or `None` where a weighted
/// value leaves the `u64` range before a field is refused.
pub open spec fn weighted_fields(fields: Seq<Seq<char>>, weights: Seq<nat>, k: nat) -> Option<
    Result<Seq<u64>, ClockError>,
>
    decreases k,
{
    if k == 0 {
        Some(Ok(Seq::empty()))
    } else {
        match weighted_fields(fields, weights, (k - 1) as nat) {
            Some(Ok(terms)) => match parse_u64_spec(fields[k - 1]) {
                Err(e) => Some(Err(ClockError::InvalidNumber(e))),
                Ok(v) => if v * weights[k - 1] > u64::MAX {
                    None
                } else {
                    Some(Ok(terms.push((v * weights[k - 1]) as u64)))
                },
            },
            other => other,
        }
    }
}

/// The outcome of reading the length text `s` (`[[[D:]H:]M:]S`): the
/// seconds of each field but the last, in order, and the text of the last
/// field; a refusal; or `None` where a product leaves the `u64` range.
pub open spec fn clock_outcome(s: Seq<char>) -> Option<Result<(Seq<u64>, Seq<char>), ClockError>> {
    let t = split_on(s, seq![':']);
    if t.len() < 1 || t.len() > 4 {
        Some(Err(ClockError::WrongFieldCount))
    } else {
        match weighted_fields(t, clock_weights(t.len()), (t.len() - 1) as nat) {
            None => None,
            Some(Err(e)) => Some(Err(e)),
            Some(Ok(terms)) => Some(Ok((terms, t.last()))),
        }
    }
}

/// The parts of a length text: the seconds that each field but the last
/// stands for, in order, and the text of the seconds field.
pub struct ClockFields {
    pub terms: Vec<u64>,
    pub seconds: String,
}

fn clock_outcome_of(duration: &str) -> (r: Option<Result<ClockFields, ClockError>>)
    ensures
        match clock_outcome(duration@) {
            None => r is None,
            Some(Ok((terms, seconds))) => r matches Some(Ok(f)) && f.terms@ == terms
                && f.seconds@ == seconds,
            Some(Err(e)) => r matches Some(Err(e2)) && e2 == e,
        },
{
    let chars = chars_of(duration);
    let colon = vec![':'];
    let bounds = split_bounds(&chars, colon.as_slice());
    let ghost t = split_on(chars@, colon@);
    assert(colon@ == seq![':']);
    assert(chars@ == duration@);
    let n = bounds.len();
    if n < 1 || n > 4 {
        return Some(Err(ClockError::WrongFieldCount));
    }
    let weights: Vec<u64> = if n == 2 {
        vec![60]
    } else if n == 3 {
        vec![3600, 60]
    } else if n == 4 {
        vec![3600, 3600, 60]
    } else {
        vec![]
    };
    let ghost w = clock_weights(n as nat);
    assert(weights@.len() == w.len() == n - 1);
    assert(forall|j: int| 0 <= j < w.len() ==> weights@[j] == #[trigger] w[j]);
    let mut terms: Vec<u64> = Vec::new();
    let mut k: usize = 0;
    while k + 1 < n
        invariant
            n == bounds@.len() == t.len(),
            chars@ == duration@,
            t == split_on(duration@, seq![':']),
            1 <= n <= 4,
            k + 1 <= n,
            bounds_within(bounds@, chars@.len()),
            pieces_of(chars@, bounds@) == t,
            weights@.len() == w.len() == n - 1,
            w == clock_weights(n as nat),
            forall|j: int| 0 <= j < w.len() ==> weights@[j] == #[trigger] w[j],
            weighted_fields(t, w, k as nat) == Some(Ok::<Seq<u64>, ClockError>(terms@)),
        decreases n - k,
    {
        let (from, to) = bounds[k];
        assert(bounds@[k as int].0 <= bounds@[k as int].1 <= chars@.len());
        assert(t[k as int] == chars@.subrange(from as int, to as int));
        let v = match parse_u64_range(&chars, from, to) {
            Err(e) => {
                assert(weighted_fields(t, w, (k + 1) as nat) == Some(
                    Err::<Seq<u64>, ClockError>(ClockError::InvalidNumber(e)),
                ));
                assert(clock_outcome(duration@) == Some(
                    Err::<(Seq<u64>, Seq<char>), ClockError>(ClockError::InvalidNumber(e)),
                )) by {
                    lemma_weighted_fields_stuck(t, w, (k + 1) as nat, (n - 1) as nat);
                }
                return Some(Err(ClockError::InvalidNumber(e)));
            },
            Ok(v) => v,
        };
        let weight = weights[k];
        if v > 0 && weight > u64::MAX / v {
            assert(v * weight > u64::MAX) by (nonlinear_arith)
                requires
                    v > 0,
                    weight > u64::MAX / v,
            ;
            assert(weighted_fields(t, w, (k + 1) as nat) is None);
            assert(clock_outcome(duration@) is None) by {
                lemma_weighted_fields_stuck(t, w, (k + 1) as nat, (n - 1) as nat);
            }
            return None;
        }
        assert(v * weight <= u64::MAX) by (nonlinear_arith)
            requires
                v == 0 || weight <= u64::MAX / v,
        ;
        terms.push(v * weight);
        k = k + 1;
    }
    let (from, to) = bounds[n - 1];
    assert(bounds@[n - 1].0 <= bounds@[n - 1].1 <= chars@.len());
    assert(t.last() == chars@.subrange(from as int, to as int));
    let seconds = String::from_str(duration.substring_char(from, to));
    Some(Ok(ClockFields { terms, seconds }))
}

/// Once reading fields stops on a refusal or an overflow, reading more of
/// them keeps that outcome.
proof fn lemma_weighted_fields_stuck(
    fields: Seq<Seq<char>>,
    weights: Seq<nat>,
    k: nat,
    m: nat,
)
    requires
        k <= m,
        !(weighted_fields(fields, weights, k) matches Some(Ok(_))),
    ensures
        weighted_fields(fields, weights, m) == weighted_fields(fields, weights, k),
    decreases m - k,
{
    if k < m {
        lemma_weighted_fields_stuck(fields, weights, k, (m - 1) as nat);
    }
}

/// Whether reading the length text `duration` would leave the `u64` range:
/// the inputs on which `clock_fields` cannot be called.
pub fn clock_overflows(duration: &str) -> (b: bool)
    ensures
        b == (clock_outcome(duration@) is None),
{
    clock_outcome_of(duration).is_none()
}

/// Splits the length text `duration` (`[[[D:]H:]M:]S`) into the seconds
/// that each field but the last stands for, and the seconds text.
pub fn clock_fields(duration: &str) -> (r: Result<ClockFields, ClockError>)
    requires
        clock_outcome(duration@) is Some,
    ensures
        match clock_outcome(duration@) {
            Some(Ok((terms, seconds))) => r matches Ok(f) && f.terms@ == terms && f.seconds@
                == seconds,
            Some(Err(e)) => r matches Err(e2) && e2 == e,
            None => false,
        },
{
    match clock_outcome_of(duration) {
        Some(r) => r,
        None => Err(ClockError::WrongFieldCount),
    }
}

proof fn lemma_decimal_free_of_colon(n: nat)
    ensures
        free_of(decimal(n), seq![':']),
{
    lemma_decimal(n);
    let d = decimal(n);
    assert forall|i: int| 0 <= i < d.len() implies !seq![':'].contains(#[trigger] d[i]) by {
        assert(is_digit(d[i]));
        if seq![':'].contains(d[i]) {
            assert(seq![':'][0] == d[i]);
        }
    }
}

/// A length text `h:m:<seconds>` written with decimal hours and minutes
/// reads back as the seconds of the hours and of the minutes, and the
/// seconds text.
pub proof fn lemma_read_written_clock(h: u64, m: u64, seconds: Seq<char>)
    requires
        h * 3600 <= u64::MAX,
        m * 60 <= u64::MAX,
        free_of(seconds, seq![':']),
    ensures
        clock_outcome(decimal(h as nat) + seq![':'] + decimal(m as nat) + seq![':'] + seconds)
            == Some(
            Ok::<(Seq<u64>, Seq<char>), ClockError>(
                (seq![(h * 3600) as u64, (m * 60) as u64], seconds),
            ),
        ),
{
    let seps = seq![':'];
    let dh = decimal(h as nat);
    let dm = decimal(m as nat);
    lemma_decimal_free_of_colon(h as nat);
    lemma_decimal_free_of_colon(m as nat);
    assert(seps.contains(':')) by {
        assert(seps[0] == ':');
    }
    let e = Seq::<char>::empty();
    lemma_split_on_extend(e, dh, seps);
    assert(e + dh == dh);
    let a1 = dh.push(':');
    lemma_split_on_separator(dh, ':', seps);
    lemma_split_on_extend(a1, dm, seps);
    let a2 = (a1 + dm).push(':');
    lemma_split_on_separator(a1 + dm, ':', seps);
    lemma_split_on_extend(a2, seconds, seps);
    let text = decimal(h as nat) + seq![':'] + decimal(m as nat) + seq![':'] + seconds;
    assert(text == a2 + seconds);
    let t = split_on(text, seps);
    assert(t == seq![dh, dm, seconds]);
    lemma_parse_decimal(h);
    lemma_parse_decimal(m);
    let w = clock_weights(3);
    assert(w[0] == 3600 && w[1] == 60);
    assert(t[0] == dh && t[1] == dm && t.len() == 3);
    assert(weighted_fields(t, w, 0) == Some(Ok::<Seq<u64>, ClockError>(Seq::empty())));
    assert(Seq::<u64>::empty().push((h * 3600) as u64) == seq![(h * 3600) as u64]);
    assert(seq![(h * 3600) as u64].push((m * 60) as u64) == seq![(h * 3600) as u64, (m * 60) as u64]);
    assert(weighted_fields(t, w, 1) == Some(Ok::<Seq<u64>, ClockError>(seq![(h * 3600) as u64])));
    assert(weighted_fields(t, w, 2) == Some(
        Ok::<Seq<u64>, ClockError>(seq![(h * 3600) as u64, (m * 60) as u64]),
    ));
}

} // verus!
