use vstd::prelude::*;

use crate::duration::Duration;
use crate::span_bound::human_duration_fits;

verus! {

/// What `humantime::parse_duration` makes of `text`: the whole seconds and
/// the nanoseconds beyond them, or `None` where it refuses the text.
pub uninterp spec fn human_duration(text: Seq<char>) -> Option<(u64, u32)>;

/// For each item that `chrono::format::StrftimeItems::new(format)` yields,
/// in order, whether it is `Item::Error`.
pub uninterp spec fn strftime_error_flags(format: Seq<char>) -> Seq<bool>;

/// Reads a span like `5 minutes` or `2h 30min` with
/// `humantime::parse_duration`. Trusted: the result is the name
/// `human_duration` of the text, and its nanoseconds stay below a second
/// (as `Duration::subsec_nanos` documents). The call can panic only where
/// its running sum reaches `u64::MAX` seconds and a carried second, which
/// the `requires` rules out by a bound (`human_duration_fits`) that may
/// refuse a few more texts than those.
#[verifier::external_body]
fn parse_human_duration(text: &str) -> (r: Option<(u64, u32)>)
    requires
        human_duration_fits(text@),
    ensures
        r == human_duration(text@),
        r matches Some((_, n)) ==> n < 1_000_000_000,
{
    match humantime::parse_duration(text) {
        Ok(d) => Some((d.as_secs(), d.subsec_nanos())),
        Err(_) => None,
    }
}

/// Walks `chrono::format::StrftimeItems::new(format)`, telling for each item
/// whether it is `Item::Error`. Trusted: the flags are the name
/// `strftime_error_flags` of the format.
#[verifier::external_body]
fn strftime_flags(format: &str) -> (flags: Vec<bool>)
    ensures
        flags@ == strftime_error_flags(format@),
{
    chrono::format::StrftimeItems::new(format).map(
        |item| matches!(item, chrono::format::Item::Error),
    ).collect()
}

/// A file-name format is usable when none of its items is an error.
pub open spec fn format_is_valid(format: Seq<char>) -> bool {
    !strftime_error_flags(format).contains(true)
}

/// Whether the file-name format `format` is usable.
pub fn check_format(format: &str) -> (ok: bool)
    ensures
        ok == format_is_valid(format@),
{
    let flags = strftime_flags(format);
    let mut i: usize = 0;
    while i < flags.len()
        invariant
            i <= flags@.len(),
            flags@ == strftime_error_flags(format@),
            forall|k: int| 0 <= k < i ==> !flags@[k],
        decreases flags@.len() - i,
    {
        if flags[i] {
            assert(flags@.contains(true)) by {
                assert(flags@[i as int]);
            }
            return false;
        }
        i = i + 1;
    }
    assert(!flags@.contains(true));
    true
}

/// What to do on a request to start taking screenshots.
#[derive(Clone, Copy, Debug, PartialEq, Eq, Structural)]
pub enum CapturePlan {
    /// A span or the file-name format was refused.
    Rejected,
    /// Everything was read, but the stop span is under a millisecond.
    Idle,
    /// Take `times` screenshots, one every `interval`.
    Run { interval: Duration, times: u128 },
}

/// The plan for an `interval` and a `stop` span that were read (or not) and
/// a file-name format that is usable (or not): as many screenshots as whole
/// milliseconds of `interval` fit in those of `stop`, when all three are
/// there and `stop` lasts a millisecond at least.
pub fn capture_plan(interval: Option<Duration>, stop: Option<Duration>, format_ok: bool) -> (plan:
    CapturePlan)
    requires
        (interval is Some && stop is Some && format_ok) ==> interval->0@ >= 1_000_000,
    ensures
        match (interval, stop, format_ok) {
            (Some(i), Some(s), true) => if s@ / 1_000_000 > 0 {
                plan matches CapturePlan::Run { interval: every, times } && every == i && times
                    == (s@ / 1_000_000) / (i@ / 1_000_000)
            } else {
                plan == CapturePlan::Idle
            },
            _ => plan == CapturePlan::Rejected,
        },
{
    match (interval, stop, format_ok) {
        (Some(i), Some(s), true) => {
            let stop_ms = s.as_millis();
            let every_ms = i.as_millis();
            assert(every_ms > 0) by {
                assert(i@ / 1_000_000 >= 1) by (nonlinear_arith)
                    requires
                        i@ >= 1_000_000,
                ;
            }
            let times = stop_ms / every_ms;
            if stop_ms > 0 {
                CapturePlan::Run { interval: i, times }
            } else {
                CapturePlan::Idle
            }
        },
        _ => CapturePlan::Rejected,
    }
}

/// The nanoseconds of whole seconds and extra nanoseconds.
pub open spec fn parts_nanos(p: (u64, u32)) -> nat {
    p.0 as nat * 1_000_000_000 + p.1 as nat
}

/// A span read as whole seconds and extra nanoseconds lasts both: its
/// seconds count a billion nanoseconds each, and the extra nanoseconds are
/// not dropped. Below a second of extra nanoseconds, the two parts are
/// given back by division and remainder.
pub proof fn lemma_parts_nanos(p: (u64, u32))
    ensures
        parts_nanos(p) == p.0 * 1_000_000_000 + p.1,
        p.1 < 1_000_000_000 ==> parts_nanos(p) / 1_000_000_000 == p.0 && parts_nanos(p)
            % 1_000_000_000 == p.1,
        parts_nanos(p) / 1_000_000 == p.0 * 1000 + p.1 / 1_000_000,
{
    let n = parts_nanos(p);
    assert(n == p.0 * 1_000_000_000 + p.1);
    if p.1 < 1_000_000_000 {
        assert(n / 1_000_000_000 == p.0 && n % 1_000_000_000 == p.1) by (nonlinear_arith)
            requires
                n == p.0 * 1_000_000_000 + p.1,
                0 <= p.1 < 1_000_000_000,
                0 <= p.0,
        ;
    }
    assert(n / 1_000_000 == p.0 * 1000 + p.1 / 1_000_000) by (nonlinear_arith)
        requires
            n == p.0 * 1_000_000_000 + p.1,
            0 <= p.1,
            0 <= p.0,
    ;
}

fn to_duration(parts: Option<(u64, u32)>) -> (d: Option<Duration>)
    requires
        parts matches Some((_, n)) ==> n < 1_000_000_000,
    ensures
        match parts {
            Some(p) => d matches Some(d) && d@ == p.0 as nat * 1_000_000_000 + p.1 as nat,
            None => d is None,
        },
{
    match parts {
        Some((secs, nanos)) => Some(Duration::new(secs, nanos)),
        None => None,
    }
}

/// Reads a request to take screenshots every `interval_text` until
/// `stop_text` has passed, into files named by the `strftime` format
/// `format`. `None` where the interval is read but lasts under a
/// millisecond while everything else is read too: the screenshots could
/// not be counted. Both span texts must lie within the bound under which
/// reading them cannot overflow (`span_bound::human_duration_in_range` tells).
pub fn plan_captures(format: &str, interval_text: &str, stop_text: &str) -> (plan: Option<
    CapturePlan,
>)
    requires
        human_duration_fits(interval_text@),
        human_duration_fits(stop_text@),
    ensures
        match (
            human_duration(interval_text@),
            human_duration(stop_text@),
            format_is_valid(format@),
        ) {
            (Some(i), Some(s), true) => if parts_nanos(i) < 1_000_000 {
                plan is None
            } else if parts_nanos(s) / 1_000_000 > 0 {
                plan matches Some(CapturePlan::Run { interval: every, times }) && every@
                    == parts_nanos(i) && every@ == i.0 as nat * 1_000_000_000 + i.1 as nat && times == (parts_nanos(s) / 1_000_000) / (parts_nanos(i)
                    / 1_000_000)
            } else {
                plan == Some(CapturePlan::Idle)
            },
            _ => plan == Some(CapturePlan::Rejected),
        },
{
    let interval = to_duration(parse_human_duration(interval_text));
    let stop = to_duration(parse_human_duration(stop_text));
    let format_ok = check_format(format);
    if let (Some(i), Some(_), true) = (&interval, &stop, format_ok) {
        if i.as_millis() == 0 {
            return None;
        }
        assert(i@ >= 1_000_000);
    }
    Some(capture_plan(interval, stop, format_ok))
}

} // verus!
