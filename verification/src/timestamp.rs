use vstd::prelude::*;

use crate::decimal::{
    IntError, all_digits, decimal, is_digit, lemma_decimal, lemma_parse_decimal, lemma_parse_zero_padded, zeros, parse_u64_range, parse_u64_spec};
use crate::duration::Duration;
use crate::text::{
    chars_of, free_of, lemma_split_on_extend, lemma_split_on_separator, split_bounds, split_on,
};

verus! {

/// Why a subtitle timestamp was refused.
#[derive(Clone, Copy, Debug, PartialEq, Eq, Structural)]
pub enum TimestampError {
    /// The text does not hold exactly four fields separated by `:` or `,`.
    Malformed,
    /// A field is not a number that fits in a `u64`.
    InvalidNumber(IntError),
}

/// The characters that separate the fields of a timestamp.
pub open spec fn timestamp_separators() -> Seq<char> {
    seq![':', ',']
}

/// The milliseconds that `hours:minutes:seconds,millis` stands for.
pub open spec fn timestamp_millis(h: nat, m: nat, s: nat, ms: nat) -> nat {
    (h * 3600 + m * 60 + s) * 1000 + ms
}

/// The outcome of reading the timestamp `s`, field by field from the left:
/// `Some(Ok(ms))` with its milliseconds, `Some(Err(..))` where it is refused,
/// and `None` where an intermediate sum or product leaves the `u64` range
/// before a field is refused.
pub open spec fn timestamp_outcome(s: Seq<char>) -> Option<Result<nat, TimestampError>> {
    let t = split_on(s, timestamp_separators());
    if t.len() != 4 {
        Some(Err(TimestampError::Malformed))
    } else {
        match parse_u64_spec(t[0]) {
            Err(e) => Some(Err(TimestampError::InvalidNumber(e))),
            Ok(h) => if h * 3600 > u64::MAX {
                None
            } else {
                match parse_u64_spec(t[1]) {
                    Err(e) => Some(Err(TimestampError::InvalidNumber(e))),
                    Ok(m) => if m * 60 > u64::MAX || h * 3600 + m * 60 > u64::MAX {
                        None
                    } else {
                        match parse_u64_spec(t[2]) {
                            Err(e) => Some(Err(TimestampError::InvalidNumber(e))),
                            Ok(sec) => if h * 3600 + m * 60 + sec > u64::MAX || (h * 3600 + m
                                * 60 + sec) * 1000 > u64::MAX {
                                None
                            } else {
                                match parse_u64_spec(t[3]) {
                                    Err(e) => Some(Err(TimestampError::InvalidNumber(e))),
                                    Ok(ms) => if timestamp_millis(
                                        h as nat,
                                        m as nat,
                                        sec as nat,
                                        ms as nat,
                                    ) > u64::MAX {
                                        None
                                    } else {
                                        Some(
                                            Ok(
                                                timestamp_millis(
                                                    h as nat,
                                                    m as nat,
                                                    sec as nat,
                                                    ms as nat,
                                                ),
                                            ),
                                        )
                                    },
                                }
                            },
                        }
                    },
                }
            },
        }
    }
}

fn timestamp_outcome_of(timestamp: &str) -> (r: Option<Result<u64, TimestampError>>)
    ensures
        match timestamp_outcome(timestamp@) {
            None => r is None,
            Some(Ok(ms)) => r == Some(Ok::<u64, TimestampError>(ms as u64)) && ms <= u64::MAX,
            Some(Err(e)) => r == Some(Err::<u64, TimestampError>(e)),
        },
{
    let chars = chars_of(timestamp);
    let seps = vec![':', ','];
    let bounds = split_bounds(&chars, seps.as_slice());
    let ghost t = split_on(chars@, seps@);
    assert(seps@ == timestamp_separators());
    if bounds.len() != 4 {
        return Some(Err(TimestampError::Malformed));
    }
    assert(t[0] == chars@.subrange(bounds@[0].0 as int, bounds@[0].1 as int));
    assert(t[1] == chars@.subrange(bounds@[1].0 as int, bounds@[1].1 as int));
    assert(t[2] == chars@.subrange(bounds@[2].0 as int, bounds@[2].1 as int));
    assert(t[3] == chars@.subrange(bounds@[3].0 as int, bounds@[3].1 as int));
    let h = match parse_u64_range(&chars, bounds[0].0, bounds[0].1) {
        Err(e) => return Some(Err(TimestampError::InvalidNumber(e))),
        Ok(h) => h,
    };
    if h > u64::MAX / 3600 {
        return None;
    }
    let hs = h * 3600;
    let m = match parse_u64_range(&chars, bounds[1].0, bounds[1].1) {
        Err(e) => return Some(Err(TimestampError::InvalidNumber(e))),
        Ok(m) => m,
    };
    if m > u64::MAX / 60 {
        return None;
    }
    let ms_ = m * 60;
    if hs > u64::MAX - ms_ {
        return None;
    }
    let hm = hs + ms_;
    let sec = match parse_u64_range(&chars, bounds[2].0, bounds[2].1) {
        Err(e) => return Some(Err(TimestampError::InvalidNumber(e))),
        Ok(s) => s,
    };
    if hm > u64::MAX - sec {
        return None;
    }
    let total_secs = hm + sec;
    if total_secs > u64::MAX / 1000 {
        return None;
    }
    let whole = total_secs * 1000;
    let millis = match parse_u64_range(&chars, bounds[3].0, bounds[3].1) {
        Err(e) => return Some(Err(TimestampError::InvalidNumber(e))),
        Ok(x) => x,
    };
    if whole > u64::MAX - millis {
        return None;
    }
    Some(Ok(whole + millis))
}

/// Whether reading `timestamp` would leave the `u64` range before it is
/// refused: the inputs on which `parse_timestamp` cannot be called.
pub fn timestamp_overflows(timestamp: &str) -> (b: bool)
    ensures
        b == (timestamp_outcome(timestamp@) is None),
{
    timestamp_outcome_of(timestamp).is_none()
}

/// Reads a subtitle timestamp `hours:minutes:seconds,millis` (any of the
/// separators `:` and `,` in any place) into the span it denotes.
pub fn parse_timestamp(timestamp: &str) -> (r: Result<Duration, TimestampError>)
    requires
        timestamp_outcome(timestamp@) is Some,
    ensures
        match timestamp_outcome(timestamp@) {
            Some(Ok(ms)) => r matches Ok(d) && d@ == ms * 1_000_000,
            Some(Err(e)) => r == Err::<Duration, TimestampError>(e),
            None => false,
        },
{
    match timestamp_outcome_of(timestamp) {
        Some(Ok(ms)) => Ok(Duration::from_millis(ms)),
        Some(Err(e)) => Err(e),
        None => Err(TimestampError::Malformed),
    }
}

/// The timestamp `h:m:s,ms` written with decimal fields.
pub open spec fn timestamp_text(h: nat, m: nat, s: nat, ms: nat) -> Seq<char> {
    decimal(h) + seq![':'] + decimal(m) + seq![':'] + decimal(s) + seq![','] + decimal(ms)
}

/// A timestamp written from its fields reads back as the milliseconds they
/// stand for.
pub proof fn lemma_read_written_timestamp(h: u64, m: u64, s: u64, ms: u64)
    requires
        timestamp_millis(h as nat, m as nat, s as nat, ms as nat) <= u64::MAX,
    ensures
        timestamp_outcome(timestamp_text(h as nat, m as nat, s as nat, ms as nat)) == Some(
            Ok::<nat, TimestampError>(timestamp_millis(h as nat, m as nat, s as nat, ms as nat)),
        ),
{
    let seps = timestamp_separators();
    let dh = decimal(h as nat);
    let dm = decimal(m as nat);
    let ds = decimal(s as nat);
    let dms = decimal(ms as nat);
    lemma_decimal(h as nat);
    lemma_digits_free_of_separators(decimal(h as nat));
    lemma_decimal(m as nat);
    lemma_digits_free_of_separators(decimal(m as nat));
    lemma_decimal(s as nat);
    lemma_digits_free_of_separators(decimal(s as nat));
    lemma_decimal(ms as nat);
    lemma_digits_free_of_separators(decimal(ms as nat));
    assert(seps.contains(':')) by {
        assert(seps[0] == ':');
    }
    assert(seps.contains(',')) by {
        assert(seps[1] == ',');
    }
    let e = Seq::<char>::empty();
    lemma_split_on_extend(e, dh, seps);
    assert(e + dh == dh);
    let a1 = dh.push(':');
    lemma_split_on_separator(dh, ':', seps);
    lemma_split_on_extend(a1, dm, seps);
    let a2 = (a1 + dm).push(':');
    lemma_split_on_separator(a1 + dm, ':', seps);
    lemma_split_on_extend(a2, ds, seps);
    let a3 = (a2 + ds).push(',');
    lemma_split_on_separator(a2 + ds, ',', seps);
    lemma_split_on_extend(a3, dms, seps);
    let text = timestamp_text(h as nat, m as nat, s as nat, ms as nat);
    assert(text == a3 + dms);
    let t = split_on(text, seps);
    assert(t == seq![dh, dm, ds, dms]);
    lemma_parse_decimal(h);
    lemma_parse_decimal(m);
    lemma_parse_decimal(s);
    lemma_parse_decimal(ms);
}

/// The digits of `n`, with zeros in front up to `width` characters.
pub open spec fn zero_padded(n: nat, width: nat) -> Seq<char> {
    zeros(
        if decimal(n).len() < width {
            (width - decimal(n).len()) as nat
        } else {
            0
        },
    ) + decimal(n)
}

/// The timestamp `hh:mm:ss,mmm` as subtitle files write it, each field
/// padded with zeros.
pub open spec fn srt_timestamp_text(h: nat, m: nat, s: nat, ms: nat) -> Seq<char> {
    zero_padded(h, 2) + seq![':'] + zero_padded(m, 2) + seq![':'] + zero_padded(s, 2) + seq![
        ',',
    ] + zero_padded(ms, 3)
}

proof fn lemma_digits_free_of_separators(d: Seq<char>)
    requires
        all_digits(d),
    ensures
        free_of(d, timestamp_separators()),
{
    assert forall|i: int| 0 <= i < d.len() implies !timestamp_separators().contains(
        #[trigger] d[i],
    ) by {
        assert(is_digit(d[i]));
        if timestamp_separators().contains(d[i]) {
            let k = choose|k: int| 0 <= k < 2 && timestamp_separators()[k] == d[i];
            assert(k == 0 || k == 1);
        }
    }
}

/// A timestamp as subtitle files write it, with zero-padded fields, reads
/// back as the milliseconds its fields stand for.
pub proof fn lemma_read_srt_timestamp(h: u64, m: u64, s: u64, ms: u64)
    requires
        timestamp_millis(h as nat, m as nat, s as nat, ms as nat) <= u64::MAX,
    ensures
        timestamp_outcome(srt_timestamp_text(h as nat, m as nat, s as nat, ms as nat)) == Some(
            Ok::<nat, TimestampError>(timestamp_millis(h as nat, m as nat, s as nat, ms as nat)),
        ),
{
    let seps = timestamp_separators();
    let ph = zero_padded(h as nat, 2);
    let pm = zero_padded(m as nat, 2);
    let ps = zero_padded(s as nat, 2);
    let pms = zero_padded(ms as nat, 3);
    lemma_parse_zero_padded(h, (ph.len() - decimal(h as nat).len()) as nat);
    lemma_parse_zero_padded(m, (pm.len() - decimal(m as nat).len()) as nat);
    lemma_parse_zero_padded(s, (ps.len() - decimal(s as nat).len()) as nat);
    lemma_parse_zero_padded(ms, (pms.len() - decimal(ms as nat).len()) as nat);
    lemma_digits_free_of_separators(ph);
    lemma_digits_free_of_separators(pm);
    lemma_digits_free_of_separators(ps);
    lemma_digits_free_of_separators(pms);
    assert(seps.contains(':')) by {
        assert(seps[0] == ':');
    }
    assert(seps.contains(',')) by {
        assert(seps[1] == ',');
    }
    let e = Seq::<char>::empty();
    lemma_split_on_extend(e, ph, seps);
    assert(e + ph == ph);
    let a1 = ph.push(':');
    lemma_split_on_separator(ph, ':', seps);
    lemma_split_on_extend(a1, pm, seps);
    let a2 = (a1 + pm).push(':');
    lemma_split_on_separator(a1 + pm, ':', seps);
    lemma_split_on_extend(a2, ps, seps);
    let a3 = (a2 + ps).push(',');
    lemma_split_on_separator(a2 + ps, ',', seps);
    lemma_split_on_extend(a3, pms, seps);
    let text = srt_timestamp_text(h as nat, m as nat, s as nat, ms as nat);
    assert(text == a3 + pms);
    let t = split_on(text, seps);
    assert(t == seq![ph, pm, ps, pms]);
}

} // verus!
