use vstd::prelude::*;

verus! {

pub open spec fn is_digit(c: char) -> bool {
    '0' <= c <= '9'
}

pub open spec fn digit_value(c: char) -> nat {
    (c as int - '0' as int) as nat
}

pub open spec fn digit_char(d: nat) -> char {
    (d + '0' as int) as char
}

pub open spec fn all_digits(s: Seq<char>) -> bool {
    forall|i: int| 0 <= i < s.len() ==> is_digit(#[trigger] s[i])
}

/// The number that a string of decimal digits denotes.
pub open spec fn digits_value(s: Seq<char>) -> nat
    decreases s.len(),
{
    if s.len() == 0 {
        0
    } else {
        digits_value(s.drop_last()) * 10 + digit_value(s.last())
    }
}

/// Why `u64::from_str` refuses a text, as `std::num::IntErrorKind` tells.
#[derive(Clone, Copy, Debug, PartialEq, Eq, Structural)]
pub enum IntError {
    /// The text is empty.
    Empty,
    /// A character is not a digit (a lone `+` counts as one).
    InvalidDigit,
    /// The number does not fit in a `u64`.
    PosOverflow,
}

/// Reads the digits `d` from the left, as `u64::from_str` does: the first
/// character that is not a digit, or the first digit that takes the value
/// past `u64::MAX`, decides the refusal.
pub open spec fn scan_u64(d: Seq<char>) -> Result<nat, IntError>
    decreases d.len(),
{
    if d.len() == 0 {
        Ok(0)
    } else {
        match scan_u64(d.drop_last()) {
            Err(e) => Err(e),
            Ok(v) => if !is_digit(d.last()) {
                Err(IntError::InvalidDigit)
            } else if v * 10 + digit_value(d.last()) > u64::MAX {
                Err(IntError::PosOverflow)
            } else {
                Ok(v * 10 + digit_value(d.last()))
            },
        }
    }
}

/// What `u64::from_str` gives for `s`: an optional `+` (not alone), then
/// ASCII digits whose value fits in a `u64`.
pub open spec fn parse_u64_spec(s: Seq<char>) -> Result<u64, IntError> {
    if s.len() == 0 {
        Err(IntError::Empty)
    } else {
        let digits = if s.len() > 1 && s[0] == '+' {
            s.drop_first()
        } else {
            s
        };
        match scan_u64(digits) {
            Ok(v) => Ok(v as u64),
            Err(e) => Err(e),
        }
    }
}

/// Once reading stops on a refusal, more characters keep it.
proof fn lemma_scan_stuck(d: Seq<char>, k: int)
    requires
        0 <= k <= d.len(),
        scan_u64(d.take(k)) is Err,
    ensures
        scan_u64(d) == scan_u64(d.take(k)),
    decreases d.len() - k,
{
    if k < d.len() {
        assert(d.take(k + 1).drop_last() == d.take(k));
        lemma_scan_stuck(d, k + 1);
    } else {
        assert(d.take(k) == d);
    }
}

proof fn lemma_scan_digits(d: Seq<char>)
    requires
        all_digits(d),
        digits_value(d) <= u64::MAX,
    ensures
        scan_u64(d) == Ok::<nat, IntError>(digits_value(d)),
    decreases d.len(),
{
    if d.len() > 0 {
        let p = d.drop_last();
        assert(all_digits(p)) by {
            assert forall|i: int| 0 <= i < p.len() implies is_digit(#[trigger] p[i]) by {
                assert(p[i] == d[i]);
            }
        }
        assert(is_digit(d[d.len() - 1]));
        lemma_scan_digits(p);
    }
}

/// The decimal digits of `n`, most significant first, without leading zeros.
pub open spec fn decimal(n: nat) -> Seq<char>
    decreases n,
{
    if n < 10 {
        seq![digit_char(n)]
    } else {
        decimal(n / 10).push(digit_char(n % 10))
    }
}

/// The digits of a number are digits, and denote that number.
pub proof fn lemma_decimal(n: nat)
    ensures
        decimal(n).len() >= 1,
        all_digits(decimal(n)),
        digits_value(decimal(n)) == n,
        decimal(n)[0] != '+',
    decreases n,
{
    let c = digit_char(n % 10);
    assert(c as int == n % 10 + '0' as int);
    assert(digit_value(c) == n % 10);
    if n < 10 {
        assert(n % 10 == n);
        assert(decimal(n).drop_last() == Seq::<char>::empty());
        assert(digits_value(Seq::<char>::empty()) == 0);
        assert(decimal(n).last() == c);
    } else {
        lemma_decimal(n / 10);
        let d = decimal(n);
        assert(d.drop_last() == decimal(n / 10));
        assert(d.last() == c);
        assert(digits_value(d) == (n / 10) * 10 + n % 10);
        assert((n / 10) * 10 + n % 10 == n) by (nonlinear_arith);
        assert forall|i: int| 0 <= i < d.len() implies is_digit(#[trigger] d[i]) by {
            if i < d.len() - 1 {
                assert(d[i] == decimal(n / 10)[i]);
            }
        }
    }
}

/// Reading back the decimal digits of a `u64` gives the number again.
pub proof fn lemma_parse_decimal(n: u64)
    ensures
        parse_u64_spec(decimal(n as nat)) == Ok::<u64, IntError>(n),
{
    lemma_decimal(n as nat);
    lemma_scan_digits(decimal(n as nat));
}

/// `count` zero digits.
pub open spec fn zeros(count: nat) -> Seq<char> {
    Seq::new(count, |i: int| '0')
}

proof fn lemma_zeros_value(count: nat)
    ensures
        digits_value(zeros(count)) == 0,
    decreases count,
{
    if count > 0 {
        assert(zeros(count).drop_last() == zeros((count - 1) as nat));
        lemma_zeros_value((count - 1) as nat);
    }
}

proof fn lemma_leading_zeros_value(count: nat, d: Seq<char>)
    ensures
        digits_value(zeros(count) + d) == digits_value(d),
    decreases d.len(),
{
    if d.len() == 0 {
        assert(zeros(count) + d == zeros(count));
        lemma_zeros_value(count);
    } else {
        assert((zeros(count) + d).drop_last() == zeros(count) + d.drop_last());
        assert((zeros(count) + d).last() == d.last());
        lemma_leading_zeros_value(count, d.drop_last());
    }
}

/// Leading zeros do not change the number read: the digits of `n` after
/// any count of zeros are digits, and read back as `n`.
pub proof fn lemma_parse_zero_padded(n: u64, count: nat)
    ensures
        all_digits(zeros(count) + decimal(n as nat)),
        parse_u64_spec(zeros(count) + decimal(n as nat)) == Ok::<u64, IntError>(n),
{
    let d = decimal(n as nat);
    let t = zeros(count) + d;
    lemma_decimal(n as nat);
    assert forall|i: int| 0 <= i < t.len() implies is_digit(#[trigger] t[i]) by {
        if i >= count {
            assert(t[i] == d[i - count]);
        }
    }
    lemma_leading_zeros_value(count, d);
    lemma_scan_digits(t);
    assert(t[0] != '+') by {
        assert(is_digit(t[0]));
    }
}

/// Two numbers with the same decimal digits are the same number.
pub proof fn lemma_decimal_injective(a: nat, b: nat)
    requires
        decimal(a) == decimal(b),
    ensures
        a == b,
{
    lemma_decimal(a);
    lemma_decimal(b);
}

/// `u64::from_str` on the characters `chars[from..to]`.
pub fn parse_u64_range(chars: &Vec<char>, from: usize, to: usize) -> (r: Result<u64, IntError>)
    requires
        from <= to <= chars@.len(),
    ensures
        r == parse_u64_spec(chars@.subrange(from as int, to as int)),
{
    let ghost s = chars@.subrange(from as int, to as int);
    if from == to {
        return Err(IntError::Empty);
    }
    let mut start = from;
    if to - from > 1 && chars[from] == '+' {
        start = from + 1;
    }
    let ghost digits = chars@.subrange(start as int, to as int);
    assert(digits == (if s.len() > 1 && s[0] == '+' {
        s.drop_first()
    } else {
        s
    }));
    let mut i = start;
    let mut value: u64 = 0;
    assert(digits.take(0) == Seq::<char>::empty());
    while i < to
        invariant
            from <= start <= i <= to <= chars@.len(),
            digits == chars@.subrange(start as int, to as int),
            from < to,
            s == chars@.subrange(from as int, to as int),
            digits == (if s.len() > 1 && s[0] == '+' {
                s.drop_first()
            } else {
                s
            }),
            scan_u64(digits.take(i - start)) == Ok::<nat, IntError>(value as nat),
        decreases to - i,
    {
        let c = chars[i];
        let ghost k = i - start;
        assert(digits.take(k + 1).drop_last() == digits.take(k));
        assert(digits.take(k + 1).last() == c);
        if !('0' <= c && c <= '9') {
            proof {
                lemma_scan_stuck(digits, k + 1);
            }
            return Err(IntError::InvalidDigit);
        }
        let d = (c as u32 - '0' as u32) as u64;
        if value > (u64::MAX - d) / 10 {
            assert(value * 10 + d > u64::MAX) by (nonlinear_arith)
                requires
                    value > (u64::MAX - d) / 10,
                    d <= 9,
            ;
            proof {
                lemma_scan_stuck(digits, k + 1);
            }
            return Err(IntError::PosOverflow);
        }
        assert(value * 10 + d <= u64::MAX) by (nonlinear_arith)
            requires
                value <= (u64::MAX - d) / 10,
                d <= 9,
        ;
        value = value * 10 + d;
        i = i + 1;
    }
    assert(digits.take(i - start) == digits);
    Ok(value)
}

fn digit_str(d: u128) -> (s: &'static str)
    requires
        d < 10,
    ensures
        s@ == seq![digit_char(d as nat)],
{
    proof {
        reveal_strlit("0");
        reveal_strlit("1");
        reveal_strlit("2");
        reveal_strlit("3");
        reveal_strlit("4");
        reveal_strlit("5");
        reveal_strlit("6");
        reveal_strlit("7");
        reveal_strlit("8");
        reveal_strlit("9");
    }
    if d == 0 {
        "0"
    } else if d == 1 {
        "1"
    } else if d == 2 {
        "2"
    } else if d == 3 {
        "3"
    } else if d == 4 {
        "4"
    } else if d == 5 {
        "5"
    } else if d == 6 {
        "6"
    } else if d == 7 {
        "7"
    } else if d == 8 {
        "8"
    } else {
        "9"
    }
}

/// Appends the decimal digits of `n` to `out`, as `write!(out, "{}", n)` does.
pub fn push_decimal(out: &mut String, n: u128)
    ensures
        final(out)@ == old(out)@ + decimal(n as nat),
    decreases n,
{
    if n >= 10 {
        push_decimal(out, n / 10);
    }
    out.append(digit_str(n % 10));
}

} // verus!
