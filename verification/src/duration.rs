use vstd::prelude::*;

verus! {

/// Nanoseconds in a second.
pub const NANOS_PER_SEC: u32 = 1_000_000_000;

/// The largest number of nanoseconds that a `Duration` can hold.
pub open spec fn max_duration_nanos() -> nat {
    (u64::MAX as nat) * 1_000_000_000 + 999_999_999
}

/// A span of time with nanosecond precision, held as whole seconds and the
/// nanoseconds of the second under way (as `std::time::Duration` holds it).
/// Its view is the whole span in nanoseconds.
#[derive(Clone, Copy, Debug, PartialEq, Eq, Structural)]
pub struct Duration {
    secs: u64,
    nanos: u32,
}

impl View for Duration {
    type V = nat;

    closed spec fn view(&self) -> nat {
        self.secs as nat * 1_000_000_000 + self.nanos as nat
    }
}

proof fn lemma_split_nanos(secs: u64, nanos: u32)
    requires
        nanos < 1_000_000_000,
    ensures
        (secs as nat * 1_000_000_000 + nanos as nat) / 1_000_000_000 == secs,
        (secs as nat * 1_000_000_000 + nanos as nat) % 1_000_000_000 == nanos,
        secs as nat * 1_000_000_000 + nanos as nat <= max_duration_nanos(),
{
    vstd::arithmetic::div_mod::lemma_fundamental_div_mod_converse(
        (secs as nat * 1_000_000_000 + nanos as nat) as int,
        1_000_000_000,
        secs as int,
        nanos as int,
    );
    assert(secs as nat * 1_000_000_000 <= (u64::MAX as nat) * 1_000_000_000) by (nonlinear_arith)
        requires
            secs <= u64::MAX,
    ;
}

impl Duration {
    #[verifier::type_invariant]
    spec fn nanos_below_second(self) -> bool {
        self.nanos < NANOS_PER_SEC
    }

    /// The empty duration.
    pub fn zero() -> (d: Duration)
        ensures
            d@ == 0,
    {
        Duration { secs: 0, nanos: 0 }
    }

    /// `secs` seconds and `nanos` nanoseconds; nanoseconds beyond a second
    /// carry into the seconds, as `std::time::Duration::new` does.
    pub fn new(secs: u64, nanos: u32) -> (d: Duration)
        requires
            secs + nanos / 1_000_000_000 <= u64::MAX,
        ensures
            d@ == secs * 1_000_000_000 + nanos,
    {
        let extra = nanos / NANOS_PER_SEC;
        let rest = nanos % NANOS_PER_SEC;
        assert(nanos == extra * 1_000_000_000 + rest) by (nonlinear_arith)
            requires
                extra == nanos / 1_000_000_000,
                rest == nanos % 1_000_000_000,
        ;
        let d = Duration { secs: secs + extra as u64, nanos: rest };
        assert(d@ == secs * 1_000_000_000 + nanos) by (nonlinear_arith)
            requires
                d@ == (secs + extra) * 1_000_000_000 + rest,
                nanos == extra * 1_000_000_000 + rest,
        ;
        d
    }

    /// `ms` milliseconds.
    pub fn from_millis(ms: u64) -> (d: Duration)
        ensures
            d@ == ms * 1_000_000,
    {
        let secs = ms / 1000;
        let rest = ms % 1000;
        assert(rest * 1_000_000 < 1_000_000_000);
        let d = Duration { secs, nanos: (rest * 1_000_000) as u32 };
        assert(d@ == ms * 1_000_000) by (nonlinear_arith)
            requires
                d@ == secs * 1_000_000_000 + rest * 1_000_000,
                secs == ms / 1000,
                rest == ms % 1000,
        ;
        d
    }

    /// The whole seconds.
    pub fn as_secs(&self) -> (s: u64)
        ensures
            s == self@ / 1_000_000_000,
    {
        proof {
            use_type_invariant(self);
            lemma_split_nanos(self.secs, self.nanos);
        }
        self.secs
    }

    /// The nanoseconds beyond the whole seconds.
    pub fn subsec_nanos(&self) -> (n: u32)
        ensures
            n == self@ % 1_000_000_000,
    {
        proof {
            use_type_invariant(self);
            lemma_split_nanos(self.secs, self.nanos);
        }
        self.nanos
    }

    /// The whole milliseconds.
    pub fn as_millis(&self) -> (ms: u128)
        ensures
            ms == self@ / 1_000_000,
    {
        proof {
            use_type_invariant(self);
        }
        let q = self.secs as u128 * 1000 + (self.nanos / 1_000_000) as u128;
        let r = self.nanos % 1_000_000;
        assert(self@ == q * 1_000_000 + r) by (nonlinear_arith)
            requires
                self@ == self.secs * 1_000_000_000 + self.nanos,
                q == self.secs * 1000 + self.nanos / 1_000_000,
                r == self.nanos % 1_000_000,
        ;
        proof {
            vstd::arithmetic::div_mod::lemma_fundamental_div_mod_converse(
                self@ as int,
                1_000_000,
                q as int,
                r as int,
            );
        }
        q
    }

    /// `self - other`, or `None` where `other` is the longer.
    pub fn checked_sub(&self, other: &Duration) -> (d: Option<Duration>)
        ensures
            match d {
                Some(d) => other@ <= self@ && d@ == self@ - other@,
                None => self@ < other@,
            },
    {
        proof {
            use_type_invariant(self);
            use_type_invariant(other);
        }
        if self.secs < other.secs || (self.secs == other.secs && self.nanos < other.nanos) {
            assert(self@ < other@) by (nonlinear_arith)
                requires
                    self.secs < other.secs || (self.secs == other.secs && self.nanos < other.nanos),
                    self.nanos < 1_000_000_000,
                    other.nanos < 1_000_000_000,
                    self@ == self.secs * 1_000_000_000 + self.nanos,
                    other@ == other.secs * 1_000_000_000 + other.nanos,
            ;
            None
        } else if self.nanos >= other.nanos {
            let d = Duration { secs: self.secs - other.secs, nanos: self.nanos - other.nanos };
            assert(d@ == self@ - other@) by (nonlinear_arith)
                requires
                    d@ == (self.secs - other.secs) * 1_000_000_000 + (self.nanos - other.nanos),
                    self@ == self.secs * 1_000_000_000 + self.nanos,
                    other@ == other.secs * 1_000_000_000 + other.nanos,
            ;
            Some(d)
        } else {
            let d = Duration {
                secs: self.secs - other.secs - 1,
                nanos: self.nanos + NANOS_PER_SEC - other.nanos,
            };
            assert(d@ == self@ - other@) by (nonlinear_arith)
                requires
                    d@ == (self.secs - other.secs - 1) * 1_000_000_000 + (self.nanos
                        + 1_000_000_000 - other.nanos),
                    self@ == self.secs * 1_000_000_000 + self.nanos,
                    other@ == other.secs * 1_000_000_000 + other.nanos,
            ;
            Some(d)
        }
    }

    /// `self + other`, or `None` where the sum exceeds the largest duration.
    pub fn checked_add(&self, other: &Duration) -> (d: Option<Duration>)
        ensures
            match d {
                Some(d) => d@ == self@ + other@,
                None => self@ + other@ > max_duration_nanos(),
            },
    {
        proof {
            use_type_invariant(self);
            use_type_invariant(other);
        }
        let mut nanos = self.nanos + other.nanos;
        let mut carry: u64 = 0;
        if nanos >= NANOS_PER_SEC {
            nanos = nanos - NANOS_PER_SEC;
            carry = 1;
        }
        assert(self@ + other@ == (self.secs + other.secs + carry) * 1_000_000_000 + nanos)
            by (nonlinear_arith)
            requires
                self@ == self.secs * 1_000_000_000 + self.nanos,
                other@ == other.secs * 1_000_000_000 + other.nanos,
                self.nanos + other.nanos == carry * 1_000_000_000 + nanos,
        ;
        if self.secs > u64::MAX - other.secs || self.secs + other.secs > u64::MAX - carry {
            assert(self@ + other@ > max_duration_nanos()) by (nonlinear_arith)
                requires
                    self@ + other@ == (self.secs + other.secs + carry) * 1_000_000_000 + nanos,
                    self.secs + other.secs + carry > u64::MAX,
            ;
            None
        } else {
            Some(Duration { secs: self.secs + other.secs + carry, nanos })
        }
    }
}

} // verus!
