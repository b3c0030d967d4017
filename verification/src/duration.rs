//! Signed spans of time with nanosecond precision, in the range that
//! `chrono::TimeDelta` covers: up to `i64::MAX` milliseconds either way.
use vstd::prelude::*;

verus! {

/// Nanoseconds in a second.
pub const NANOS_PER_SEC: i64 = 1_000_000_000;

/// The largest span, in nanoseconds: `i64::MAX` milliseconds.
pub open spec fn max_total() -> int {
    i64::MAX as int * 1_000_000
}

/// A span of time: whole seconds (rounded towards minus infinity) and the
/// nanoseconds left over.
#[derive(Clone, Copy, Debug, PartialEq, Eq)]
pub struct Duration {
    secs: i64,
    nanos: i32,
}

impl View for Duration {
    /// The span in nanoseconds.
    type V = int;

    closed spec fn view(&self) -> int {
        self.secs as int * NANOS_PER_SEC as int + self.nanos as int
    }
}

/// The `Duration` of `n` nanoseconds.
pub closed spec fn duration_of(n: int) -> Duration {
    Duration { secs: (n / NANOS_PER_SEC as int) as i64, nanos: (n % NANOS_PER_SEC as int) as i32 }
}

/// A duration is determined by its length: the one built from its parts is
/// the one that `duration_of` gives for their total.
proof fn lemma_duration_of(secs: i64, nanos: i32)
    requires
        0 <= nanos < NANOS_PER_SEC,
    ensures
        duration_of(secs as int * NANOS_PER_SEC as int + nanos as int) == (Duration { secs, nanos }),
{
    vstd::arithmetic::div_mod::lemma_fundamental_div_mod_converse(
        secs as int * NANOS_PER_SEC as int + nanos as int,
        NANOS_PER_SEC as int,
        secs as int,
        nanos as int,
    );
}

/// The duration that `duration_of` gives for a length in range has that
/// length.
pub proof fn lemma_duration_of_view(n: int)
    requires
        -max_total() <= n <= max_total(),
    ensures
        duration_of(n)@ == n,
{
    vstd::arithmetic::div_mod::lemma_fundamental_div_mod(n, NANOS_PER_SEC as int);
    assert(max_total() == i64::MAX as int * 1_000_000);
    vstd::arithmetic::div_mod::lemma_div_is_ordered(n, max_total(), NANOS_PER_SEC as int);
    vstd::arithmetic::div_mod::lemma_div_is_ordered(-max_total(), n, NANOS_PER_SEC as int);
    assert(max_total() / (NANOS_PER_SEC as int) < i64::MAX);
    assert((-max_total()) / (NANOS_PER_SEC as int) > i64::MIN);
}

impl Duration {
    #[verifier::type_invariant]
    spec fn inv(self) -> bool {
        &&& 0 <= self.nanos < NANOS_PER_SEC
        &&& -max_total() <= self@ <= max_total()
    }

    /// The span of `n` nanoseconds.
    pub fn nanoseconds(n: i64) -> (d: Duration)
        ensures
            d@ == n as int,
            d == duration_of(n as int),
    {
        let (secs, nanos) = if n >= 0 {
            (n / NANOS_PER_SEC, (n % NANOS_PER_SEC) as i32)
        } else {
            let m: i64 = -(n + 1);
            let q: i64 = m / NANOS_PER_SEC;
            let r: i64 = m % NANOS_PER_SEC;
            (-q - 1, (NANOS_PER_SEC - 1 - r) as i32)
        };
        assert(max_total() >= i64::MAX);
        proof {
            vstd::arithmetic::div_mod::lemma_fundamental_div_mod_converse(
                n as int,
                NANOS_PER_SEC as int,
                secs as int,
                nanos as int,
            );
        }
        Duration { secs, nanos }
    }

    /// The span of `s` whole seconds.
    pub fn seconds(s: i64) -> (d: Duration)
        requires
            -max_total() <= s as int * NANOS_PER_SEC as int <= max_total(),
        ensures
            d@ == s as int * NANOS_PER_SEC as int,
            d == duration_of(d@),
    {
        proof {
            lemma_duration_of(s, 0);
        }
        Duration { secs: s, nanos: 0 }
    }

    /// The span of `ms` milliseconds.
    pub fn milliseconds(ms: i64) -> (d: Duration)
        requires
            ms > i64::MIN,
        ensures
            d@ == ms as int * 1_000_000,
            d == duration_of(d@),
    {
        let (secs, millis) = if ms >= 0 {
            (ms / 1000, ms % 1000)
        } else {
            let m: i64 = -(ms + 1);
            (-(m / 1000) - 1, 999 - m % 1000)
        };
        proof {
            lemma_duration_of(secs, (millis * 1_000_000) as i32);
        }
        Duration { secs, nanos: (millis * 1_000_000) as i32 }
    }

    /// The span of `m` minutes.
    pub fn minutes(m: i64) -> (d: Duration)
        requires
            i64::MIN <= m as int * 60 <= i64::MAX,
            -max_total() <= m as int * 60 * NANOS_PER_SEC as int <= max_total(),
        ensures
            d@ == m as int * 60 * NANOS_PER_SEC as int,
            d == duration_of(d@),
    {
        proof {
            lemma_duration_of((m * 60) as i64, 0);
        }
        Duration { secs: m * 60, nanos: 0 }
    }

    /// The span of `h` hours.
    pub fn hours(h: i64) -> (d: Duration)
        requires
            i64::MIN <= h as int * 3600 <= i64::MAX,
            -max_total() <= h as int * 3600 * NANOS_PER_SEC as int <= max_total(),
        ensures
            d@ == h as int * 3600 * NANOS_PER_SEC as int,
            d == duration_of(d@),
    {
        proof {
            lemma_duration_of((h * 3600) as i64, 0);
        }
        Duration { secs: h * 3600, nanos: 0 }
    }

    /// The span of `days` days.
    pub fn days(days: i64) -> (d: Duration)
        requires
            i64::MIN <= days as int * 86400 <= i64::MAX,
            -max_total() <= days as int * 86400 * NANOS_PER_SEC as int <= max_total(),
        ensures
            d@ == days as int * 86400 * NANOS_PER_SEC as int,
            d == duration_of(d@),
    {
        proof {
            lemma_duration_of((days * 86400) as i64, 0);
        }
        Duration { secs: days * 86400, nanos: 0 }
    }

    /// The sum of two spans, which must stay in range (chrono panics
    /// otherwise).
    pub fn plus(self, other: Duration) -> (d: Duration)
        requires
            -max_total() <= self@ + other@ <= max_total(),
        ensures
            d@ == self@ + other@,
            d == duration_of(d@),
    {
        proof {
            use_type_invariant(&self);
            use_type_invariant(&other);
        }
        let mut nanos: i32 = self.nanos + other.nanos;
        let mut carry: i64 = 0;
        if nanos >= NANOS_PER_SEC as i32 {
            nanos = nanos - NANOS_PER_SEC as i32;
            carry = 1;
        }
        assert(self.secs as int + other.secs as int + carry as int <= i64::MAX) by {
            assert(max_total() == i64::MAX as int * 1_000_000);
        }
        assert(self.secs as int + other.secs as int + carry as int >= i64::MIN) by {
            assert(max_total() == i64::MAX as int * 1_000_000);
        }
        proof {
            lemma_duration_of((self.secs + other.secs + carry) as i64, nanos);
        }
        Duration { secs: self.secs + other.secs + carry, nanos }
    }

    /// The difference of two spans, which must stay in range (chrono panics
    /// otherwise).
    pub fn minus(self, other: Duration) -> (d: Duration)
        requires
            -max_total() <= self@ - other@ <= max_total(),
        ensures
            d@ == self@ - other@,
            d == duration_of(self@ - other@),
    {
        proof {
            use_type_invariant(&self);
            use_type_invariant(&other);
        }
        let mut nanos: i32 = self.nanos - other.nanos;
        let mut borrow: i64 = 0;
        if nanos < 0 {
            nanos = nanos + NANOS_PER_SEC as i32;
            borrow = 1;
        }
        assert(self.secs as int - other.secs as int - borrow as int <= i64::MAX) by {
            assert(max_total() == i64::MAX as int * 1_000_000);
        }
        assert(self.secs as int - other.secs as int - borrow as int >= i64::MIN) by {
            assert(max_total() == i64::MAX as int * 1_000_000);
        }
        let secs = self.secs - other.secs - borrow;
        proof {
            vstd::arithmetic::div_mod::lemma_fundamental_div_mod_converse(
                self@ - other@,
                NANOS_PER_SEC as int,
                secs as int,
                nanos as int,
            );
        }
        Duration { secs, nanos }
    }

    /// Whether `self` is the shorter span.
    pub fn is_shorter_than(self, other: Duration) -> (b: bool)
        ensures
            b == (self@ < other@),
    {
        proof {
            use_type_invariant(&self);
            use_type_invariant(&other);
        }
        self.secs < other.secs || (self.secs == other.secs && self.nanos < other.nanos)
    }

    /// The whole seconds of the span, rounded towards minus infinity, and the
    /// nanoseconds left over (`0 <= nanos < 1_000_000_000`).
    pub fn parts(self) -> (r: (i64, i32))
        ensures
            r.0 as int * NANOS_PER_SEC as int + r.1 as int == self@,
            0 <= r.1 < NANOS_PER_SEC,
    {
        proof {
            use_type_invariant(&self);
        }
        (self.secs, self.nanos)
    }

    /// The span in nanoseconds, when that fits in an `i64`
    /// (`TimeDelta::num_nanoseconds`).
    pub fn num_nanoseconds(self) -> (r: Option<i64>)
        ensures
            r matches Some(n) ==> n == self@,
            r is None <==> !(i64::MIN <= self@ <= i64::MAX),
            -max_total() <= self@ <= max_total(),
    {
        proof {
            use_type_invariant(&self);
        }
        // chrono counts whole seconds towards zero and adds the signed
        // remainder; the total is the same.
        let (secs_part, nanos_part): (i64, i64) = if self.secs < 0 && self.nanos > 0 {
            (self.secs + 1, self.nanos as i64 - NANOS_PER_SEC)
        } else {
            (self.secs, self.nanos as i64)
        };
        match secs_part.checked_mul(NANOS_PER_SEC) {
            None => {
                assert(!(i64::MIN <= self@ <= i64::MAX)) by {
                    assert(self@ == secs_part as int * NANOS_PER_SEC as int + nanos_part as int);
                    if secs_part > 0 {
                        assert(secs_part as int * NANOS_PER_SEC as int > i64::MAX);
                    } else {
                        assert((secs_part as int) * (NANOS_PER_SEC as int) < i64::MIN);
                        assert(nanos_part <= 0);
                    }
                }
                None
            },
            Some(p) => {
                assert(self@ == p as int + nanos_part as int);
                p.checked_add(nanos_part)
            },
        }
    }
}

} // verus!
