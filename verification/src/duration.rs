//! A span of time: whole seconds and the nanoseconds beyond them.

use vstd::prelude::*;

verus! {

/// Nanoseconds in a second.
pub const NANOS_PER_SEC: u32 = 1_000_000_000;

/// Nanoseconds in a millisecond.
pub const NANOS_PER_MILLI: u32 = 1_000_000;

/// A span of time. Its nanosecond part is always below a full second, so two
/// spans are equal exactly when they are equally long.
#[derive(Debug, Clone, Copy, PartialEq, Eq, Structural, Hash)]
pub struct Duration {
    secs: u64,
    nanos: u32,
}

/// The longest span, in nanoseconds.
pub open spec fn longest() -> nat {
    (u64::MAX as nat) * 1_000_000_000 + 999_999_999
}

impl View for Duration {
    type V = nat;

    /// The span in nanoseconds.
    closed spec fn view(&self) -> nat {
        (self.secs as nat) * 1_000_000_000 + self.nanos as nat
    }
}

impl Duration {
    #[verifier::type_invariant]
    spec fn normal(self) -> bool {
        self.nanos < 1_000_000_000
    }

    /// The whole seconds.
    pub closed spec fn secs(self) -> u64 {
        self.secs
    }

    /// The nanoseconds beyond the whole seconds.
    pub closed spec fn beyond(self) -> u32 {
        self.nanos
    }

    /// No time at all.
    pub fn zero() -> (r: Duration)
        ensures
            r@ == 0,
    {
        Duration { secs: 0, nanos: 0 }
    }

    /// The longest span.
    pub fn longest_span() -> (r: Duration)
        ensures
            r@ == longest(),
    {
        Duration { secs: u64::MAX, nanos: 999_999_999 }
    }

    /// A span of whole seconds and nanoseconds beyond them.
    pub fn new(secs: u64, nanos: u32) -> (r: Duration)
        requires
            nanos < NANOS_PER_SEC,
        ensures
            r@ == secs * 1_000_000_000 + nanos,
            r.secs() == secs,
            r.beyond() == nanos,
    {
        Duration { secs, nanos }
    }

    /// A span of whole seconds.
    pub fn from_secs(secs: u64) -> (r: Duration)
        ensures
            r@ == secs * 1_000_000_000,
    {
        Duration { secs, nanos: 0 }
    }

    /// A span of milliseconds.
    pub fn from_millis(millis: u64) -> (r: Duration)
        ensures
            r@ == millis * 1_000_000,
    {
        Duration { secs: millis / 1000, nanos: ((millis % 1000) as u32) * NANOS_PER_MILLI }
    }

    /// A span of nanoseconds.
    pub fn from_nanos(nanos: u64) -> (r: Duration)
        ensures
            r@ == nanos,
    {
        Duration { secs: nanos / 1_000_000_000, nanos: (nanos % 1_000_000_000) as u32 }
    }

    /// The whole seconds of the span.
    pub fn as_secs(&self) -> (r: u64)
        ensures
            r == self.secs(),
            r == self@ / 1_000_000_000,
    {
        proof {
            use_type_invariant(self);
        }
        self.secs
    }

    /// The nanoseconds beyond the whole seconds.
    pub fn subsec_nanos(&self) -> (r: u32)
        ensures
            r == self.beyond(),
            r == self@ % 1_000_000_000,
            r < NANOS_PER_SEC,
    {
        proof {
            use_type_invariant(self);
        }
        self.nanos
    }

    /// The span in nanoseconds.
    pub fn as_nanos(&self) -> (r: u128)
        ensures
            r == self@,
    {
        (self.secs as u128) * 1_000_000_000 + self.nanos as u128
    }

    /// Whether the span is no time at all.
    pub fn is_zero(&self) -> (r: bool)
        ensures
            r == (self@ == 0),
    {
        self.secs == 0 && self.nanos == 0
    }

    /// Whether this span is shorter than `other`.
    pub fn shorter_than(&self, other: &Duration) -> (r: bool)
        ensures
            r == (self@ < other@),
    {
        proof {
            use_type_invariant(self);
            use_type_invariant(other);
        }
        self.secs < other.secs || (self.secs == other.secs && self.nanos < other.nanos)
    }

    /// Whether two spans are equally long.
    pub fn same_as(&self, other: &Duration) -> (r: bool)
        ensures
            r == (self@ == other@),
            r == (*self == *other),
    {
        proof {
            use_type_invariant(self);
            use_type_invariant(other);
        }
        self.secs == other.secs && self.nanos == other.nanos
    }

    /// The sum of two spans, or the longest span where it does not fit.
    pub fn saturating_add(self, other: Duration) -> (r: Duration)
        ensures
            r@ == if self@ + other@ > longest() {
                longest()
            } else {
                self@ + other@
            },
    {
        proof {
            use_type_invariant(&self);
            use_type_invariant(&other);
        }
        let carried: bool = self.nanos + other.nanos >= NANOS_PER_SEC;
        let nanos: u32 = if carried {
            self.nanos + other.nanos - NANOS_PER_SEC
        } else {
            self.nanos + other.nanos
        };
        let secs: u128 = self.secs as u128 + other.secs as u128 + if carried {
            1
        } else {
            0
        };
        if secs > u64::MAX as u128 {
            Duration::longest_span()
        } else {
            Duration { secs: secs as u64, nanos }
        }
    }

    /// How much longer this span is than `other`, or no time where it is not.
    pub fn saturating_sub(self, other: Duration) -> (r: Duration)
        ensures
            r@ == if self@ < other@ {
                0
            } else {
                (self@ - other@) as nat
            },
    {
        if self.shorter_than(&other) {
            Duration::zero()
        } else {
            proof {
                use_type_invariant(&self);
                use_type_invariant(&other);
            }
            if self.nanos >= other.nanos {
                Duration { secs: self.secs - other.secs, nanos: self.nanos - other.nanos }
            } else {
                Duration {
                    secs: self.secs - other.secs - 1,
                    nanos: self.nanos + NANOS_PER_SEC - other.nanos,
                }
            }
        }
    }

    /// The span divided into `parts`, rounded down to a nanosecond.
    pub fn divided_by(self, parts: u32) -> (r: Duration)
        requires
            parts > 0,
        ensures
            r@ == self@ / (parts as nat),
    {
        proof {
            use_type_invariant(&self);
        }
        let whole: u64 = self.secs / (parts as u64);
        let rest: u64 = self.secs % (parts as u64);
        let beyond: u64 = (rest * 1_000_000_000 + self.nanos as u64) / (parts as u64);
        proof {
            let p = parts as int;
            let w = whole as int;
            let t = rest as int * 1_000_000_000 + self.nanos as int;
            assert(self.secs as int == p * w + rest as int) by {
                vstd::arithmetic::div_mod::lemma_fundamental_div_mod(self.secs as int, p);
            }
            assert(self@ == p * (w * 1_000_000_000) + t) by (nonlinear_arith)
                requires
                    self@ == self.secs as int * 1_000_000_000 + self.nanos as int,
                    self.secs as int == p * w + rest as int,
                    t == rest as int * 1_000_000_000 + self.nanos as int,
            ;
            assert(self@ as int / p == w * 1_000_000_000 + t / p) by {
                vstd::arithmetic::div_mod::lemma_hoist_over_denominator(t, w * 1_000_000_000, p as nat);
                assert(p * (w * 1_000_000_000) == (w * 1_000_000_000) * p) by (nonlinear_arith);
            }
            assert(0 <= t / p < 1_000_000_000) by (nonlinear_arith)
                requires
                    0 <= t,
                    t < p * 1_000_000_000,
                    p > 0,
            ;
        }
        Duration { secs: whole, nanos: beyond as u32 }
    }
}

/// What `Debug` prints for a span of that many nanoseconds.
pub uninterp spec fn duration_text(span: nat) -> Seq<char>;

impl Duration {
    /// Calls `std`'s `Debug` for `Duration`. The contract names the result, which
    /// is a function of the span alone, and says nothing of how it is printed.
    #[verifier::external_body]
    pub(crate) fn words(&self) -> (r: String)
        ensures
            r@ == duration_text(self@),
    {
        format!("{:?}", std::time::Duration::new(self.secs, self.nanos))
    }
}

/// The lower sixty-four bits of a number, as a count of nanoseconds that has
/// run over keeps them.
pub open spec fn low_bits(n: nat) -> u64 {
    (n % 0x1_0000_0000_0000_0000) as u64
}

/// The lower sixty-four bits of a span's nanoseconds.
pub fn nanos(duration: Duration) -> (r: u64)
    ensures
        r == low_bits(duration@),
{
    (duration.as_nanos() % 0x1_0000_0000_0000_0000) as u64
}

} // verus!
