use vstd::prelude::*;

verus! {

#[verifier::external_type_specification]
#[verifier::external_body]
pub struct ExInstant(std::time::Instant);

/// The number of nanoseconds in the longest span: `u64::MAX` seconds and 999,999,999
/// nanoseconds, as for `std::time::Duration`.
pub open spec fn span_max() -> nat {
    18_446_744_073_709_551_615nat * 1_000_000_000nat + 999_999_999nat
}

/// A length of time with nanosecond resolution, from zero up to `span_max()` nanoseconds.
#[derive(Clone, Copy, Debug, PartialEq, Eq, Structural, PartialOrd, Ord, Hash)]
pub struct Span {
    nanos: u128,
}

impl Span {
    #[verifier::type_invariant]
    spec fn bounded(self) -> bool {
        self.nanos <= span_max()
    }

    /// The length of the span in nanoseconds.
    pub closed spec fn nanos(self) -> nat {
        self.nanos as nat
    }

    /// The empty span.
    pub fn zero() -> (r: Span)
        ensures
            r.nanos() == 0,
    {
        Span { nanos: 0 }
    }

    /// A span of `nanos` nanoseconds.
    pub fn from_nanos(nanos: u64) -> (r: Span)
        ensures
            r.nanos() == nanos,
    {
        Span { nanos: nanos as u128 }
    }

    /// A span of `millis` milliseconds.
    pub fn from_millis(millis: u64) -> (r: Span)
        ensures
            r.nanos() == millis * 1_000_000,
    {
        assert(millis * 1_000_000 <= span_max()) by (nonlinear_arith)
            requires
                millis <= u64::MAX,
        ;
        Span { nanos: millis as u128 * 1_000_000 }
    }

    /// A span of `secs` seconds.
    pub fn from_secs(secs: u64) -> (r: Span)
        ensures
            r.nanos() == secs * 1_000_000_000,
    {
        assert(secs * 1_000_000_000 <= span_max()) by (nonlinear_arith)
            requires
                secs <= u64::MAX,
        ;
        Span { nanos: secs as u128 * 1_000_000_000 }
    }

    /// The length in nanoseconds.
    pub fn as_nanos(&self) -> (r: u128)
        ensures
            r == self.nanos(),
            r <= span_max(),
    {
        proof {
            use_type_invariant(self);
        }
        self.nanos
    }

    /// The number of whole milliseconds.
    pub fn as_millis(&self) -> (r: u128)
        ensures
            r == self.nanos() / 1_000_000,
    {
        self.nanos / 1_000_000
    }

    /// The number of whole seconds.
    pub fn as_secs(&self) -> (r: u64)
        ensures
            r == self.nanos() / 1_000_000_000,
    {
        proof {
            use_type_invariant(self);
            assert(self.nanos / 1_000_000_000 <= u64::MAX) by (nonlinear_arith)
                requires
                    self.nanos <= span_max(),
            ;
        }
        (self.nanos / 1_000_000_000) as u64
    }

    /// The sum of two spans, which must not exceed the longest span.
    pub fn add(self, other: Span) -> (r: Span)
        requires
            self.nanos() + other.nanos() <= span_max(),
        ensures
            r.nanos() == self.nanos() + other.nanos(),
    {
        Span { nanos: self.nanos + other.nanos }
    }

    /// What is left between this span and the longest span.
    pub fn room(&self) -> (r: Span)
        ensures
            r.nanos() == span_max() - self.nanos(),
    {
        proof {
            use_type_invariant(self);
        }
        let max: u128 = 18_446_744_073_709_551_615u128 * 1_000_000_000u128 + 999_999_999u128;
        Span { nanos: max - self.nanos }
    }

    /// Whether `self` is shorter than `other`.
    pub fn lt(&self, other: &Span) -> (r: bool)
        ensures
            r == (self.nanos() < other.nanos()),
    {
        self.nanos < other.nanos
    }
}

/// Reads the monotonic clock by calling `std::time::Instant::now`; nothing is claimed of the
/// reading, which depends on the moment of the call.
#[verifier::external_body]
pub fn instant_now() -> std::time::Instant {
    std::time::Instant::now()
}

/// The time since `start`, from `std::time::Instant::elapsed` taken in nanoseconds by
/// `Duration::as_nanos`. Nothing is claimed of its length, which depends on the moment of
/// the call; as with every `Duration`, it is at most `span_max()` nanoseconds.
#[verifier::external_body]
pub fn elapsed_since(start: &std::time::Instant) -> Span {
    Span { nanos: start.elapsed().as_nanos() }
}

} // verus!
