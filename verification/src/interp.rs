//! Linear interpolation over integer metrics, and the per-metric policy that
//! decides between interpolating and holding a value.

use vstd::prelude::*;
use vstd::arithmetic::div_mod::{lemma_div_is_ordered, lemma_div_multiples_vanish};
use vstd::arithmetic::mul::lemma_mul_is_commutative;

verus! {

/// The value at `elapsed / span` of the way from `current` to `next`.
///
/// The part of the way that is covered is rounded towards `current`, so the
/// result never leaves the closed range between the two end values.
pub open spec fn lerp(current: int, next: int, elapsed: int, span: int) -> int {
    if next >= current {
        current + ((next - current) * elapsed) / span
    } else {
        current - ((current - next) * elapsed) / span
    }
}

/// Denominator of the position of a query time inside the interval from
/// `start` to `end`: the width of the interval, or one where the interval is
/// degenerate (its ends coincide or are reversed).
pub open spec fn span_within(start: int, end: int) -> int {
    if end > start {
        end - start
    } else {
        1
    }
}

/// Numerator of the position of the instant `at` inside the interval from
/// `start` to `end`: the time elapsed since `start`, held inside the interval.
/// Inside a degenerate interval nothing ever elapses.
pub open spec fn elapsed_within(start: int, end: int, at: int) -> int {
    if end <= start || at <= start {
        0
    } else if at >= end {
        end - start
    } else {
        at - start
    }
}

/// Normalised position of a query time inside a bracketing interval, kept as
/// the exact ratio `elapsed / span` with `elapsed <= span` and `span >= 1`.
#[derive(Clone, Copy, Debug, PartialEq, Eq)]
pub struct Fraction {
    elapsed: u64,
    span: u64,
}

impl Fraction {
    #[verifier::type_invariant]
    spec fn well_formed(self) -> bool {
        self.elapsed <= self.span && self.span >= 1
    }

    /// Numerator of the ratio.
    pub closed spec fn elapsed(self) -> int {
        self.elapsed as int
    }

    /// Denominator of the ratio.
    pub closed spec fn span(self) -> int {
        self.span as int
    }

    /// The start of an interval.
    pub fn zero() -> (fraction: Fraction)
        ensures
            fraction.elapsed() == 0,
            fraction.span() == 1,
    {
        Fraction { elapsed: 0, span: 1 }
    }

    /// The ratio `elapsed / span`, clamped into `[0, 1]`. A `span` of zero
    /// describes a degenerate interval and gives the start of the interval.
    pub fn new(elapsed: u64, span: u64) -> (fraction: Fraction)
        ensures
            span == 0 ==> fraction.elapsed() == 0 && fraction.span() == 1,
            span > 0 ==> fraction.span() == span,
            span > 0 && elapsed <= span ==> fraction.elapsed() == elapsed,
            span > 0 && elapsed > span ==> fraction.elapsed() == span,
    {
        if span == 0 {
            Fraction { elapsed: 0, span: 1 }
        } else if elapsed > span {
            Fraction { elapsed: span, span }
        } else {
            Fraction { elapsed, span }
        }
    }

    /// Position of the instant `at` inside the interval from `start` to `end`.
    ///
    /// An interval whose ends coincide (or are reversed) has no width: the
    /// position is then the start of the interval, and nothing is divided.
    pub fn between(start: i64, end: i64, at: i64) -> (fraction: Fraction)
        ensures
            fraction.elapsed() == elapsed_within(start as int, end as int, at as int),
            fraction.span() == span_within(start as int, end as int),
    {
        if end <= start {
            return Fraction::zero();
        }
        let span: u64 = (end as i128 - start as i128) as u64;
        if at <= start {
            Fraction { elapsed: 0, span }
        } else if at >= end {
            Fraction { elapsed: span, span }
        } else {
            let since: u64 = (at as i128 - start as i128) as u64;
            Fraction { elapsed: since, span }
        }
    }

    /// Numerator of the ratio.
    pub fn elapsed_part(&self) -> (elapsed: u64)
        ensures
            elapsed == self.elapsed(),
            elapsed <= self.span(),
    {
        proof {
            use_type_invariant(self);
        }
        self.elapsed
    }

    /// Denominator of the ratio; never zero.
    pub fn span_part(&self) -> (span: u64)
        ensures
            span == self.span(),
            span >= 1,
    {
        proof {
            use_type_invariant(self);
        }
        self.span
    }
}

/// A product of two 64-bit magnitudes, divided by a divisor no smaller than
/// the second factor, fits in 128 bits and does not exceed the first factor.
proof fn lemma_scaled_part_bounded(distance: int, elapsed: int, span: int)
    requires
        0 <= distance <= u64::MAX,
        0 <= elapsed <= span <= u64::MAX,
        span >= 1,
    ensures
        0 <= distance * elapsed <= u128::MAX,
        0 <= (distance * elapsed) / span <= distance,
{
    assert(0 <= distance * elapsed <= distance * span) by (nonlinear_arith)
        requires
            0 <= distance,
            0 <= elapsed <= span,
    ;
    assert(distance * span <= u128::MAX) by (nonlinear_arith)
        requires
            0 <= distance <= 0xffff_ffff_ffff_ffff,
            0 <= span <= 0xffff_ffff_ffff_ffff,
    ;
    lemma_div_is_ordered(distance * elapsed, distance * span, span);
    lemma_mul_is_commutative(distance, span);
    lemma_div_multiples_vanish(distance, span);
    assert(0 <= (distance * elapsed) / span) by (nonlinear_arith)
        requires
            0 <= distance * elapsed,
            span >= 1,
    ;
}

/// Linear interpolation from `current` to `next` at `fraction`.
pub fn interpolate(current: i64, next: i64, fraction: Fraction) -> (value: i64)
    ensures
        value == lerp(current as int, next as int, fraction.elapsed(), fraction.span()),
{
    proof {
        use_type_invariant(fraction);
    }
    let elapsed: u128 = fraction.elapsed as u128;
    let span: u128 = fraction.span as u128;
    if next >= current {
        let distance: u128 = (next as i128 - current as i128) as u128;
        proof {
            lemma_scaled_part_bounded(distance as int, elapsed as int, span as int);
        }
        let covered: u128 = distance * elapsed / span;
        (current as i128 + covered as i128) as i64
    } else {
        let distance: u128 = (current as i128 - next as i128) as u128;
        proof {
            lemma_scaled_part_bounded(distance as int, elapsed as int, span as int);
        }
        let covered: u128 = distance * elapsed / span;
        (current as i128 - covered as i128) as i64
    }
}

/// How a metric is carried across a bracketing interval.
#[derive(Clone, Copy, Debug, PartialEq, Eq, Structural)]
pub enum Policy {
    /// A continuous signal: interpolated linearly between the two samples.
    Interpolated,
    /// A sparse or quantised signal: the current sample's reading is
    /// reported unchanged until the interval advances.
    Stepped,
}

/// The reading reported at `elapsed / span` of an interval whose two samples
/// read `current` and `next`, where an absent reading means "unknown".
///
/// A stepped metric reports the current reading, absent or not. An
/// interpolated metric is interpolated where both readings are known; where
/// only one is known that one is held, and where neither is the result is
/// absent. Absence is never replaced by zero.
pub open spec fn blended(
    policy: Policy,
    current: Option<i64>,
    next: Option<i64>,
    elapsed: int,
    span: int,
) -> Option<i64> {
    match policy {
        Policy::Stepped => current,
        Policy::Interpolated => match (current, next) {
            (Some(from), Some(to)) => Some(lerp(from as int, to as int, elapsed, span) as i64),
            (Some(from), None) => Some(from),
            (None, Some(to)) => Some(to),
            (None, None) => None,
        },
    }
}

/// Applies `policy` to the readings of one metric in the two samples of an
/// interval.
pub fn blend(
    policy: Policy,
    current: Option<i64>,
    next: Option<i64>,
    fraction: Fraction,
) -> (value: Option<i64>)
    ensures
        value == blended(policy, current, next, fraction.elapsed(), fraction.span()),
{
    match policy {
        Policy::Stepped => current,
        Policy::Interpolated => match (current, next) {
            (Some(from), Some(to)) => Some(interpolate(from, to, fraction)),
            (Some(from), None) => Some(from),
            (None, Some(to)) => Some(to),
            (None, None) => None,
        },
    }
}

/// At the start of an interval the interpolated value is exactly the current
/// reading, and at its end exactly the next one.
pub proof fn lemma_lerp_exact_at_ends(current: int, next: int, span: int)
    requires
        span >= 1,
    ensures
        lerp(current, next, 0, span) == current,
        lerp(current, next, span, span) == next,
{
    assert((next - current) * 0 == 0 && (current - next) * 0 == 0) by (nonlinear_arith);
    if next >= current {
        lemma_mul_is_commutative(next - current, span);
        lemma_div_multiples_vanish(next - current, span);
    } else {
        lemma_mul_is_commutative(current - next, span);
        lemma_div_multiples_vanish(current - next, span);
    }
}

/// Inside an interval the interpolated value lies between the two readings,
/// whichever of them is the larger.
pub proof fn lemma_lerp_between_ends(current: int, next: int, elapsed: int, span: int)
    requires
        0 <= elapsed <= span,
        span >= 1,
    ensures
        current <= next ==> current <= lerp(current, next, elapsed, span) <= next,
        next <= current ==> next <= lerp(current, next, elapsed, span) <= current,
{
    let distance = if next >= current {
        next - current
    } else {
        current - next
    };
    assert(0 <= distance * elapsed <= distance * span) by (nonlinear_arith)
        requires
            0 <= distance,
            0 <= elapsed <= span,
    ;
    lemma_div_is_ordered(distance * elapsed, distance * span, span);
    lemma_mul_is_commutative(distance, span);
    lemma_div_multiples_vanish(distance, span);
    assert(0 <= (distance * elapsed) / span) by (nonlinear_arith)
        requires
            0 <= distance * elapsed,
            span >= 1,
    ;
}

/// As the query time moves forward through an interval, the interpolated
/// value moves from the current reading towards the next and never back.
pub proof fn lemma_lerp_monotone(current: int, next: int, earlier: int, later: int, span: int)
    requires
        0 <= earlier <= later <= span,
        span >= 1,
    ensures
        current <= next ==> lerp(current, next, earlier, span) <= lerp(
            current,
            next,
            later,
            span,
        ),
        next <= current ==> lerp(current, next, later, span) <= lerp(
            current,
            next,
            earlier,
            span,
        ),
{
    let distance = if next >= current {
        next - current
    } else {
        current - next
    };
    assert(distance * earlier <= distance * later) by (nonlinear_arith)
        requires
            0 <= distance,
            0 <= earlier <= later,
    ;
    lemma_div_is_ordered(distance * earlier, distance * later, span);
}

/// Inside a degenerate interval, whose two samples share one timestamp, every
/// query time is at the start of the interval: nothing is divided by the
/// zero width, and a metric reads what the current sample reads.
///
/// The one case left out is an interpolated metric that is absent in the
/// current sample and present in the next: that one holds the next reading,
/// as it does in every interval.
pub proof fn lemma_degenerate_interval_reads_current(
    policy: Policy,
    current: Option<i64>,
    next: Option<i64>,
    timestamp: int,
    at: int,
)
    requires
        !(policy == Policy::Interpolated && current is None && next is Some),
    ensures
        elapsed_within(timestamp, timestamp, at) == 0,
        span_within(timestamp, timestamp) == 1,
        blended(
            policy,
            current,
            next,
            elapsed_within(timestamp, timestamp, at),
            span_within(timestamp, timestamp),
        ) == current,
{
    if current is Some && next is Some {
        lemma_lerp_exact_at_ends(current.unwrap() as int, next.unwrap() as int, 1);
    }
}

/// A reading known only in the next sample is held, not blended, by an
/// interpolated metric; a stepped metric stays absent for the whole interval.
pub proof fn lemma_absent_current_reading(next: i64, elapsed: int, span: int)
    ensures
        blended(Policy::Interpolated, None, Some(next), elapsed, span) == Some(next),
        blended(Policy::Stepped, None, Some(next), elapsed, span) == None::<i64>,
{
}

/// A reading known only in the current sample is held by either policy, and a
/// reading known in neither sample is reported absent.
pub proof fn lemma_absent_next_reading(policy: Policy, current: i64, elapsed: int, span: int)
    ensures
        blended(policy, Some(current), None, elapsed, span) == Some(current),
        blended(policy, None, None, elapsed, span) == None::<i64>,
{
}

} // verus!
