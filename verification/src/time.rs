//! Clocks: instants and ranges in microseconds, and exact rational rates.

use crate::error::{fault, refusal, unless, Fault, VideoError, VideoErrorCode, VideoResult};
use crate::model::Model;
use vstd::prelude::*;

verus! {

/// A value with rules of its own: the refusal that its view meets, and the check that reports it.
pub trait Validate: DeepView {
    spec fn fault_of(model: Self::V) -> Option<Fault>;

    fn validate(&self) -> (result: VideoResult<()>)
        ensures
            refusal(result) == Self::fault_of(self.deep_view()),
    ;
}

/// An instant or a length on a clock of microseconds.
#[derive(Clone, Copy, Debug, PartialEq, Eq, PartialOrd, Ord, Structural)]
pub struct Microseconds(pub i64);

impl DeepView for Microseconds {
    type V = Microseconds;

    open spec fn deep_view(&self) -> Microseconds {
        *self
    }
}

impl Model for Microseconds {
    fn duplicate(&self) -> (copy: Self) {
        *self
    }

    fn same(&self, other: &Self) -> (equal: bool) {
        *self == *other
    }
}

/// Why a sum left the clock.
pub open spec fn addition_fault() -> Fault {
    fault(VideoErrorCode::ArithmeticOverflow, "microsecond addition overflowed"@)
}

pub open spec fn on_clock(value: int) -> bool {
    i64::MIN <= value <= i64::MAX
}

impl Microseconds {
    pub fn zero() -> (instant: Self)
        ensures
            instant == Microseconds(0),
    {
        Microseconds(0)
    }

    pub fn checked_add(self, other: Self) -> (result: VideoResult<Self>)
        ensures
            refusal(result) == unless(on_clock(self.0 + other.0), addition_fault()),
            result matches Ok(sum) ==> sum.0 == self.0 + other.0,
    {
        match self.0.checked_add(other.0) {
            Some(sum) => Ok(Microseconds(sum)),
            None => Err(
                VideoError::new(
                    VideoErrorCode::ArithmeticOverflow,
                    "microsecond addition overflowed",
                ),
            ),
        }
    }

    pub fn is_non_negative(self) -> (result: bool)
        ensures
            result == (self.0 >= 0),
    {
        self.0 >= 0
    }

    /// The later of two instants.
    pub fn later(self, other: Self) -> (result: Self)
        ensures
            result.0 == if self.0 >= other.0 { self.0 } else { other.0 },
    {
        if self.0 >= other.0 {
            self
        } else {
            other
        }
    }

    /// The earlier of two instants.
    pub fn earlier(self, other: Self) -> (result: Self)
        ensures
            result.0 == if self.0 <= other.0 { self.0 } else { other.0 },
    {
        if self.0 <= other.0 {
            self
        } else {
            other
        }
    }
}

/// A stretch of a clock, from `start_us` up to but not including `end_us`.
#[derive(Clone, Copy, Debug, PartialEq, Eq, Structural)]
pub struct TimeRange {
    pub start_us: Microseconds,
    pub end_us: Microseconds,
}

impl DeepView for TimeRange {
    type V = TimeRange;

    open spec fn deep_view(&self) -> TimeRange {
        *self
    }
}

impl Model for TimeRange {
    fn duplicate(&self) -> (copy: Self) {
        *self
    }

    fn same(&self, other: &Self) -> (equal: bool) {
        *self == *other
    }
}

/// The range between two instants.
pub open spec fn range_between(start: int, end: int) -> TimeRange {
    TimeRange { start_us: Microseconds(start as i64), end_us: Microseconds(end as i64) }
}

pub open spec fn range_fault(start: int, end: int) -> Option<Fault> {
    unless(
        0 <= start < end,
        fault(
            VideoErrorCode::InvalidTimestamp,
            "a time range must have 0 <= start_us < end_us"@,
        ),
    )
}

impl TimeRange {
    pub open spec fn start(self) -> int {
        self.start_us.0 as int
    }

    pub open spec fn end(self) -> int {
        self.end_us.0 as int
    }

    /// The length of the range; negative where it ends before it starts.
    pub open spec fn length(self) -> int {
        self.end_us.0 - self.start_us.0
    }

    pub open spec fn valid(self) -> bool {
        0 <= self.start_us.0 < self.end_us.0
    }

    /// Whether the sample at an instant belongs to this range.
    pub open spec fn owns(self, instant: int) -> bool {
        self.start_us.0 <= instant < self.end_us.0
    }

    /// Whether another range lies wholly inside this one.
    pub open spec fn encloses(self, inner: TimeRange) -> bool {
        self.start_us.0 <= inner.start_us.0 && inner.end_us.0 <= self.end_us.0
    }

    pub fn new(start_us: i64, end_us: i64) -> (result: VideoResult<Self>)
        ensures
            refusal(result) == range_fault(start_us as int, end_us as int),
            result matches Ok(range) ==> range == (TimeRange {
                start_us: Microseconds(start_us),
                end_us: Microseconds(end_us),
            }),
    {
        let range = TimeRange { start_us: Microseconds(start_us), end_us: Microseconds(end_us) };
        range.validate()?;
        Ok(range)
    }

    pub fn duration(self) -> (result: VideoResult<Microseconds>)
        ensures
            refusal(result) == unless(
                on_clock(self.length()),
                fault(VideoErrorCode::ArithmeticOverflow, "time range duration overflowed"@),
            ),
            result matches Ok(duration) ==> duration.0 == self.length(),
    {
        match self.end_us.0.checked_sub(self.start_us.0) {
            Some(length) => Ok(Microseconds(length)),
            None => Err(
                VideoError::new(
                    VideoErrorCode::ArithmeticOverflow,
                    "time range duration overflowed",
                ),
            ),
        }
    }

    /// Returns whether a media sample belongs to this half-open range.
    ///
    /// Timeline samples use `[start_us, end_us)`, so two adjacent ranges never claim the same
    /// sample. Use [`Self::contains_endpoint`] only when mapping an edit boundary rather than
    /// locating media at an instant.
    pub fn contains(self, instant: Microseconds) -> (result: bool)
        ensures
            result == self.owns(instant.0 as int),
    {
        instant.0 >= self.start_us.0 && instant.0 < self.end_us.0
    }

    /// Returns whether an edit boundary lies on or within this range.
    ///
    /// Endpoints are closed for exact range conversion: the exclusive end of a clip may be
    /// converted to the corresponding exclusive end in another clock without making that endpoint
    /// a sample owned by the clip.
    pub fn contains_endpoint(self, instant: Microseconds) -> (result: bool)
        ensures
            result == (self.start_us.0 <= instant.0 <= self.end_us.0),
    {
        instant.0 >= self.start_us.0 && instant.0 <= self.end_us.0
    }

    /// Whether another range lies wholly inside this one.
    pub fn contains_range(self, inner: TimeRange) -> (result: bool)
        ensures
            result == self.encloses(inner),
    {
        inner.start_us.0 >= self.start_us.0 && inner.end_us.0 <= self.end_us.0
    }
}

impl Validate for TimeRange {
    open spec fn fault_of(model: TimeRange) -> Option<Fault> {
        range_fault(model.start(), model.end())
    }

    fn validate(&self) -> (result: VideoResult<()>) {
        assert(TimeRange::fault_of(*self) == range_fault(self.start(), self.end()));
        if self.start_us.0 < 0 || self.end_us.0 <= self.start_us.0 {
            return Err(
                VideoError::new(
                    VideoErrorCode::InvalidTimestamp,
                    "a time range must have 0 <= start_us < end_us",
                ),
            );
        }
        Ok(())
    }
}

/// Two ranges that meet end to start never claim the same sample, and miss none between them.
pub proof fn adjacent_ranges_split_their_samples(left: TimeRange, right: TimeRange, instant: int)
    requires
        left.valid(),
        right.valid(),
        left.end_us == right.start_us,
    ensures
        !(left.owns(instant) && right.owns(instant)),
        left.start() <= instant < right.end() <==> left.owns(instant) || right.owns(instant),
{
}

/// Whether an integer divides another.
pub open spec fn divides(d: int, n: int) -> bool {
    d != 0 && n % d == 0
}

/// Whether two positive integers have no common divisor but one.
pub open spec fn coprime(a: int, b: int) -> bool {
    forall|d: int| d > 1 && #[trigger] divides(d, a) ==> !divides(d, b)
}

/// Euclid's algorithm on the mathematical integers.
pub open spec fn gcd(a: nat, b: nat) -> nat
    decreases b,
{
    if b == 0 {
        a
    } else {
        gcd(b, a % b)
    }
}

proof fn lemma_common_divisor_step(d: int, a: int, b: int)
    requires
        d > 0,
        b > 0,
        a >= 0,
        divides(d, b),
    ensures
        divides(d, a) <==> divides(d, a % b),
{
    let k = b / d;
    vstd::arithmetic::div_mod::lemma_fundamental_div_mod(b, d);
    let q = a / b;
    vstd::arithmetic::div_mod::lemma_fundamental_div_mod(a, b);
    assert(b == d * k);
    assert(a == b * q + a % b);
    assert(a == d * (k * q) + a % b) by (nonlinear_arith)
        requires
            a == b * q + a % b,
            b == d * k,
    ;
    vstd::arithmetic::div_mod::lemma_mod_multiples_vanish(k * q, a % b, d);
}

/// The greatest common divisor divides both numbers, and every common divisor divides it.
pub proof fn lemma_gcd(a: nat, b: nat, d: int)
    requires
        d > 0,
        a > 0 || b > 0,
    ensures
        gcd(a, b) > 0,
        divides(gcd(a, b) as int, a as int),
        divides(gcd(a, b) as int, b as int),
        divides(d, a as int) && divides(d, b as int) <==> divides(d, gcd(a, b) as int),
    decreases b,
{
    if b == 0 {
        assert(a as int % a as int == 0) by (nonlinear_arith)
            requires
                a > 0,
        ;
        assert(0int % (a as int) == 0) by (nonlinear_arith)
            requires
                a > 0,
        ;
        assert(0int % d == 0) by (nonlinear_arith)
            requires
                d > 0,
        ;
    } else {
        lemma_gcd(b, a % b, d);
        let g = gcd(a, b) as int;
        lemma_common_divisor_step(g, a as int, b as int);
        if divides(d, b as int) {
            lemma_common_divisor_step(d, a as int, b as int);
        }
    }
}

/// Two positive numbers are coprime exactly where their greatest common divisor is one.
pub proof fn gcd_one_is_coprime(a: nat, b: nat)
    requires
        a > 0,
        b > 0,
    ensures
        gcd(a, b) == 1 <==> coprime(a as int, b as int),
{
    lemma_gcd(a, b, 1);
    let g = gcd(a, b) as int;
    if g == 1 {
        assert forall|d: int| d > 1 && #[trigger] divides(d, a as int) implies !divides(
            d,
            b as int,
        ) by {
            lemma_gcd(a, b, d);
            if divides(d, b as int) {
                assert(1int % d == 1) by (nonlinear_arith)
                    requires
                        d > 1,
                ;
            }
        }
    } else {
        assert(divides(g, a as int) && divides(g, b as int));
    }
}

/// The greatest common divisor, by Euclid's algorithm.
pub fn gcd_u32(left: u32, right: u32) -> (result: u32)
    ensures
        result == gcd(left as nat, right as nat),
{
    let mut a: u32 = left;
    let mut b: u32 = right;
    while b != 0
        invariant
            gcd(a as nat, b as nat) == gcd(left as nat, right as nat),
        decreases b,
    {
        let remainder: u32 = a % b;
        a = b;
        b = remainder;
    }
    a
}

/// Frames per second, as a reduced fraction.
#[derive(Clone, Copy, Debug, PartialEq, Eq, Structural)]
pub struct RationalFrameRate {
    pub numerator: u32,
    pub denominator: u32,
}

impl DeepView for RationalFrameRate {
    type V = RationalFrameRate;

    open spec fn deep_view(&self) -> RationalFrameRate {
        *self
    }
}

impl Model for RationalFrameRate {
    fn duplicate(&self) -> (copy: Self) {
        *self
    }

    fn same(&self, other: &Self) -> (equal: bool) {
        *self == *other
    }
}

impl RationalFrameRate {
    pub fn fps_24() -> (rate: Self)
        ensures
            rate == (RationalFrameRate { numerator: 24, denominator: 1 }),
    {
        RationalFrameRate { numerator: 24, denominator: 1 }
    }

    pub fn fps_30() -> (rate: Self)
        ensures
            rate == (RationalFrameRate { numerator: 30, denominator: 1 }),
    {
        RationalFrameRate { numerator: 30, denominator: 1 }
    }

    pub fn fps_30000_1001() -> (rate: Self)
        ensures
            rate == (RationalFrameRate { numerator: 30_000, denominator: 1_001 }),
    {
        RationalFrameRate { numerator: 30_000, denominator: 1_001 }
    }
}

impl Validate for RationalFrameRate {
    open spec fn fault_of(model: RationalFrameRate) -> Option<Fault> {
        if model.numerator == 0 || model.denominator == 0 {
            Some(
                fault(
                    VideoErrorCode::InvalidFrameRate,
                    "frame-rate numerator and denominator must be positive"@,
                ),
            )
        } else if model.numerator > 240_000 || model.denominator > 10_000 {
            Some(
                fault(
                    VideoErrorCode::InvalidFrameRate,
                    "frame rate is outside the supported range"@,
                ),
            )
        } else {
            unless(
                coprime(model.numerator as int, model.denominator as int),
                fault(
                    VideoErrorCode::InvalidFrameRate,
                    "frame rate must be stored as a reduced rational"@,
                ),
            )
        }
    }

    fn validate(&self) -> (result: VideoResult<()>) {
        if self.numerator == 0 || self.denominator == 0 {
            return Err(
                VideoError::new(
                    VideoErrorCode::InvalidFrameRate,
                    "frame-rate numerator and denominator must be positive",
                ),
            );
        }
        if self.numerator > 240_000 || self.denominator > 10_000 {
            return Err(
                VideoError::new(
                    VideoErrorCode::InvalidFrameRate,
                    "frame rate is outside the supported range",
                ),
            );
        }
        proof {
            gcd_one_is_coprime(self.numerator as nat, self.denominator as nat);
        }
        if gcd_u32(self.numerator, self.denominator) != 1 {
            return Err(
                VideoError::new(
                    VideoErrorCode::InvalidFrameRate,
                    "frame rate must be stored as a reduced rational",
                ),
            );
        }
        Ok(())
    }
}

/// How fast a clip plays, as a reduced fraction.
#[derive(Clone, Copy, Debug, PartialEq, Eq, Structural)]
pub struct RationalRate {
    /// Source-clock units consumed for every `denominator` timeline units.
    pub numerator: u32,
    pub denominator: u32,
}

impl DeepView for RationalRate {
    type V = RationalRate;

    open spec fn deep_view(&self) -> RationalRate {
        *self
    }
}

impl Model for RationalRate {
    fn duplicate(&self) -> (copy: Self) {
        *self
    }

    fn same(&self, other: &Self) -> (equal: bool) {
        *self == *other
    }
}

impl RationalRate {
    /// Every timeline unit consumes one source unit.
    pub fn one() -> (rate: Self)
        ensures
            rate == (RationalRate { numerator: 1, denominator: 1 }),
    {
        RationalRate { numerator: 1, denominator: 1 }
    }

    /// The slowest rate a clip may play at.
    pub fn slowest() -> (rate: Self)
        ensures
            rate == (RationalRate { numerator: 1, denominator: 8 }),
    {
        RationalRate { numerator: 1, denominator: 8 }
    }

    /// The fastest rate a clip may play at.
    pub fn fastest() -> (rate: Self)
        ensures
            rate == (RationalRate { numerator: 8, denominator: 1 }),
    {
        RationalRate { numerator: 8, denominator: 1 }
    }
}

impl Validate for RationalRate {
    open spec fn fault_of(model: RationalRate) -> Option<Fault> {
        if model.numerator == 0 || model.denominator == 0 {
            Some(
                fault(
                    VideoErrorCode::DurationMismatch,
                    "playback-rate numerator and denominator must be positive"@,
                ),
            )
        } else if !coprime(model.numerator as int, model.denominator as int) {
            Some(
                fault(
                    VideoErrorCode::DurationMismatch,
                    "playback rate must be stored as a reduced rational"@,
                ),
            )
        } else {
            unless(
                model.denominator <= 8 * model.numerator && model.numerator <= 8
                    * model.denominator,
                fault(
                    VideoErrorCode::DurationMismatch,
                    "playback rate must be within the supported 1/8x..=8x range"@,
                ),
            )
        }
    }

    fn validate(&self) -> (result: VideoResult<()>) {
        if self.numerator == 0 || self.denominator == 0 {
            return Err(
                VideoError::new(
                    VideoErrorCode::DurationMismatch,
                    "playback-rate numerator and denominator must be positive",
                ),
            );
        }
        proof {
            gcd_one_is_coprime(self.numerator as nat, self.denominator as nat);
        }
        if gcd_u32(self.numerator, self.denominator) != 1 {
            return Err(
                VideoError::new(
                    VideoErrorCode::DurationMismatch,
                    "playback rate must be stored as a reduced rational",
                ),
            );
        }
        let numerator: u64 = self.numerator as u64;
        let denominator: u64 = self.denominator as u64;
        if numerator * 8 < denominator || numerator > 8 * denominator {
            return Err(
                VideoError::new(
                    VideoErrorCode::DurationMismatch,
                    "playback rate must be within the supported 1/8x..=8x range",
                ),
            );
        }
        Ok(())
    }
}

} // verus!
