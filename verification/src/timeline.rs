//! The two clocks of a clip, and frames.

use crate::error::{fault, or_else, refusal, unless, Fault, VideoError, VideoErrorCode, VideoResult};
use crate::manifest::{TimelineClip, TimelineClipModel};
use crate::time::{on_clock, range_fault, Microseconds, RationalFrameRate, RationalRate, TimeRange, Validate};
use crate::validate::plays_exactly;
use vstd::prelude::*;

verus! {

/// How an instant between two microseconds is rounded.
#[derive(Clone, Copy, Debug, PartialEq, Eq, Structural)]
pub enum QuantizeMode {
    Floor,
    Nearest,
}

/// A fraction rounded to an integer.
pub open spec fn rounded(numerator: int, denominator: int, mode: QuantizeMode) -> int {
    match mode {
        QuantizeMode::Floor => numerator / denominator,
        QuantizeMode::Nearest => (2 * numerator + denominator) / (2 * denominator),
    }
}

/// The source instant that plays at a timeline instant of a clip.
pub open spec fn source_instant(clip: TimelineClipModel, timeline_us: int, mode: QuantizeMode) -> int {
    clip.source_range.start() + rounded(
        (timeline_us - clip.timeline_start_us.0) * clip.playback_rate.numerator,
        clip.playback_rate.denominator as int,
        mode,
    )
}

/// The timeline instant at which a source instant of a clip plays.
pub open spec fn timeline_instant(clip: TimelineClipModel, source_us: int, mode: QuantizeMode) -> int {
    clip.timeline_start_us.0 + rounded(
        (source_us - clip.source_range.start()) * clip.playback_rate.denominator,
        clip.playback_rate.numerator as int,
        mode,
    )
}

pub open spec fn rate_fault(rate: RationalRate) -> Option<Fault> {
    unless(
        rate.numerator > 0 && rate.denominator > 0,
        fault(
            VideoErrorCode::DurationMismatch,
            "playback-rate numerator and denominator must be positive"@,
        ),
    )
}

pub open spec fn mapping_fault(value: int) -> Option<Fault> {
    unless(
        on_clock(value),
        fault(VideoErrorCode::ArithmeticOverflow, "clip clock mapping overflowed"@),
    )
}

/// The refusal of a timeline instant that a clip cannot map to its source.
pub open spec fn to_source_fault(clip: TimelineClipModel, timeline_us: int, mode: QuantizeMode) -> Option<Fault> {
    or_else(
        rate_fault(clip.playback_rate),
        or_else(
            clip.span_refusal(),
            or_else(
                unless(
                    clip.span().start() <= timeline_us <= clip.span().end(),
                    fault(
                        VideoErrorCode::InvalidTimestamp,
                        "timeline endpoint lies outside the clip"@,
                    ),
                ),
                mapping_fault(source_instant(clip, timeline_us, mode)),
            ),
        ),
    )
}

/// The refusal of a source instant that a clip cannot map to the timeline.
pub open spec fn to_timeline_fault(clip: TimelineClipModel, source_us: int, mode: QuantizeMode) -> Option<Fault> {
    or_else(
        rate_fault(clip.playback_rate),
        or_else(
            range_fault(clip.source_range.start(), clip.source_range.end()),
            or_else(
                unless(
                    clip.source_range.start() <= source_us <= clip.source_range.end(),
                    fault(VideoErrorCode::InvalidTimestamp, "source endpoint lies outside the clip"@),
                ),
                mapping_fault(timeline_instant(clip, source_us, mode)),
            ),
        ),
    )
}

proof fn lemma_scaled(offset: int, scale: int, by: int)
    requires
        0 <= offset <= 0xffff_ffff_ffff_ffff,
        0 <= scale <= 0xffff_ffff,
        0 < by <= 0xffff_ffff,
    ensures
        0 <= offset * scale <= 0xffff_ffff_ffff_ffff * 0xffff_ffff,
        0 <= (offset * scale) / by <= offset * scale,
        0 <= (2 * (offset * scale) + by) / (2 * by) <= 2 * (offset * scale) + by,
{
    assert(0 <= offset * scale <= 0xffff_ffff_ffff_ffff * 0xffff_ffff) by (nonlinear_arith)
        requires
            0 <= offset <= 0xffff_ffff_ffff_ffff,
            0 <= scale <= 0xffff_ffff,
    ;
    let product = offset * scale;
    vstd::arithmetic::div_mod::lemma_div_pos_is_pos(product, by);
    vstd::arithmetic::div_mod::lemma_div_is_ordered_by_denominator(product, 1, by);
    let doubled = 2 * product + by;
    vstd::arithmetic::div_mod::lemma_div_pos_is_pos(doubled, 2 * by);
    vstd::arithmetic::div_mod::lemma_div_is_ordered_by_denominator(doubled, 1, 2 * by);
}

/// An offset on one clock, scaled to the other and rounded, from an origin on that clock.
fn scaled_instant(origin: i64, offset: u64, scale: u32, by: u32, mode: QuantizeMode) -> (result: VideoResult<
    Microseconds,
>)
    requires
        by > 0,
    ensures
        ({
            let value = origin + rounded(offset * scale, by as int, mode);
            &&& refusal(result) == mapping_fault(value)
            &&& result matches Ok(instant) ==> instant.0 == value
        }),
{
    proof {
        lemma_scaled(offset as int, scale as int, by as int);
    }
    let product: i128 = offset as i128 * scale as i128;
    let by_wide: i128 = by as i128;
    let moved: i128 = match mode {
        QuantizeMode::Floor => product / by_wide,
        QuantizeMode::Nearest => (2 * product + by_wide) / (2 * by_wide),
    };
    let value: i128 = origin as i128 + moved;
    if value < i64::MIN as i128 || value > i64::MAX as i128 {
        return Err(
            VideoError::new(VideoErrorCode::ArithmeticOverflow, "clip clock mapping overflowed"),
        );
    }
    Ok(Microseconds(value as i64))
}

/// Maps an edit boundary on the timeline to the source clock of a clip.
pub fn map_timeline_endpoint_to_source(
    clip: &TimelineClip,
    timeline_us: Microseconds,
    mode: QuantizeMode,
) -> (result: VideoResult<Microseconds>)
    ensures
        refusal(result) == to_source_fault(clip.deep_view(), timeline_us.0 as int, mode),
        result matches Ok(instant) ==> instant.0 == source_instant(
            clip.deep_view(),
            timeline_us.0 as int,
            mode,
        ),
{
    if clip.playback_rate.numerator == 0 || clip.playback_rate.denominator == 0 {
        return Err(
            VideoError::new(
                VideoErrorCode::DurationMismatch,
                "playback-rate numerator and denominator must be positive",
            ),
        );
    }
    let span: TimeRange = clip.timeline_range()?;
    if !span.contains_endpoint(timeline_us) {
        return Err(
            VideoError::new(
                VideoErrorCode::InvalidTimestamp,
                "timeline endpoint lies outside the clip",
            ),
        );
    }
    let offset: u64 = (timeline_us.0 - clip.timeline_start_us.0) as u64;
    scaled_instant(
        clip.source_range.start_us.0,
        offset,
        clip.playback_rate.numerator,
        clip.playback_rate.denominator,
        mode,
    )
}

/// Maps an edit boundary on the source clock of a clip to the timeline.
pub fn map_source_endpoint_to_timeline(
    clip: &TimelineClip,
    source_us: Microseconds,
    mode: QuantizeMode,
) -> (result: VideoResult<Microseconds>)
    ensures
        refusal(result) == to_timeline_fault(clip.deep_view(), source_us.0 as int, mode),
        result matches Ok(instant) ==> instant.0 == timeline_instant(
            clip.deep_view(),
            source_us.0 as int,
            mode,
        ),
{
    if clip.playback_rate.numerator == 0 || clip.playback_rate.denominator == 0 {
        return Err(
            VideoError::new(
                VideoErrorCode::DurationMismatch,
                "playback-rate numerator and denominator must be positive",
            ),
        );
    }
    clip.source_range.validate()?;
    if !clip.source_range.contains_endpoint(source_us) {
        return Err(
            VideoError::new(
                VideoErrorCode::InvalidTimestamp,
                "source endpoint lies outside the clip",
            ),
        );
    }
    let offset: u64 = (source_us.0 - clip.source_range.start_us.0) as u64;
    scaled_instant(
        clip.timeline_start_us.0,
        offset,
        clip.playback_rate.denominator,
        clip.playback_rate.numerator,
        mode,
    )
}

/// The ends of a clip that plays exactly map to each other, however instants are rounded.
pub proof fn clip_ends_map_to_each_other(clip: TimelineClipModel, mode: QuantizeMode)
    requires
        clip.playback_rate.numerator > 0,
        clip.playback_rate.denominator > 0,
        plays_exactly(clip),
        clip.span_refusal() is None,
    ensures
        source_instant(clip, clip.span().start(), mode) == clip.source_range.start(),
        source_instant(clip, clip.span().end(), mode) == clip.source_range.end(),
        timeline_instant(clip, clip.source_range.start(), mode) == clip.span().start(),
        timeline_instant(clip, clip.source_range.end(), mode) == clip.span().end(),
{
    let numerator = clip.playback_rate.numerator as int;
    let denominator = clip.playback_rate.denominator as int;
    let consumed = clip.source_range.length();
    let shown = clip.timeline_duration_us.0 as int;
    assert(0 * numerator == 0) by (nonlinear_arith);
    assert(0 * denominator == 0) by (nonlinear_arith);
    lemma_rounded_exact(0, denominator, mode);
    lemma_rounded_exact(0, numerator, mode);
    assert(shown * numerator == consumed * denominator);
    lemma_rounded_exact(consumed, denominator, mode);
    lemma_rounded_exact(shown, numerator, mode);
}

proof fn lemma_rounded_exact(value: int, by: int, mode: QuantizeMode)
    requires
        by > 0,
    ensures
        rounded(value * by, by, mode) == value,
{
    vstd::arithmetic::div_mod::lemma_div_multiples_vanish(value, by);
    assert(value * by == by * value) by (nonlinear_arith);
    assert(2 * (value * by) + by == value * (2 * by) + by) by (nonlinear_arith);
    vstd::arithmetic::div_mod::lemma_fundamental_div_mod_converse(
        2 * (value * by) + by,
        2 * by,
        value,
        by,
    );
}

/// The frame that starts at or last before an instant.
pub open spec fn frame_at_or_before(instant: int, rate: RationalFrameRate) -> int {
    (instant * rate.numerator) / (rate.denominator * 1_000_000)
}

/// The frame that starts at or first after an instant.
pub open spec fn frame_at_or_after(instant: int, rate: RationalFrameRate) -> int {
    (instant * rate.numerator + (rate.denominator * 1_000_000 - 1)) / (rate.denominator * 1_000_000)
}

/// The start of a frame, rounded down to a microsecond.
pub open spec fn frame_start_floor(frame: int, rate: RationalFrameRate) -> int {
    (frame * (rate.denominator * 1_000_000)) / (rate.numerator as int)
}

/// The start of a frame, rounded up to a microsecond.
pub open spec fn frame_start_ceil(frame: int, rate: RationalFrameRate) -> int {
    (frame * (rate.denominator * 1_000_000) + (rate.numerator - 1)) / (rate.numerator as int)
}

pub open spec fn outward_start(range: TimeRange, rate: RationalFrameRate) -> int {
    frame_start_floor(frame_at_or_before(range.start(), rate), rate)
}

pub open spec fn outward_end(range: TimeRange, rate: RationalFrameRate) -> int {
    frame_start_ceil(frame_at_or_after(range.end(), rate), rate)
}

pub open spec fn quantize_fault(range: TimeRange, rate: RationalFrameRate) -> Option<Fault> {
    or_else(
        TimeRange::fault_of(range),
        or_else(
            RationalFrameRate::fault_of(rate),
            unless(
                on_clock(outward_end(range, rate)),
                fault(VideoErrorCode::ArithmeticOverflow, "frame quantization overflowed"@),
            ),
        ),
    )
}

/// Widening a range to frames never leaves out an instant of it.
pub proof fn quantized_range_encloses_the_range(range: TimeRange, rate: RationalFrameRate)
    requires
        range.valid(),
        rate.numerator > 0,
        rate.denominator > 0,
    ensures
        0 <= outward_start(range, rate) <= range.start(),
        range.end() <= outward_end(range, rate),
{
    let n = rate.numerator as int;
    let d = rate.denominator * 1_000_000;
    lemma_frame_floor(range.start(), n, d);
    lemma_frame_ceil(range.end(), n, d);
}

proof fn lemma_frame_floor(instant: int, n: int, d: int)
    requires
        instant >= 0,
        n > 0,
        d > 0,
    ensures
        0 <= ((instant * n) / d) * d / n <= instant,
        0 <= (instant * n) / d,
        0 <= ((instant * n) / d) * d <= instant * n,
{
    let frame = (instant * n) / d;
    assert(instant * n >= 0) by (nonlinear_arith)
        requires
            instant >= 0,
            n > 0,
    ;
    vstd::arithmetic::div_mod::lemma_fundamental_div_mod(instant * n, d);
    vstd::arithmetic::div_mod::lemma_div_pos_is_pos(instant * n, d);
    vstd::arithmetic::div_mod::lemma_mod_bound(instant * n, d);
    assert(frame * d == d * frame) by (nonlinear_arith);
    assert(0 <= frame * d) by (nonlinear_arith)
        requires
            frame >= 0,
            d > 0,
    ;
    assert(frame * d <= instant * n);
    vstd::arithmetic::div_mod::lemma_div_is_ordered(frame * d, instant * n, n);
    vstd::arithmetic::div_mod::lemma_div_multiples_vanish(instant, n);
    assert(n * instant == instant * n) by (nonlinear_arith);
    vstd::arithmetic::div_mod::lemma_div_pos_is_pos(frame * d, n);
}

proof fn lemma_frame_ceil(instant: int, n: int, d: int)
    requires
        instant >= 0,
        n > 0,
        d > 0,
    ensures
        instant <= (((instant * n + (d - 1)) / d) * d + (n - 1)) / n,
        0 <= (instant * n + (d - 1)) / d,
        instant * n <= ((instant * n + (d - 1)) / d) * d < instant * n + d,
{
    let total = instant * n + (d - 1);
    let frame = total / d;
    assert(instant * n >= 0) by (nonlinear_arith)
        requires
            instant >= 0,
            n > 0,
    ;
    vstd::arithmetic::div_mod::lemma_fundamental_div_mod(total, d);
    vstd::arithmetic::div_mod::lemma_mod_bound(total, d);
    vstd::arithmetic::div_mod::lemma_div_pos_is_pos(total, d);
    assert(frame * d == d * frame) by (nonlinear_arith);
    assert(instant * n <= frame * d);
    vstd::arithmetic::div_mod::lemma_div_is_ordered(instant * n, frame * d + (n - 1), n);
    vstd::arithmetic::div_mod::lemma_div_multiples_vanish(instant, n);
    assert(n * instant == instant * n) by (nonlinear_arith);
}

/// Widens a range to the frames it touches.
pub fn quantize_range_outward(range: TimeRange, rate: RationalFrameRate) -> (result: VideoResult<TimeRange>)
    ensures
        refusal(result) == quantize_fault(range, rate),
        result matches Ok(wide) ==> wide.start() == outward_start(range, rate) && wide.end()
            == outward_end(range, rate) && wide.valid() && wide.encloses(range),
{
    range.validate()?;
    rate.validate()?;
    let n: i128 = rate.numerator as i128;
    let d: i128 = rate.denominator as i128 * 1_000_000;
    let start: i128 = range.start_us.0 as i128;
    let end: i128 = range.end_us.0 as i128;
    proof {
        quantized_range_encloses_the_range(range, rate);
        lemma_frame_floor(start as int, n as int, d as int);
        lemma_frame_ceil(end as int, n as int, d as int);
        assert(0 <= start * n <= 0x7fff_ffff_ffff_ffff * 240_000) by (nonlinear_arith)
            requires
                0 <= start <= 0x7fff_ffff_ffff_ffff,
                0 < n <= 240_000,
        ;
        assert(0 <= end * n <= 0x7fff_ffff_ffff_ffff * 240_000) by (nonlinear_arith)
            requires
                0 <= end <= 0x7fff_ffff_ffff_ffff,
                0 < n <= 240_000,
        ;
    }
    let first: i128 = (start * n) / d;
    let last: i128 = (end * n + (d - 1)) / d;
    assert(first <= first * d) by (nonlinear_arith)
        requires
            first >= 0,
            d > 0,
    ;
    assert(last <= last * d) by (nonlinear_arith)
        requires
            last >= 0,
            d > 0,
    ;
    let wide_start: i128 = (first * d) / n;
    let wide_end: i128 = (last * d + (n - 1)) / n;
    if wide_end > i64::MAX as i128 {
        return Err(
            VideoError::new(VideoErrorCode::ArithmeticOverflow, "frame quantization overflowed"),
        );
    }
    Ok(
        TimeRange {
            start_us: Microseconds(wide_start as i64),
            end_us: Microseconds(wide_end as i64),
        },
    )
}

/// A widened range starts with the frame that its start falls in and ends with the frame that its end falls
/// in: no frame more is taken in at either end, and a frame's own instant is missed by less than a microsecond.
pub proof fn a_quantized_range_takes_in_no_frame_more(range: TimeRange, rate: RationalFrameRate) -> (frames: (int, int))
    requires
        range.valid(),
        rate.numerator > 0,
        rate.denominator > 0,
    ensures
        ({
            let (first, last) = frames;
            let n = rate.numerator as int;
            let unit = rate.denominator * 1_000_000;
            &&& first * unit <= range.start_us.0 * n < (first + 1) * unit
            &&& (last - 1) * unit < range.end_us.0 * n <= last * unit
            &&& outward_start(range, rate) * n <= first * unit < (outward_start(range, rate) + 1) * n
            &&& (outward_end(range, rate) - 1) * n < last * unit <= outward_end(range, rate) * n
        }),
{
    let n = rate.numerator as int;
    let unit = rate.denominator * 1_000_000;
    let first = frame_at_or_before(range.start(), rate);
    let last = frame_at_or_after(range.end(), rate);
    lemma_floor_bounds(range.start() * n, unit);
    lemma_ceil_bounds(range.end() * n, unit);
    lemma_floor_bounds(first * unit, n);
    lemma_ceil_bounds(last * unit, n);
    (first, last)
}

proof fn lemma_floor_bounds(value: int, by: int)
    requires
        by > 0,
    ensures
        (value / by) * by <= value < (value / by + 1) * by,
{
    vstd::arithmetic::div_mod::lemma_fundamental_div_mod(value, by);
    vstd::arithmetic::div_mod::lemma_mod_bound(value, by);
    let part = value / by;
    assert((part + 1) * by == by * part + by && part * by == by * part) by (nonlinear_arith);
}

proof fn lemma_ceil_bounds(value: int, by: int)
    requires
        by > 0,
    ensures
        ((value + (by - 1)) / by - 1) * by < value <= ((value + (by - 1)) / by) * by,
{
    let total = value + (by - 1);
    vstd::arithmetic::div_mod::lemma_fundamental_div_mod(total, by);
    vstd::arithmetic::div_mod::lemma_mod_bound(total, by);
    let part = total / by;
    assert((part - 1) * by == by * part - by && part * by == by * part) by (nonlinear_arith);
}

/// An instant that maps from one clock to the other lies, scaled back, within one unit of where it came from.
pub proof fn a_clock_maps_within_a_microsecond(clip: TimelineClipModel, instant: int)
    requires
        clip.playback_rate.numerator > 0,
        clip.playback_rate.denominator > 0,
    ensures
        ({
            let n = clip.playback_rate.numerator as int;
            let d = clip.playback_rate.denominator as int;
            let played = source_instant(clip, instant, QuantizeMode::Floor) - clip.source_range.start_us.0;
            let nearest = source_instant(clip, instant, QuantizeMode::Nearest) - clip.source_range.start_us.0;
            let shown = (instant - clip.timeline_start_us.0) * n;
            &&& played * d <= shown < (played + 1) * d
            &&& 2 * nearest * d - d <= 2 * shown < 2 * nearest * d + d
        }),
        ({
            let n = clip.playback_rate.numerator as int;
            let d = clip.playback_rate.denominator as int;
            let shown = timeline_instant(clip, instant, QuantizeMode::Floor) - clip.timeline_start_us.0;
            let nearest = timeline_instant(clip, instant, QuantizeMode::Nearest) - clip.timeline_start_us.0;
            let played = (instant - clip.source_range.start_us.0) * d;
            &&& shown * n <= played < (shown + 1) * n
            &&& 2 * nearest * n - n <= 2 * played < 2 * nearest * n + n
        }),
{
    let n = clip.playback_rate.numerator as int;
    let d = clip.playback_rate.denominator as int;
    lemma_within((instant - clip.timeline_start_us.0) * n, d);
    lemma_within((instant - clip.source_range.start_us.0) * d, n);
}

proof fn lemma_within(value: int, by: int)
    requires
        by > 0,
    ensures
        rounded(value, by, QuantizeMode::Floor) * by <= value < (rounded(value, by, QuantizeMode::Floor) + 1) * by,
        2 * rounded(value, by, QuantizeMode::Nearest) * by - by <= 2 * value < 2 * rounded(
            value,
            by,
            QuantizeMode::Nearest,
        ) * by + by,
{
    lemma_floor_bounds(value, by);
    lemma_floor_bounds(2 * value + by, 2 * by);
    let near = (2 * value + by) / (2 * by);
    assert(near * (2 * by) == 2 * near * by && (near + 1) * (2 * by) == 2 * near * by + 2 * by) by (nonlinear_arith);
}

} // verus!
