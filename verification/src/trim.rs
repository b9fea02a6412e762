//! Trimming a scene to a part of its source range.

use crate::edit_shared::{
    an_anchor_plays_its_scene, an_exact_cut_rounds_nothing, an_exact_source_cut_rounds_nothing, anchor_fault, anchors,
    arithmetic_overflow, caption_division, caption_split_index, checked_difference, crossing_fault, edit_overflow,
    ensure_span_does_not_cross_scene_boundary, exact_source_fault, exact_timeline_fault, find_scene_index,
    find_source_anchor, lemma_anchor_in_tracks, lemma_caption_division, map_source_endpoint_to_timeline_exact,
    map_timeline_endpoint_to_source_exact, missing_scene_fault, scene_place, scene_timeline_range, source_anchor,
    MIN_TIMELINE_SCENE_DURATION_US,
};
use crate::error::{fault, fault_at, or_else, refusal, refuse, unless, Fault, VideoErrorCode, VideoResult};
use crate::manifest::{
    CaptionCue, CaptionCueModel, ReviewedScene, ReviewedSceneModel, TimelineClip, TimelineClipModel, TimelineGap,
    TimelineGapModel, TimelineTrack, TimelineTrackModel, TranscriptVersion, TranscriptVersionModel,
    VideoProjectManifest, VideoProjectManifestModel, VisualLayer, VisualLayerModel,
};
use crate::model::{lemma_place_from, Model};
use crate::order::{rank, ranked};
use crate::text::{blank, chars_of, decimal, decimal_text, is_blank, text_concat3, text_of};
use crate::time::{addition_fault, on_clock, range_between, range_fault, Microseconds, TimeRange, Validate};
use crate::timeline::{source_instant, timeline_instant, QuantizeMode};
use vstd::math::{max, min};
use vstd::prelude::*;

verus! {

// ---------------------------------------------------------------------------------------------
// Moving ranges
// ---------------------------------------------------------------------------------------------
pub open spec fn length_fault(range: TimeRange) -> Option<Fault> {
    unless(
        on_clock(range.length()),
        fault(VideoErrorCode::ArithmeticOverflow, "time range duration overflowed"@),
    )
}

/// The range that lies in both of two ranges.
pub open spec fn shared_range(left: TimeRange, right: TimeRange) -> Option<TimeRange> {
    let start = if left.start() >= right.start() {
        left.start_us
    } else {
        right.start_us
    };
    let end = if left.end() <= right.end() {
        left.end_us
    } else {
        right.end_us
    };
    if start.0 >= end.0 {
        None
    } else {
        Some(TimeRange { start_us: start, end_us: end })
    }
}

pub open spec fn shared_fault(left: TimeRange, right: TimeRange) -> Option<Fault> {
    match shared_range(left, right) {
        Some(range) => range_fault(range.start(), range.end()),
        None => None,
    }
}

pub fn range_intersection(left: TimeRange, right: TimeRange) -> (result: VideoResult<Option<TimeRange>>)
    ensures
        refusal(result) == shared_fault(left, right),
        result matches Ok(range) ==> range == shared_range(left, right),
{
    let start: i64 = if left.start_us.0 >= right.start_us.0 {
        left.start_us.0
    } else {
        right.start_us.0
    };
    let end: i64 = if left.end_us.0 <= right.end_us.0 {
        left.end_us.0
    } else {
        right.end_us.0
    };
    if start >= end {
        Ok(None)
    } else {
        Ok(Some(TimeRange::new(start, end)?))
    }
}

/// A range that kept its distance from an origin while the origin moved.
pub open spec fn carried(range: TimeRange, old_origin: int, new_origin: int) -> TimeRange {
    let start = new_origin + (range.start() - old_origin);
    range_between(start, start + range.length())
}

pub open spec fn carried_fault(range: TimeRange, old_origin: int, new_origin: int) -> Option<Fault> {
    let start = new_origin + (range.start() - old_origin);
    or_else(
        unless(on_clock(range.start() - old_origin), edit_overflow()),
        or_else(
            unless(on_clock(start), addition_fault()),
            or_else(
                length_fault(range),
                or_else(
                    unless(on_clock(start + range.length()), addition_fault()),
                    range_fault(start, start + range.length()),
                ),
            ),
        ),
    )
}

pub fn shifted_intersection(range: TimeRange, old_origin: Microseconds, new_origin: Microseconds) -> (result: VideoResult<
    TimeRange,
>)
    ensures
        refusal(result) == carried_fault(range, old_origin.0 as int, new_origin.0 as int),
        result matches Ok(moved) ==> moved == carried(range, old_origin.0 as int, new_origin.0 as int),
{
    let offset: i64 = checked_difference(range.start_us.0, old_origin.0)?;
    let start: Microseconds = new_origin.checked_add(Microseconds(offset))?;
    let length: Microseconds = range.duration()?;
    let end: Microseconds = start.checked_add(length)?;
    TimeRange::new(start.0, end.0)
}

pub fn checked_shift(value: Microseconds, delta: i64) -> (result: VideoResult<Microseconds>)
    ensures
        refusal(result) == unless(on_clock(value.0 + delta), edit_overflow()),
        result matches Ok(shifted) ==> shifted.0 == value.0 + delta,
{
    match value.0.checked_add(delta) {
        Some(shifted) => Ok(Microseconds(shifted)),
        None => Err(arithmetic_overflow()),
    }
}

pub open spec fn shifted(range: TimeRange, delta: int) -> TimeRange {
    range_between(range.start() + delta, range.end() + delta)
}

pub open spec fn shift_fault(range: TimeRange, delta: int) -> Option<Fault> {
    or_else(
        unless(on_clock(range.start() + delta), edit_overflow()),
        or_else(
            unless(on_clock(range.end() + delta), edit_overflow()),
            range_fault(range.start() + delta, range.end() + delta),
        ),
    )
}

pub fn checked_shift_range(range: TimeRange, delta: i64) -> (result: VideoResult<TimeRange>)
    ensures
        refusal(result) == shift_fault(range, delta as int),
        result matches Ok(moved) ==> moved == shifted(range, delta as int),
{
    let start: Microseconds = checked_shift(range.start_us, delta)?;
    let end: Microseconds = checked_shift(range.end_us, delta)?;
    TimeRange::new(start.0, end.0)
}

// ---------------------------------------------------------------------------------------------
// What a trim keeps
// ---------------------------------------------------------------------------------------------
/// A trim of a scene: where the scene stood, which part of that stays, and how much time goes.
pub struct SceneTrim {
    pub scene: TimeRange,
    pub retained: TimeRange,
    pub removed: i64,
    pub anchor: TimelineClip,
    pub transcript: Option<TranscriptVersion>,
}

/// What a [`SceneTrim`] holds, as mathematical values.
pub struct SceneTrimModel {
    pub scene: TimeRange,
    pub retained: TimeRange,
    pub removed: i64,
    pub anchor: TimelineClipModel,
    pub transcript: Option<TranscriptVersionModel>,
}

impl DeepView for SceneTrim {
    type V = SceneTrimModel;

    open spec fn deep_view(&self) -> SceneTrimModel {
        SceneTrimModel {
            scene: self.scene,
            retained: self.retained,
            removed: self.removed,
            anchor: self.anchor.deep_view(),
            transcript: self.transcript.deep_view(),
        }
    }
}

/// A trim whose scene stands on the timeline and whose removed time can be taken back.
pub open spec fn usable(trim: SceneTrimModel) -> bool {
    trim.scene.valid() && trim.removed > i64::MIN
}

/// Items of a timeline that a trim keeps, moves or drops.
pub trait Trimmable: Model {
    spec fn trim_fault(trim: SceneTrimModel, item: Self::V) -> Option<Fault>;

    /// What the trim leaves of an item.
    spec fn trimmed(trim: SceneTrimModel, item: Self::V) -> Option<Self::V>;

    fn trim_item(&self, trim: &SceneTrim) -> (result: VideoResult<Option<Self>>)
        requires
            usable(trim.deep_view()),
        ensures
            refusal(result) == Self::trim_fault(trim.deep_view(), self.deep_view()),
            result matches Ok(item) ==> item.deep_view() == Self::trimmed(trim.deep_view(), self.deep_view()),
    ;
}

pub open spec fn trimmed_from<T: Trimmable>(trim: SceneTrimModel, items: Seq<T::V>, index: int) -> Seq<T::V>
    decreases items.len() - index,
{
    if index < 0 || index >= items.len() {
        Seq::empty()
    } else {
        match T::trimmed(trim, items[index]) {
            Some(item) => seq![item] + trimmed_from::<T>(trim, items, index + 1),
            None => trimmed_from::<T>(trim, items, index + 1),
        }
    }
}

pub open spec fn trim_fault_from<T: Trimmable>(trim: SceneTrimModel, items: Seq<T::V>, index: int) -> Option<Fault>
    decreases items.len() - index,
{
    if index < 0 || index >= items.len() {
        None
    } else {
        or_else(T::trim_fault(trim, items[index]), trim_fault_from::<T>(trim, items, index + 1))
    }
}

fn trim_all<T: Trimmable>(items: &Vec<T>, trim: &SceneTrim) -> (result: VideoResult<Vec<T>>)
    requires
        usable(trim.deep_view()),
    ensures
        refusal(result) == trim_fault_from::<T>(trim.deep_view(), items.deep_view(), 0),
        result matches Ok(left) ==> left.deep_view() == trimmed_from::<T>(
            trim.deep_view(),
            items.deep_view(),
            0,
        ),
{
    let ghost model = items.deep_view();
    let ghost t = trim.deep_view();
    let mut left: Vec<T> = Vec::new();
    let mut index: usize = 0;
    assert(left.deep_view() + trimmed_from::<T>(t, model, 0) =~= trimmed_from::<T>(t, model, 0));
    while index < items.len()
        invariant
            index <= items.len(),
            model == items.deep_view(),
            t == trim.deep_view(),
            usable(t),
            left.deep_view() + trimmed_from::<T>(t, model, index as int) == trimmed_from::<T>(t, model, 0),
            trim_fault_from::<T>(t, model, index as int) == trim_fault_from::<T>(t, model, 0),
        decreases items.len() - index,
    {
        assert(model[index as int] == items[index as int].deep_view());
        let ghost before = left.deep_view();
        let ghost rest = trimmed_from::<T>(t, model, index + 1);
        match items[index].trim_item(trim)? {
            Some(item) => {
                let ghost kept = item.deep_view();
                left.push(item);
                assert(left.deep_view() =~= before.push(kept));
                assert(left.deep_view() + rest =~= before + (seq![kept] + rest));
            },
            None => {},
        }
        index += 1;
    }
    assert(left.deep_view() =~= trimmed_from::<T>(t, model, 0));
    Ok(left)
}

impl Trimmable for TimelineClip {
    open spec fn trim_fault(trim: SceneTrimModel, item: TimelineClipModel) -> Option<Fault> {
        or_else(
            item.span_refusal(),
            or_else(
                crossing_fault(
                    item.span(),
                    trim.scene,
                    VideoErrorCode::InvalidTrack,
                    "tracks.clips.timeline"@,
                ),
                if trim.scene.encloses(item.span()) {
                    or_else(
                        shared_fault(item.span(), trim.retained),
                        match shared_range(item.span(), trim.retained) {
                            Some(kept) => kept_clip_fault(trim, item, kept),
                            None => None,
                        },
                    )
                } else if item.timeline_start_us.0 >= trim.scene.end() {
                    unless(on_clock(item.timeline_start_us.0 - trim.removed), edit_overflow())
                } else {
                    None
                },
            ),
        )
    }

    open spec fn trimmed(trim: SceneTrimModel, item: TimelineClipModel) -> Option<TimelineClipModel> {
        if trim.scene.encloses(item.span()) {
            match shared_range(item.span(), trim.retained) {
                Some(kept) => Some(
                    TimelineClipModel {
                        source_range: range_between(
                            source_instant(item, kept.start(), QuantizeMode::Floor),
                            source_instant(item, kept.end(), QuantizeMode::Floor),
                        ),
                        timeline_start_us: Microseconds(
                            (trim.scene.start() + (kept.start() - trim.retained.start())) as i64,
                        ),
                        timeline_duration_us: Microseconds(kept.length() as i64),
                        ..item
                    },
                ),
                None => None,
            }
        } else if item.timeline_start_us.0 >= trim.scene.end() {
            Some(
                TimelineClipModel {
                    timeline_start_us: Microseconds((item.timeline_start_us.0 - trim.removed) as i64),
                    ..item
                },
            )
        } else {
            Some(item)
        }
    }

    fn trim_item(&self, trim: &SceneTrim) -> (result: VideoResult<Option<Self>>) {
        let span: TimeRange = self.timeline_range()?;
        ensure_span_does_not_cross_scene_boundary(
            span,
            trim.scene,
            VideoErrorCode::InvalidTrack,
            "tracks.clips.timeline",
        )?;
        if trim.scene.contains_range(span) {
            match range_intersection(span, trim.retained)? {
                Some(kept) => {
                    let source_start: Microseconds = map_timeline_endpoint_to_source_exact(self, kept.start_us)?;
                    let source_end: Microseconds = map_timeline_endpoint_to_source_exact(self, kept.end_us)?;
                    let source_range: TimeRange = TimeRange::new(source_start.0, source_end.0)?;
                    let offset: i64 = checked_difference(kept.start_us.0, trim.retained.start_us.0)?;
                    let timeline_start_us: Microseconds = trim.scene.start_us.checked_add(Microseconds(offset))?;
                    let timeline_duration_us: Microseconds = kept.duration()?;
                    Ok(
                        Some(
                            TimelineClip {
                                source_range,
                                timeline_start_us,
                                timeline_duration_us,
                                ..self.duplicate()
                            },
                        ),
                    )
                },
                None => Ok(None),
            }
        } else if self.timeline_start_us.0 >= trim.scene.end_us.0 {
            let timeline_start_us: Microseconds = checked_shift(self.timeline_start_us, -trim.removed)?;
            Ok(Some(TimelineClip { timeline_start_us, ..self.duplicate() }))
        } else {
            Ok(Some(self.duplicate()))
        }
    }
}

/// Why the kept part of a clip cannot be placed.
pub open spec fn kept_clip_fault(trim: SceneTrimModel, item: TimelineClipModel, kept: TimeRange) -> Option<Fault> {
    let source_start = source_instant(item, kept.start(), QuantizeMode::Floor);
    let source_end = source_instant(item, kept.end(), QuantizeMode::Floor);
    or_else(
        exact_source_fault(item, kept.start()),
        or_else(
            exact_source_fault(item, kept.end()),
            or_else(
                range_fault(source_start, source_end),
                or_else(
                    unless(on_clock(kept.start() - trim.retained.start()), edit_overflow()),
                    or_else(
                        unless(
                            on_clock(trim.scene.start() + (kept.start() - trim.retained.start())),
                            addition_fault(),
                        ),
                        length_fault(kept),
                    ),
                ),
            ),
        ),
    )
}

impl Trimmable for TimelineGap {
    open spec fn trim_fault(trim: SceneTrimModel, item: TimelineGapModel) -> Option<Fault> {
        or_else(
            crossing_fault(item.range, trim.scene, VideoErrorCode::InvalidGap, "gaps.range"@),
            if trim.scene.encloses(item.range) {
                or_else(
                    shared_fault(item.range, trim.retained),
                    match shared_range(item.range, trim.retained) {
                        Some(kept) => or_else(
                            carried_fault(kept, trim.retained.start(), trim.scene.start()),
                            match item.source_range {
                                Some(source) => kept_silence_fault(item.range, source, kept),
                                None => None,
                            },
                        ),
                        None => None,
                    },
                )
            } else if item.range.start() >= trim.scene.end() {
                shift_fault(item.range, -trim.removed)
            } else {
                None
            },
        )
    }

    open spec fn trimmed(trim: SceneTrimModel, item: TimelineGapModel) -> Option<TimelineGapModel> {
        if trim.scene.encloses(item.range) {
            match shared_range(item.range, trim.retained) {
                Some(kept) => Some(
                    TimelineGapModel {
                        range: carried(kept, trim.retained.start(), trim.scene.start()),
                        source_range: match item.source_range {
                            Some(source) => Some(carried(kept, item.range.start(), source.start())),
                            None => None,
                        },
                        ..item
                    },
                ),
                None => None,
            }
        } else if item.range.start() >= trim.scene.end() {
            Some(TimelineGapModel { range: shifted(item.range, -trim.removed), ..item })
        } else {
            Some(item)
        }
    }

    fn trim_item(&self, trim: &SceneTrim) -> (result: VideoResult<Option<Self>>) {
        ensure_span_does_not_cross_scene_boundary(
            self.range,
            trim.scene,
            VideoErrorCode::InvalidGap,
            "gaps.range",
        )?;
        if trim.scene.contains_range(self.range) {
            match range_intersection(self.range, trim.retained)? {
                Some(kept) => {
                    let range: TimeRange = shifted_intersection(
                        kept,
                        trim.retained.start_us,
                        trim.scene.start_us,
                    )?;
                    let source_range: Option<TimeRange> = match self.source_range {
                        Some(source) => Some(
                            shifted_intersection(kept, self.range.start_us, source.start_us)?,
                        ),
                        None => None,
                    };
                    Ok(Some(TimelineGap { range, source_range, ..self.duplicate() }))
                },
                None => Ok(None),
            }
        } else if self.range.start_us.0 >= trim.scene.end_us.0 {
            let range: TimeRange = checked_shift_range(self.range, -trim.removed)?;
            Ok(Some(TimelineGap { range, ..self.duplicate() }))
        } else {
            Ok(Some(self.duplicate()))
        }
    }
}

/// Why the source silence of the kept part of a gap cannot be placed.
pub open spec fn kept_silence_fault(range: TimeRange, source: TimeRange, kept: TimeRange) -> Option<Fault> {
    carried_fault(kept, range.start(), source.start())
}

/// Where the kept part of a caption's text is divided from the rest.
pub open spec fn caption_edge(trim: SceneTrimModel, caption: CaptionCueModel, instant: int) -> Result<int, Fault> {
    match exact_source_fault(trim.anchor, instant) {
        Some(refused) => Err(refused),
        None => caption_division(
            trim.transcript,
            caption,
            instant,
            source_instant(trim.anchor, instant, QuantizeMode::Floor),
            false,
        ),
    }
}

pub open spec fn caption_from(trim: SceneTrimModel, caption: CaptionCueModel, kept: TimeRange) -> Result<int, Fault> {
    if kept.start() > caption.range.start() {
        caption_edge(trim, caption, kept.start())
    } else {
        Ok(0)
    }
}

pub open spec fn caption_to(trim: SceneTrimModel, caption: CaptionCueModel, kept: TimeRange) -> Result<int, Fault> {
    if kept.end() < caption.range.end() {
        caption_edge(trim, caption, kept.end())
    } else {
        Ok(caption.text.len() as int)
    }
}

/// What a trim leaves of a caption inside the scene.
pub open spec fn kept_caption(trim: SceneTrimModel, caption: CaptionCueModel, kept: TimeRange) -> Option<CaptionCueModel> {
    let from = caption_from(trim, caption, kept)->Ok_0;
    let to = caption_to(trim, caption, kept)->Ok_0;
    if from >= to || blank(caption.text.subrange(from, to)) {
        None
    } else {
        Some(
            CaptionCueModel {
                text: caption.text.subrange(from, to),
                range: carried(kept, trim.retained.start(), trim.scene.start()),
                ..caption
            },
        )
    }
}

pub open spec fn kept_caption_fault(trim: SceneTrimModel, caption: CaptionCueModel, kept: TimeRange) -> Option<Fault> {
    match (caption_from(trim, caption, kept), caption_to(trim, caption, kept)) {
        (Err(refused), _) => Some(refused),
        (_, Err(refused)) => Some(refused),
        (Ok(_), Ok(_)) => match kept_caption(trim, caption, kept) {
            Some(left) => or_else(
                carried_fault(kept, trim.retained.start(), trim.scene.start()),
                CaptionCue::fault_of(left),
            ),
            None => None,
        },
    }
}

fn find_caption_edge(caption: &CaptionCue, instant: Microseconds, trim: &SceneTrim) -> (result: VideoResult<usize>)
    requires
        caption.range.valid(),
    ensures
        match result {
            Ok(place) => place <= caption.text@.len() && caption_edge(
                trim.deep_view(),
                caption.deep_view(),
                instant.0 as int,
            ) == Ok::<int, Fault>(place as int),
            Err(error) => caption_edge(trim.deep_view(), caption.deep_view(), instant.0 as int) == Err::<
                int,
                Fault,
            >(error.deep_view()),
        },
{
    let source: Microseconds = map_timeline_endpoint_to_source_exact(&trim.anchor, instant)?;
    caption_split_index(&trim.transcript, caption, instant, source, false)
}

fn trim_caption_to_timeline(caption: &CaptionCue, kept: TimeRange, trim: &SceneTrim) -> (result: VideoResult<
    Option<CaptionCue>,
>)
    requires
        caption.range.valid(),
    ensures
        refusal(result) == kept_caption_fault(trim.deep_view(), caption.deep_view(), kept),
        result matches Ok(left) ==> left.deep_view() == kept_caption(trim.deep_view(), caption.deep_view(), kept),
{
    let text: Vec<char> = chars_of(caption.text.as_str());
    let from: usize = if kept.start_us.0 > caption.range.start_us.0 {
        find_caption_edge(caption, kept.start_us, trim)?
    } else {
        0
    };
    let to: usize = if kept.end_us.0 < caption.range.end_us.0 {
        find_caption_edge(caption, kept.end_us, trim)?
    } else {
        text.len()
    };
    if from >= to {
        return Ok(None);
    }
    let part: String = text_of(&text, from, to);
    assert(part@ =~= caption.text@.subrange(from as int, to as int));
    if is_blank(part.as_str()) {
        return Ok(None);
    }
    let range: TimeRange = shifted_intersection(kept, trim.retained.start_us, trim.scene.start_us)?;
    let left = CaptionCue { text: part, range, ..caption.duplicate() };
    left.validate()?;
    Ok(Some(left))
}

impl Trimmable for CaptionCue {
    open spec fn trim_fault(trim: SceneTrimModel, item: CaptionCueModel) -> Option<Fault> {
        or_else(
            crossing_fault(item.range, trim.scene, VideoErrorCode::InvalidCaption, "captions.range"@),
            if trim.scene.encloses(item.range) {
                or_else(
                    shared_fault(item.range, trim.retained),
                    match shared_range(item.range, trim.retained) {
                        Some(kept) => kept_caption_fault(trim, item, kept),
                        None => None,
                    },
                )
            } else if item.range.start() >= trim.scene.end() {
                shift_fault(item.range, -trim.removed)
            } else {
                None
            },
        )
    }

    open spec fn trimmed(trim: SceneTrimModel, item: CaptionCueModel) -> Option<CaptionCueModel> {
        if trim.scene.encloses(item.range) {
            match shared_range(item.range, trim.retained) {
                Some(kept) => kept_caption(trim, item, kept),
                None => None,
            }
        } else if item.range.start() >= trim.scene.end() {
            Some(CaptionCueModel { range: shifted(item.range, -trim.removed), ..item })
        } else {
            Some(item)
        }
    }

    fn trim_item(&self, trim: &SceneTrim) -> (result: VideoResult<Option<Self>>) {
        ensure_span_does_not_cross_scene_boundary(
            self.range,
            trim.scene,
            VideoErrorCode::InvalidCaption,
            "captions.range",
        )?;
        if trim.scene.contains_range(self.range) {
            match range_intersection(self.range, trim.retained)? {
                Some(kept) => trim_caption_to_timeline(self, kept, trim),
                None => Ok(None),
            }
        } else if self.range.start_us.0 >= trim.scene.end_us.0 {
            let range: TimeRange = checked_shift_range(self.range, -trim.removed)?;
            Ok(Some(CaptionCue { range, ..self.duplicate() }))
        } else {
            Ok(Some(self.duplicate()))
        }
    }
}

/// A visual layer inside the scene moves with what is kept; one after it moves up.
impl Trimmable for VisualLayer {
    open spec fn trim_fault(trim: SceneTrimModel, item: VisualLayerModel) -> Option<Fault> {
        if trim.scene.encloses(item.range) {
            carried_fault(item.range, trim.retained.start(), trim.scene.start())
        } else if item.range.start() >= trim.scene.end() {
            shift_fault(item.range, -trim.removed)
        } else {
            None
        }
    }

    open spec fn trimmed(trim: SceneTrimModel, item: VisualLayerModel) -> Option<VisualLayerModel> {
        if trim.scene.encloses(item.range) {
            Some(
                VisualLayerModel {
                    range: carried(item.range, trim.retained.start(), trim.scene.start()),
                    ..item
                },
            )
        } else if item.range.start() >= trim.scene.end() {
            Some(VisualLayerModel { range: shifted(item.range, -trim.removed), ..item })
        } else {
            Some(item)
        }
    }

    fn trim_item(&self, trim: &SceneTrim) -> (result: VideoResult<Option<Self>>) {
        if trim.scene.contains_range(self.range) {
            let range: TimeRange = shifted_intersection(
                self.range,
                trim.retained.start_us,
                trim.scene.start_us,
            )?;
            Ok(Some(VisualLayer { range, ..self.duplicate() }))
        } else if self.range.start_us.0 >= trim.scene.end_us.0 {
            let range: TimeRange = checked_shift_range(self.range, -trim.removed)?;
            Ok(Some(VisualLayer { range, ..self.duplicate() }))
        } else {
            Ok(Some(self.duplicate()))
        }
    }
}

/// Another scene: one after the trimmed scene moves up.
impl Trimmable for ReviewedScene {
    open spec fn trim_fault(trim: SceneTrimModel, item: ReviewedSceneModel) -> Option<Fault> {
        if item.timeline_start_us.0 >= trim.scene.end() {
            unless(on_clock(item.timeline_start_us.0 - trim.removed), edit_overflow())
        } else {
            None
        }
    }

    open spec fn trimmed(trim: SceneTrimModel, item: ReviewedSceneModel) -> Option<ReviewedSceneModel> {
        if item.timeline_start_us.0 >= trim.scene.end() {
            Some(
                ReviewedSceneModel {
                    timeline_start_us: Microseconds((item.timeline_start_us.0 - trim.removed) as i64),
                    ..item
                },
            )
        } else {
            Some(item)
        }
    }

    fn trim_item(&self, trim: &SceneTrim) -> (result: VideoResult<Option<Self>>) {
        if self.timeline_start_us.0 >= trim.scene.end_us.0 {
            let timeline_start_us: Microseconds = checked_shift(self.timeline_start_us, -trim.removed)?;
            Ok(Some(ReviewedScene { timeline_start_us, ..self.duplicate() }))
        } else {
            Ok(Some(self.duplicate()))
        }
    }
}

// ---------------------------------------------------------------------------------------------
// The scenes and the tracks
// ---------------------------------------------------------------------------------------------
/// The trimmed scene.
pub open spec fn trimmed_scene(scene: ReviewedSceneModel, source: TimeRange, trim: SceneTrimModel) -> ReviewedSceneModel {
    ReviewedSceneModel {
        source_range: Some(source),
        timeline_duration_us: Microseconds(trim.retained.length() as i64),
        revision: (scene.revision + 1) as u32,
        ..scene
    }
}

pub open spec fn scenes_trim_fault_from(
    scenes: Seq<ReviewedSceneModel>,
    place: int,
    source: TimeRange,
    trim: SceneTrimModel,
    index: int,
) -> Option<Fault>
    decreases scenes.len() - index,
{
    if index < 0 || index >= scenes.len() {
        None
    } else {
        or_else(
            if index == place {
                range_fault(source.start(), source.end())
            } else {
                ReviewedScene::trim_fault(trim, scenes[index])
            },
            scenes_trim_fault_from(scenes, place, source, trim, index + 1),
        )
    }
}

pub open spec fn trimmed_scenes(
    scenes: Seq<ReviewedSceneModel>,
    place: int,
    source: TimeRange,
    trim: SceneTrimModel,
) -> Seq<ReviewedSceneModel> {
    Seq::new(
        scenes.len(),
        |i: int|
            if i == place {
                trimmed_scene(scenes[i], source, trim)
            } else {
                ReviewedScene::trimmed(trim, scenes[i])->0
            },
    )
}

fn trim_scenes(scenes: &Vec<ReviewedScene>, place: usize, source: TimeRange, trim: &SceneTrim) -> (result: VideoResult<
    Vec<ReviewedScene>,
>)
    requires
        usable(trim.deep_view()),
        place < scenes.len(),
        scenes[place as int].revision < u32::MAX,
        on_clock(trim.retained.length()),
    ensures
        refusal(result) == scenes_trim_fault_from(
            scenes.deep_view(),
            place as int,
            source,
            trim.deep_view(),
            0,
        ),
        result matches Ok(left) ==> left.deep_view() == trimmed_scenes(
            scenes.deep_view(),
            place as int,
            source,
            trim.deep_view(),
        ),
{
    let ghost model = scenes.deep_view();
    let ghost t = trim.deep_view();
    let ghost expected = trimmed_scenes(model, place as int, source, t);
    let mut result: Vec<ReviewedScene> = Vec::new();
    let mut index: usize = 0;
    while index < scenes.len()
        invariant
            index <= scenes.len(),
            place < scenes.len(),
            scenes[place as int].revision < u32::MAX,
            on_clock(trim.retained.length()),
            model == scenes.deep_view(),
            t == trim.deep_view(),
            usable(t),
            expected == trimmed_scenes(model, place as int, source, t),
            result.len() == index,
            forall|i: int| 0 <= i < index ==> (#[trigger] result[i]).deep_view() == expected[i],
            scenes_trim_fault_from(model, place as int, source, t, index as int) == scenes_trim_fault_from(
                model,
                place as int,
                source,
                t,
                0,
            ),
        decreases scenes.len() - index,
    {
        let scene: &ReviewedScene = &scenes[index];
        assert(model[index as int] == scene.deep_view());
        if index == place {
            let range: TimeRange = TimeRange::new(source.start_us.0, source.end_us.0)?;
            let trimmed = ReviewedScene {
                source_range: Some(range),
                timeline_duration_us: Microseconds(trim.retained.end_us.0 - trim.retained.start_us.0),
                revision: scene.revision + 1,
                ..scene.duplicate()
            };
            assert(trimmed.deep_view() == expected[index as int]);
            result.push(trimmed);
        } else {
            match scene.trim_item(trim)? {
                Some(moved) => {
                    result.push(moved);
                },
                None => {
                    assert(false);
                },
            }
        }
        index += 1;
    }
    assert(result.deep_view() =~= expected);
    Ok(result)
}

pub open spec fn tracks_trim_fault_from(trim: SceneTrimModel, tracks: Seq<TimelineTrackModel>, index: int) -> Option<
    Fault,
>
    decreases tracks.len() - index,
{
    if index < 0 || index >= tracks.len() {
        None
    } else {
        or_else(
            trim_fault_from::<TimelineClip>(trim, tracks[index].clips, 0),
            tracks_trim_fault_from(trim, tracks, index + 1),
        )
    }
}

pub open spec fn trimmed_track(trim: SceneTrimModel, track: TimelineTrackModel) -> TimelineTrackModel {
    TimelineTrackModel { clips: trimmed_from::<TimelineClip>(trim, track.clips, 0), ..track }
}

pub open spec fn trimmed_tracks(trim: SceneTrimModel, tracks: Seq<TimelineTrackModel>) -> Seq<TimelineTrackModel> {
    Seq::new(tracks.len(), |i: int| trimmed_track(trim, tracks[i]))
}

fn trim_tracks(tracks: &Vec<TimelineTrack>, trim: &SceneTrim) -> (result: VideoResult<Vec<TimelineTrack>>)
    requires
        usable(trim.deep_view()),
    ensures
        refusal(result) == tracks_trim_fault_from(trim.deep_view(), tracks.deep_view(), 0),
        result matches Ok(left) ==> left.deep_view() == trimmed_tracks(trim.deep_view(), tracks.deep_view()),
{
    let ghost model = tracks.deep_view();
    let ghost t = trim.deep_view();
    let mut result: Vec<TimelineTrack> = Vec::new();
    let mut index: usize = 0;
    while index < tracks.len()
        invariant
            index <= tracks.len(),
            model == tracks.deep_view(),
            t == trim.deep_view(),
            usable(t),
            result.len() == index,
            forall|i: int| 0 <= i < index ==> (#[trigger] result[i]).deep_view() == trimmed_track(t, model[i]),
            tracks_trim_fault_from(t, model, index as int) == tracks_trim_fault_from(t, model, 0),
        decreases tracks.len() - index,
    {
        let track: &TimelineTrack = &tracks[index];
        assert(model[index as int] == track.deep_view());
        let clips: Vec<TimelineClip> = trim_all(&track.clips, trim)?;
        result.push(
            TimelineTrack {
                id: track.id.clone(),
                kind: track.kind,
                clips,
                preserve_gaps: track.preserve_gaps,
            },
        );
        index += 1;
    }
    assert(result.deep_view() =~= trimmed_tracks(t, model));
    Ok(result)
}

// ---------------------------------------------------------------------------------------------
// The trim
// ---------------------------------------------------------------------------------------------
/// The refusal of a visual layer that the trim would cut.
pub open spec fn layer_kept_fault(layer: VisualLayerModel, scene: TimeRange, retained: TimeRange) -> Option<Fault> {
    or_else(
        crossing_fault(layer.range, scene, VideoErrorCode::InvalidLayout, "visual_layers.range"@),
        unless(
            !(scene.encloses(layer.range) && !retained.encloses(layer.range)),
            fault_at(
                VideoErrorCode::InvalidLayout,
                "move or resize visual layers into the retained scene range before trimming"@,
                "visual_layers.range"@,
            ),
        ),
    )
}

pub open spec fn layers_kept_fault_from(
    layers: Seq<VisualLayerModel>,
    scene: TimeRange,
    retained: TimeRange,
    index: int,
) -> Option<Fault>
    decreases layers.len() - index,
{
    if index < 0 || index >= layers.len() {
        None
    } else {
        or_else(
            layer_kept_fault(layers[index], scene, retained),
            layers_kept_fault_from(layers, scene, retained, index + 1),
        )
    }
}

fn check_layers_kept(layers: &Vec<VisualLayer>, scene: TimeRange, retained: TimeRange) -> (result: VideoResult<()>)
    ensures
        refusal(result) == layers_kept_fault_from(layers.deep_view(), scene, retained, 0),
{
    let ghost model = layers.deep_view();
    let mut index: usize = 0;
    while index < layers.len()
        invariant
            index <= layers.len(),
            model == layers.deep_view(),
            layers_kept_fault_from(model, scene, retained, 0) == layers_kept_fault_from(
                model,
                scene,
                retained,
                index as int,
            ),
        decreases layers.len() - index,
    {
        assert(model[index as int] == layers[index as int].deep_view());
        let range: TimeRange = layers[index].range;
        ensure_span_does_not_cross_scene_boundary(
            range,
            scene,
            VideoErrorCode::InvalidLayout,
            "visual_layers.range",
        )?;
        if scene.contains_range(range) && !retained.contains_range(range) {
            return Err(
                refuse(
                    VideoErrorCode::InvalidLayout,
                    "move or resize visual layers into the retained scene range before trimming",
                    "visual_layers.range",
                ),
            );
        }
        index += 1;
    }
    Ok(())
}

/// The rules on the source range that a trim keeps.
pub open spec fn kept_source_fault(source: Option<TimeRange>, start: int, end: int) -> Option<Fault> {
    match source {
        Some(range) => or_else(
            unless(
                range.start() <= start < end <= range.end(),
                fault_at(
                    VideoErrorCode::InvalidTimestamp,
                    "trim source range must be a non-empty subset of the current scene source range"@,
                    "operations.source_start_us"@,
                ),
            ),
            or_else(
                unless(
                    end - start >= MIN_TIMELINE_SCENE_DURATION_US,
                    fault_at(
                        VideoErrorCode::InvalidScene,
                        "trimmed source range must be at least "@ + decimal(
                            MIN_TIMELINE_SCENE_DURATION_US as nat,
                        ) + " microseconds"@,
                        "operations.source_end_us"@,
                    ),
                ),
                unless(
                    start != range.start() || end != range.end(),
                    fault_at(
                        VideoErrorCode::InvalidScene,
                        "trim operation must change at least one scene boundary"@,
                        "operations"@,
                    ),
                ),
            ),
        ),
        None => Some(
            fault_at(
                VideoErrorCode::InvalidScene,
                "trim requires a source-clock scene range"@,
                "reviewed_scenes.source_range"@,
            ),
        ),
    }
}

fn check_kept_source(source: Option<TimeRange>, start: Microseconds, end: Microseconds) -> (result: VideoResult<()>)
    ensures
        refusal(result) == kept_source_fault(source, start.0 as int, end.0 as int),
{
    match source {
        Some(range) => {
            if start.0 < range.start_us.0 || end.0 > range.end_us.0 || end.0 <= start.0 {
                return Err(
                    refuse(
                        VideoErrorCode::InvalidTimestamp,
                        "trim source range must be a non-empty subset of the current scene source range",
                        "operations.source_start_us",
                    ),
                );
            }
            let long: bool = match end.0.checked_sub(start.0) {
                Some(length) => length >= MIN_TIMELINE_SCENE_DURATION_US,
                None => true,
            };
            if !long {
                let minimum: String = decimal_text(MIN_TIMELINE_SCENE_DURATION_US as u64);
                let message: String = text_concat3(
                    "trimmed source range must be at least ",
                    minimum.as_str(),
                    " microseconds",
                );
                return Err(
                    refuse(VideoErrorCode::InvalidScene, message.as_str(), "operations.source_end_us"),
                );
            }
            if start.0 == range.start_us.0 && end.0 == range.end_us.0 {
                return Err(
                    refuse(
                        VideoErrorCode::InvalidScene,
                        "trim operation must change at least one scene boundary",
                        "operations",
                    ),
                );
            }
            Ok(())
        },
        None => Err(
            refuse(
                VideoErrorCode::InvalidScene,
                "trim requires a source-clock scene range",
                "reviewed_scenes.source_range",
            ),
        ),
    }
}

/// The part of the timeline that a trim keeps of a scene.
pub open spec fn kept_timeline(anchor: TimelineClipModel, start: int, end: int) -> TimeRange {
    range_between(
        timeline_instant(anchor, start, QuantizeMode::Floor),
        timeline_instant(anchor, end, QuantizeMode::Floor),
    )
}

/// The trim of a scene to a source range.
pub open spec fn scene_trim(m: VideoProjectManifestModel, scene: ReviewedSceneModel, start: int, end: int) -> SceneTrimModel {
    let anchor = source_anchor(m, scene)->0;
    let retained = kept_timeline(anchor, start, end);
    SceneTrimModel {
        scene: scene.span(),
        retained,
        removed: (scene.timeline_duration_us.0 - retained.length()) as i64,
        anchor,
        transcript: m.transcript,
    }
}

/// The rules on the times of a trim.
pub open spec fn trim_times_fault(m: VideoProjectManifestModel, scene: ReviewedSceneModel, start: int, end: int) -> Option<
    Fault,
> {
    let anchor = source_anchor(m, scene)->0;
    let from = timeline_instant(anchor, start, QuantizeMode::Floor);
    let to = timeline_instant(anchor, end, QuantizeMode::Floor);
    let removed = scene.timeline_duration_us.0 - (to - from);
    or_else(
        exact_timeline_fault(anchor, start),
        or_else(
            exact_timeline_fault(anchor, end),
            or_else(
                unless(on_clock(to - from), edit_overflow()),
                or_else(
                    unless(
                        to - from >= MIN_TIMELINE_SCENE_DURATION_US,
                        fault_at(
                            VideoErrorCode::InvalidScene,
                            "trimmed timeline scene must be at least "@ + decimal(
                                MIN_TIMELINE_SCENE_DURATION_US as nat,
                            ) + " microseconds"@,
                            "operations.source_end_us"@,
                        ),
                    ),
                    or_else(
                        range_fault(from, to),
                        or_else(
                            unless(on_clock(removed), edit_overflow()),
                            or_else(
                                unless(on_clock(m.timeline_duration_us.0 - removed), edit_overflow()),
                                unless(
                                    m.timeline_duration_us.0 - removed > 0,
                                    fault_at(
                                        VideoErrorCode::InvalidTimestamp,
                                        "trim would remove the complete project timeline"@,
                                        "timeline_duration_us"@,
                                    ),
                                ),
                            ),
                        ),
                    ),
                ),
            ),
        ),
    )
}

/// The rules on a trim that concern the scene.
pub open spec fn trim_scene_fault(m: VideoProjectManifestModel, scene: ReviewedSceneModel, start: int, end: int) -> Option<
    Fault,
> {
    let trim = scene_trim(m, scene, start, end);
    or_else(
        kept_source_fault(scene.source_range, start, end),
        or_else(
            anchor_fault(m, scene),
            or_else(
                trim_times_fault(m, scene, start, end),
                or_else(
                    unless(
                        scene.revision < u32::MAX,
                        fault_at(
                            VideoErrorCode::ArithmeticOverflow,
                            "scene revision overflowed during trim"@,
                            "reviewed_scenes.revision"@,
                        ),
                    ),
                    layers_kept_fault_from(m.visual_layers, trim.scene, trim.retained, 0),
                ),
            ),
        ),
    )
}

/// The rules on a trim that concern what stands on the timeline.
pub open spec fn trim_items_fault(m: VideoProjectManifestModel, place: int, source: TimeRange, trim: SceneTrimModel) -> Option<
    Fault,
> {
    or_else(
        scenes_trim_fault_from(m.reviewed_scenes, place, source, trim, 0),
        or_else(
            tracks_trim_fault_from(trim, m.tracks, 0),
            or_else(
                trim_fault_from::<TimelineGap>(trim, m.gaps, 0),
                or_else(
                    trim_fault_from::<CaptionCue>(trim, m.captions, 0),
                    trim_fault_from::<VisualLayer>(trim, m.visual_layers, 0),
                ),
            ),
        ),
    )
}

/// Why a scene cannot be trimmed to a source range.
pub open spec fn trim_fault(m: VideoProjectManifestModel, scene_id: Seq<char>, source: TimeRange) -> Option<Fault> {
    match scene_place(m, scene_id) {
        Some(place) => {
            let scene = m.reviewed_scenes[place];
            or_else(
                trim_scene_fault(m, scene, source.start(), source.end()),
                trim_items_fault(m, place, source, scene_trim(m, scene, source.start(), source.end())),
            )
        },
        None => Some(missing_scene_fault(scene_id)),
    }
}

/// The project after the scene at a place has been trimmed.
pub open spec fn trim_at(m: VideoProjectManifestModel, place: int, source: TimeRange, trim: SceneTrimModel) -> VideoProjectManifestModel {
    VideoProjectManifestModel {
        reviewed_scenes: trimmed_scenes(m.reviewed_scenes, place, source, trim),
        tracks: trimmed_tracks(trim, m.tracks),
        gaps: trimmed_from::<TimelineGap>(trim, m.gaps, 0),
        captions: trimmed_from::<CaptionCue>(trim, m.captions, 0),
        visual_layers: ranked::<VisualLayer>(trimmed_from::<VisualLayer>(trim, m.visual_layers, 0)),
        timeline_duration_us: Microseconds((m.timeline_duration_us.0 - trim.removed) as i64),
        ..m
    }
}

/// The project after a trim.
pub open spec fn trim_result(m: VideoProjectManifestModel, scene_id: Seq<char>, source: TimeRange) -> VideoProjectManifestModel {
    let place = scene_place(m, scene_id)->0;
    trim_at(
        m,
        place,
        source,
        scene_trim(m, m.reviewed_scenes[place], source.start(), source.end()),
    )
}

/// Works out the trim of a scene, if the rules on the scene let it be trimmed.
fn plan_trim(manifest: &VideoProjectManifest, scene: &ReviewedScene, source: TimeRange) -> (result: VideoResult<SceneTrim>)
    ensures
        refusal(result) == trim_scene_fault(
            manifest.deep_view(),
            scene.deep_view(),
            source.start(),
            source.end(),
        ),
        result matches Ok(trim) ==> trim.deep_view() == scene_trim(
            manifest.deep_view(),
            scene.deep_view(),
            source.start(),
            source.end(),
        ) && usable(trim.deep_view()) && on_clock(trim.retained.length()) && on_clock(
            manifest.timeline_duration_us.0 - trim.removed,
        ) && scene.revision < u32::MAX,
{
    check_kept_source(scene.source_range, source.start_us, source.end_us)?;
    let anchor: TimelineClip = find_source_anchor(manifest, scene)?;
    let from: Microseconds = map_source_endpoint_to_timeline_exact(&anchor, source.start_us)?;
    let to: Microseconds = map_source_endpoint_to_timeline_exact(&anchor, source.end_us)?;
    let length: i64 = checked_difference(to.0, from.0)?;
    if length < MIN_TIMELINE_SCENE_DURATION_US {
        let minimum: String = decimal_text(MIN_TIMELINE_SCENE_DURATION_US as u64);
        let message: String = text_concat3(
            "trimmed timeline scene must be at least ",
            minimum.as_str(),
            " microseconds",
        );
        return Err(refuse(VideoErrorCode::InvalidScene, message.as_str(), "operations.source_end_us"));
    }
    let span: TimeRange = scene_timeline_range(scene)?;
    let retained: TimeRange = TimeRange::new(from.0, to.0)?;
    let removed: i64 = checked_difference(scene.timeline_duration_us.0, length)?;
    let left: i64 = checked_difference(manifest.timeline_duration_us.0, removed)?;
    if left <= 0 {
        return Err(
            refuse(
                VideoErrorCode::InvalidTimestamp,
                "trim would remove the complete project timeline",
                "timeline_duration_us",
            ),
        );
    }
    if scene.revision == u32::MAX {
        return Err(
            refuse(
                VideoErrorCode::ArithmeticOverflow,
                "scene revision overflowed during trim",
                "reviewed_scenes.revision",
            ),
        );
    }
    check_layers_kept(&manifest.visual_layers, span, retained)?;
    Ok(
        SceneTrim {
            scene: span,
            retained,
            removed,
            anchor,
            transcript: manifest.transcript.duplicate(),
        },
    )
}

/// Trims a scene to a part of its source range. What is cut away leaves the timeline, and all that
/// follows moves up.
pub fn trim_scene(
    manifest: &VideoProjectManifest,
    scene_id: &str,
    source_start_us: Microseconds,
    source_end_us: Microseconds,
) -> (result: VideoResult<VideoProjectManifest>)
    ensures
        refusal(result) == trim_fault(
            manifest.deep_view(),
            scene_id@,
            (TimeRange { start_us: source_start_us, end_us: source_end_us }),
        ),
        result matches Ok(edited) ==> edited.deep_view() == trim_result(
            manifest.deep_view(),
            scene_id@,
            (TimeRange { start_us: source_start_us, end_us: source_end_us }),
        ),
{
    let ghost m = manifest.deep_view();
    let source = TimeRange { start_us: source_start_us, end_us: source_end_us };
    let place: usize = find_scene_index(manifest, scene_id)?;
    let scene: &ReviewedScene = &manifest.reviewed_scenes[place];
    assert(m.reviewed_scenes[place as int] == scene.deep_view());
    let trim: SceneTrim = plan_trim(manifest, scene, source)?;
    let reviewed_scenes: Vec<ReviewedScene> = trim_scenes(&manifest.reviewed_scenes, place, source, &trim)?;
    let tracks: Vec<TimelineTrack> = trim_tracks(&manifest.tracks, &trim)?;
    let gaps: Vec<TimelineGap> = trim_all(&manifest.gaps, &trim)?;
    let captions: Vec<CaptionCue> = trim_all(&manifest.captions, &trim)?;
    let layers: Vec<VisualLayer> = trim_all(&manifest.visual_layers, &trim)?;
    let visual_layers: Vec<VisualLayer> = rank(layers);
    Ok(
        VideoProjectManifest {
            reviewed_scenes,
            tracks,
            gaps,
            captions,
            visual_layers,
            timeline_duration_us: Microseconds(manifest.timeline_duration_us.0 - trim.removed),
            ..manifest.duplicate()
        },
    )
}

// ---------------------------------------------------------------------------------------------
// What a trim keeps in step
// ---------------------------------------------------------------------------------------------
/// A clip of the trimmed scene keeps its distance to the kept footage, and plays the same source at the
/// same rate: what is cut from one end of it on the timeline is cut from the same end of its source. A
/// clip that plays nothing of what is kept goes.
pub proof fn a_trim_keeps_clips_in_step(trim: SceneTrimModel, clip: TimelineClipModel)
    requires
        TimelineClip::trim_fault(trim, clip) is None,
        trim.scene.encloses(clip.span()),
    ensures
        ({
            let from = max(clip.timeline_start_us.0 as int, trim.retained.start_us.0 as int);
            let to = min(
                clip.timeline_start_us.0 + clip.timeline_duration_us.0,
                trim.retained.end_us.0 as int,
            );
            match TimelineClip::trimmed(trim, clip) {
                Some(left) => {
                    &&& from < to
                    &&& left.timeline_start_us.0 - trim.scene.start_us.0 == from - trim.retained.start_us.0
                    &&& left.timeline_duration_us.0 == to - from
                    &&& (left.source_range.start_us.0 - clip.source_range.start_us.0) * clip.playback_rate.denominator
                        == (from - clip.timeline_start_us.0) * clip.playback_rate.numerator
                    &&& (left.source_range.end_us.0 - clip.source_range.start_us.0) * clip.playback_rate.denominator
                        == (to - clip.timeline_start_us.0) * clip.playback_rate.numerator
                    &&& left == TimelineClipModel {
                        source_range: left.source_range,
                        timeline_start_us: left.timeline_start_us,
                        timeline_duration_us: left.timeline_duration_us,
                        ..clip
                    }
                },
                None => from >= to,
            }
        }),
{
    match shared_range(clip.span(), trim.retained) {
        Some(kept) => {
            an_exact_cut_rounds_nothing(clip, kept.start());
            an_exact_cut_rounds_nothing(clip, kept.end());
        },
        None => {},
    }
}

/// Under every instant that a trim keeps plays the footage that played there before.
pub proof fn a_trim_keeps_the_footage_under_each_instant(trim: SceneTrimModel, clip: TimelineClipModel, instant: int)
    requires
        TimelineClip::trim_fault(trim, clip) is None,
        trim.scene.encloses(clip.span()),
        TimelineClip::trimmed(trim, clip) is Some,
    ensures
        source_instant(
            TimelineClip::trimmed(trim, clip)->0,
            instant - trim.retained.start_us.0 + trim.scene.start_us.0,
            QuantizeMode::Floor,
        ) == source_instant(clip, instant, QuantizeMode::Floor),
{
    a_trim_keeps_clips_in_step(trim, clip);
    let left = TimelineClip::trimmed(trim, clip)->0;
    let from = max(clip.timeline_start_us.0 as int, trim.retained.start_us.0 as int);
    let n = clip.playback_rate.numerator as int;
    let d = clip.playback_rate.denominator as int;
    let cut = left.source_range.start_us.0 - clip.source_range.start_us.0;
    let rest = instant - from;
    assert((instant - clip.timeline_start_us.0) * n == (from - clip.timeline_start_us.0) * n + rest * n)
        by (nonlinear_arith)
        requires
            rest == instant - from,
    ;
    assert(cut * d == d * cut) by (nonlinear_arith);
    vstd::arithmetic::div_mod::lemma_hoist_over_denominator(rest * n, cut, d as nat);
    assert(left.playback_rate == clip.playback_rate);
}

/// A caption of the trimmed scene keeps its distance to the kept footage, and is as long as what is kept
/// of it. One that is kept whole keeps its words.
pub proof fn a_trim_keeps_captions_in_step(trim: SceneTrimModel, caption: CaptionCueModel)
    requires
        CaptionCue::trim_fault(trim, caption) is None,
        trim.scene.encloses(caption.range),
    ensures
        ({
            let from = max(caption.range.start_us.0 as int, trim.retained.start_us.0 as int);
            let to = min(caption.range.end_us.0 as int, trim.retained.end_us.0 as int);
            &&& from >= to ==> CaptionCue::trimmed(trim, caption) is None
            &&& CaptionCue::trimmed(trim, caption) matches Some(left) ==> {
                &&& left.range.start_us.0 - trim.scene.start_us.0 == from - trim.retained.start_us.0
                &&& left.range.end_us.0 - left.range.start_us.0 == to - from
                &&& left == CaptionCueModel { range: left.range, text: left.text, ..caption }
                &&& trim.retained.encloses(caption.range) ==> left.text == caption.text
                &&& exists|begin: int, end: int|
                    0 <= begin < end <= caption.text.len() && left.text == #[trigger] caption.text.subrange(begin, end)
            }
            &&& trim.retained.encloses(caption.range) && from < to && !blank(caption.text) ==> CaptionCue::trimmed(
                trim,
                caption,
            ) is Some
        }),
{
    match shared_range(caption.range, trim.retained) {
        Some(kept) => {
            assert(caption.text.subrange(0, caption.text.len() as int) =~= caption.text);
            let begin = caption_from(trim, caption, kept);
            let end = caption_to(trim, caption, kept);
            if begin is Ok && end is Ok {
                if kept.start() > caption.range.start() {
                    lemma_caption_division(trim.transcript, caption, kept.start(), source_instant(trim.anchor, kept.start(), QuantizeMode::Floor), false);
                }
                if kept.end() < caption.range.end() {
                    lemma_caption_division(trim.transcript, caption, kept.end(), source_instant(trim.anchor, kept.end(), QuantizeMode::Floor), false);
                }
                if CaptionCue::trimmed(trim, caption) is Some {
                    assert(CaptionCue::trimmed(trim, caption)->0.text == caption.text.subrange(begin->Ok_0, end->Ok_0));
                }
            }
        },
        None => {},
    }
}

/// A caption and a clip that it is spoken in stay in step: the source instant under the start of what is
/// kept of the caption is the same before and after.
pub proof fn a_trim_keeps_captions_on_their_words(
    trim: SceneTrimModel,
    clip: TimelineClipModel,
    caption: CaptionCueModel,
)
    requires
        TimelineClip::trim_fault(trim, clip) is None,
        CaptionCue::trim_fault(trim, caption) is None,
        trim.scene.encloses(clip.span()),
        trim.scene.encloses(caption.range),
        TimelineClip::trimmed(trim, clip) is Some,
        CaptionCue::trimmed(trim, caption) is Some,
    ensures
        source_instant(
            TimelineClip::trimmed(trim, clip)->0,
            CaptionCue::trimmed(trim, caption)->0.range.start_us.0 as int,
            QuantizeMode::Floor,
        ) == source_instant(
            clip,
            max(caption.range.start_us.0 as int, trim.retained.start_us.0 as int),
            QuantizeMode::Floor,
        ),
        source_instant(
            TimelineClip::trimmed(trim, clip)->0,
            CaptionCue::trimmed(trim, caption)->0.range.end_us.0 as int,
            QuantizeMode::Floor,
        ) == source_instant(
            clip,
            min(caption.range.end_us.0 as int, trim.retained.end_us.0 as int),
            QuantizeMode::Floor,
        ),
{
    a_trim_keeps_captions_in_step(trim, caption);
    let from = max(caption.range.start_us.0 as int, trim.retained.start_us.0 as int);
    let to = min(caption.range.end_us.0 as int, trim.retained.end_us.0 as int);
    a_trim_keeps_the_footage_under_each_instant(trim, clip, from);
    a_trim_keeps_the_footage_under_each_instant(trim, clip, to);
}

/// A gap of the trimmed scene keeps its distance to the kept footage, and so does the source silence that
/// it stands for. A gap outside what is kept goes.
pub proof fn a_trim_keeps_gaps_in_step(trim: SceneTrimModel, gap: TimelineGapModel)
    requires
        TimelineGap::trim_fault(trim, gap) is None,
        trim.scene.encloses(gap.range),
    ensures
        ({
            let from = max(gap.range.start_us.0 as int, trim.retained.start_us.0 as int);
            let to = min(gap.range.end_us.0 as int, trim.retained.end_us.0 as int);
            match TimelineGap::trimmed(trim, gap) {
                Some(left) => {
                    &&& from < to
                    &&& left.range.start_us.0 - trim.scene.start_us.0 == from - trim.retained.start_us.0
                    &&& left.range.end_us.0 - left.range.start_us.0 == to - from
                    &&& left.source_range is Some <==> gap.source_range is Some
                    &&& gap.source_range matches Some(source) ==> {
                        &&& left.source_range->0.start_us.0 - source.start_us.0 == from - gap.range.start_us.0
                        &&& left.source_range->0.end_us.0 - left.source_range->0.start_us.0 == to - from
                    }
                    &&& left == TimelineGapModel { range: left.range, source_range: left.source_range, ..gap }
                },
                None => from >= to,
            }
        }),
{
}

/// A visual layer of the trimmed scene keeps its length and its distance to the kept footage.
pub proof fn a_trim_keeps_layers_in_step(trim: SceneTrimModel, layer: VisualLayerModel)
    requires
        VisualLayer::trim_fault(trim, layer) is None,
        trim.scene.encloses(layer.range),
    ensures
        VisualLayer::trimmed(trim, layer) matches Some(left) && {
            &&& left.range.start_us.0 - trim.scene.start_us.0 == layer.range.start_us.0 - trim.retained.start_us.0
            &&& left.range.end_us.0 - left.range.start_us.0 == layer.range.end_us.0 - layer.range.start_us.0
            &&& left == VisualLayerModel { range: left.range, ..layer }
        },
{
}

/// What ends before a trimmed scene starts stays; what starts after its end moves up by the time that
/// went, and changes in nothing else.
pub proof fn a_trim_moves_up_what_follows(
    trim: SceneTrimModel,
    clip: TimelineClipModel,
    gap: TimelineGapModel,
    caption: CaptionCueModel,
    layer: VisualLayerModel,
    scene: ReviewedSceneModel,
)
    requires
        trim.scene.valid(),
        TimelineClip::trim_fault(trim, clip) is None,
        TimelineGap::trim_fault(trim, gap) is None,
        CaptionCue::trim_fault(trim, caption) is None,
        VisualLayer::trim_fault(trim, layer) is None,
        ReviewedScene::trim_fault(trim, scene) is None,
        gap.range.valid(),
        caption.range.valid(),
        layer.range.valid(),
    ensures
        clip.timeline_start_us.0 >= trim.scene.end_us.0 ==> (TimelineClip::trimmed(trim, clip) matches Some(left)
            && left == (TimelineClipModel { timeline_start_us: left.timeline_start_us, ..clip })
            && clip.timeline_start_us.0 - left.timeline_start_us.0 == trim.removed),
        gap.range.start_us.0 >= trim.scene.end_us.0 ==> (TimelineGap::trimmed(trim, gap) matches Some(left)
            && left == (TimelineGapModel { range: left.range, ..gap })
            && gap.range.start_us.0 - left.range.start_us.0 == trim.removed
            && gap.range.end_us.0 - left.range.end_us.0 == trim.removed),
        caption.range.start_us.0 >= trim.scene.end_us.0 ==> (CaptionCue::trimmed(trim, caption) matches Some(left)
            && left == (CaptionCueModel { range: left.range, ..caption })
            && caption.range.start_us.0 - left.range.start_us.0 == trim.removed
            && caption.range.end_us.0 - left.range.end_us.0 == trim.removed),
        layer.range.start_us.0 >= trim.scene.end_us.0 ==> (VisualLayer::trimmed(trim, layer) matches Some(left)
            && left == (VisualLayerModel { range: left.range, ..layer })
            && layer.range.start_us.0 - left.range.start_us.0 == trim.removed
            && layer.range.end_us.0 - left.range.end_us.0 == trim.removed),
        scene.timeline_start_us.0 >= trim.scene.end_us.0 ==> (ReviewedScene::trimmed(trim, scene) matches Some(left)
            && left == (ReviewedSceneModel { timeline_start_us: left.timeline_start_us, ..scene })
            && scene.timeline_start_us.0 - left.timeline_start_us.0 == trim.removed),
        clip.timeline_start_us.0 + clip.timeline_duration_us.0 <= trim.scene.start_us.0 ==> TimelineClip::trimmed(
            trim,
            clip,
        ) == Some(clip),
        gap.range.end_us.0 <= trim.scene.start_us.0 ==> TimelineGap::trimmed(trim, gap) == Some(gap),
        caption.range.end_us.0 <= trim.scene.start_us.0 ==> CaptionCue::trimmed(trim, caption) == Some(caption),
        layer.range.end_us.0 <= trim.scene.start_us.0 ==> VisualLayer::trimmed(trim, layer) == Some(layer),
        scene.timeline_start_us.0 < trim.scene.start_us.0 ==> ReviewedScene::trimmed(trim, scene) == Some(scene),
{
}

/// What a trim leaves of a list is what it leaves of each item, in the order of the items: nothing that
/// it keeps is lost, put twice or put elsewhere.
pub proof fn a_trim_keeps_every_item_in_order<T: Trimmable>(trim: SceneTrimModel, items: Seq<T::V>) -> (places: Seq<int>)
    ensures
        places.len() == trimmed_from::<T>(trim, items, 0).len(),
        forall|k: int|
            0 <= k < places.len() ==> 0 <= #[trigger] places[k] < items.len() && T::trimmed(trim, items[places[k]])
                == Some(trimmed_from::<T>(trim, items, 0)[k]),
        forall|j: int, k: int| 0 <= j < k < places.len() ==> places[j] < places[k],
        forall|i: int|
            0 <= i < items.len() && (#[trigger] T::trimmed(trim, items[i])) is Some ==> places.contains(i),
{
    lemma_trimmed_places::<T>(trim, items, 0)
}

proof fn lemma_trimmed_places<T: Trimmable>(trim: SceneTrimModel, items: Seq<T::V>, index: int) -> (places: Seq<int>)
    requires
        0 <= index <= items.len(),
    ensures
        places.len() == trimmed_from::<T>(trim, items, index).len(),
        forall|k: int|
            0 <= k < places.len() ==> index <= #[trigger] places[k] < items.len() && T::trimmed(trim, items[places[k]])
                == Some(trimmed_from::<T>(trim, items, index)[k]),
        forall|j: int, k: int| 0 <= j < k < places.len() ==> places[j] < places[k],
        forall|i: int|
            index <= i < items.len() && (#[trigger] T::trimmed(trim, items[i])) is Some ==> places.contains(i),
    decreases items.len() - index,
{
    if index == items.len() {
        Seq::empty()
    } else {
        let rest = lemma_trimmed_places::<T>(trim, items, index + 1);
        if T::trimmed(trim, items[index]) is Some {
            let places = seq![index] + rest;
            assert forall|i: int|
                index <= i < items.len() && (#[trigger] T::trimmed(trim, items[i])) is Some implies places.contains(i) by {
                if i == index {
                    assert(places[0] == i);
                } else {
                    let k = choose|k: int| 0 <= k < rest.len() && rest[k] == i;
                    assert(places[k + 1] == i);
                }
            }
            places
        } else {
            rest
        }
    }
}

/// A trim closes up the timeline: the scene stands where it stood, plays the source asked for in the time
/// that its anchor takes to play it, and the timeline and every scene that follows move up by what the
/// scene lost.
pub proof fn a_trim_closes_up_the_timeline(m: VideoProjectManifestModel, scene_id: Seq<char>, source: TimeRange)
    requires
        trim_fault(m, scene_id, source) is None,
    ensures
        ({
            let place = scene_place(m, scene_id)->0;
            let after = trim_result(m, scene_id, source);
            let scene = m.reviewed_scenes[place];
            let trimmed = after.reviewed_scenes[place];
            let anchor = source_anchor(m, scene)->0;
            let lost = scene.timeline_duration_us.0 - trimmed.timeline_duration_us.0;
            &&& 0 <= place < m.reviewed_scenes.len()
            &&& scene.id == scene_id
            &&& after.reviewed_scenes.len() == m.reviewed_scenes.len()
            &&& trimmed.id == scene.id
            &&& trimmed.timeline_start_us == scene.timeline_start_us
            &&& trimmed.source_range == Some(source)
            &&& trimmed.revision == scene.revision + 1
            &&& trimmed.timeline_duration_us.0 * anchor.playback_rate.numerator == (source.end_us.0
                - source.start_us.0) * anchor.playback_rate.denominator
            &&& trimmed.timeline_duration_us.0 >= 100_000
            &&& m.timeline_duration_us.0 - after.timeline_duration_us.0 == lost
            &&& forall|i: int|
                0 <= i < m.reviewed_scenes.len() && i != place ==> {
                    let other = m.reviewed_scenes[i];
                    let moved = #[trigger] after.reviewed_scenes[i];
                    &&& moved == ReviewedSceneModel { timeline_start_us: moved.timeline_start_us, ..other }
                    &&& other.timeline_start_us.0 - moved.timeline_start_us.0 == if other.timeline_start_us.0
                        >= scene.timeline_start_us.0 + scene.timeline_duration_us.0 {
                        lost
                    } else {
                        0
                    }
                }
        }),
{
    let place = scene_place(m, scene_id)->0;
    let scene = m.reviewed_scenes[place];
    lemma_place_from::<ReviewedScene>(m.reviewed_scenes, scene_id, 0);
    let trim = scene_trim(m, scene, source.start(), source.end());
    let anchor = source_anchor(m, scene)->0;
    let n = anchor.playback_rate.numerator as int;
    let d = anchor.playback_rate.denominator as int;
    let stand = an_anchor_plays_its_scene(m, scene);
    an_exact_source_cut_rounds_nothing(anchor, source.start());
    an_exact_source_cut_rounds_nothing(anchor, source.end());
    let from = timeline_instant(anchor, source.start(), QuantizeMode::Floor);
    let to = timeline_instant(anchor, source.end(), QuantizeMode::Floor);
    assert((to - from) * n == (source.end() - source.start()) * d) by (nonlinear_arith)
        requires
            (source.start() - anchor.source_range.start_us.0) * d == (from - anchor.timeline_start_us.0) * n,
            (source.end() - anchor.source_range.start_us.0) * d == (to - anchor.timeline_start_us.0) * n,
    ;
    assert forall|i: int| 0 <= i < m.reviewed_scenes.len() && i != place implies ReviewedScene::trim_fault(
        trim,
        #[trigger] m.reviewed_scenes[i],
    ) is None by {
        lemma_scene_trims(m.reviewed_scenes, place, source, trim, 0, i);
    }
}

proof fn lemma_scene_trims(
    scenes: Seq<ReviewedSceneModel>,
    place: int,
    source: TimeRange,
    trim: SceneTrimModel,
    from: int,
    at: int,
)
    requires
        0 <= from <= at < scenes.len(),
        at != place,
        scenes_trim_fault_from(scenes, place, source, trim, from) is None,
    ensures
        ReviewedScene::trim_fault(trim, scenes[at]) is None,
    decreases at - from,
{
    if from < at {
        lemma_scene_trims(scenes, place, source, trim, from + 1, at);
    }
}

/// A trim keeps the footage that was asked for: the clip that ties the scene to its source plays exactly the source
/// range asked for, over the whole of the trimmed scene, and nothing else of it changes.
pub proof fn a_trim_keeps_the_footage_asked_for(m: VideoProjectManifestModel, scene_id: Seq<char>, source: TimeRange) -> (stand: (
    int,
    int,
))
    requires
        trim_fault(m, scene_id, source) is None,
    ensures
        ({
            let place = scene_place(m, scene_id)->0;
            let scene = m.reviewed_scenes[place];
            let trimmed = trim_result(m, scene_id, source).reviewed_scenes[place];
            let trim = scene_trim(m, scene, source.start(), source.end());
            let clip = m.tracks[stand.0].clips[stand.1];
            let left = TimelineClip::trimmed(trim, clip);
            &&& 0 <= stand.0 < m.tracks.len()
            &&& 0 <= stand.1 < m.tracks[stand.0].clips.len()
            &&& clip.scene_id == Some(scene_id)
            &&& scene.source_range == Some(clip.source_range)
            &&& left is Some
            &&& left->0.source_range == source
            &&& left->0.timeline_start_us == trimmed.timeline_start_us
            &&& left->0.timeline_duration_us == trimmed.timeline_duration_us
            &&& left->0 == TimelineClipModel {
                source_range: source,
                timeline_duration_us: trimmed.timeline_duration_us,
                ..clip
            }
        }),
{
    let place = scene_place(m, scene_id)->0;
    let scene = m.reviewed_scenes[place];
    lemma_place_from::<ReviewedScene>(m.reviewed_scenes, scene_id, 0);
    let stand = an_anchor_plays_its_scene(m, scene);
    let anchor = source_anchor(m, scene)->0;
    let trim = scene_trim(m, scene, source.start(), source.end());
    an_exact_source_cut_rounds_nothing(anchor, source.start());
    an_exact_source_cut_rounds_nothing(anchor, source.end());
    a_trim_closes_up_the_timeline(m, scene_id, source);
    let found = lemma_anchor_in_tracks(scene, m.tracks, 0, None);
    assert(anchors(scene, anchor));
    assert(anchor.span() == scene.span());
    lemma_track_trims(trim, m.tracks, 0, stand.0);
    lemma_item_trims::<TimelineClip>(trim, m.tracks[stand.0].clips, 0, stand.1);
    assert(shared_range(anchor.span(), trim.retained) == Some(trim.retained));
    stand
}

proof fn lemma_track_trims(trim: SceneTrimModel, tracks: Seq<TimelineTrackModel>, from: int, at: int)
    requires
        0 <= from <= at < tracks.len(),
        tracks_trim_fault_from(trim, tracks, from) is None,
    ensures
        trim_fault_from::<TimelineClip>(trim, tracks[at].clips, 0) is None,
    decreases at - from,
{
    if from < at {
        lemma_track_trims(trim, tracks, from + 1, at);
    }
}

proof fn lemma_item_trims<T: Trimmable>(trim: SceneTrimModel, items: Seq<T::V>, from: int, at: int)
    requires
        0 <= from <= at < items.len(),
        trim_fault_from::<T>(trim, items, from) is None,
    ensures
        T::trim_fault(trim, items[at]) is None,
    decreases at - from,
{
    if from < at {
        lemma_item_trims::<T>(trim, items, from + 1, at);
    }
}

} // verus!
