//! Splitting a scene in two at an instant of the timeline.

use crate::edit_shared::{
    a_caption_is_divided_between_words, an_anchor_plays_its_scene, an_exact_cut_rounds_nothing, anchor_fault, arithmetic_overflow, caption_division, caption_split_index, checked_difference, crossing_fault,
    deterministic_split_id, edit_overflow, ensure_span_does_not_cross_scene_boundary, exact_source_fault,
    find_scene_index, find_source_anchor, map_timeline_endpoint_to_source_exact, missing_scene_fault, scene_place,
    scene_timeline_range, source_anchor, split_id, MIN_TIMELINE_SCENE_DURATION_US,
};
use crate::error::{fault_at, or_else, refusal, refuse, unless, Fault, VideoError, VideoErrorCode, VideoResult};
use crate::manifest::{
    CaptionCue, CaptionCueModel, LayoutElement, LayoutElementModel, LayoutPlan, LayoutPlanModel, ReviewedScene,
    ReviewedSceneModel, TimelineClip, TimelineClipModel, TimelineGap, TimelineGapModel, TimelineTrack,
    TimelineTrackModel, TranscriptVersion, TranscriptVersionModel, VideoProjectManifest, VideoProjectManifestModel,
    VisualLayer, VisualLayerModel,
};
use crate::manifest_rules::is_text;
use crate::model::{collect_names, has_name, holds, lemma_place_from, names, Model, Named};
use crate::text::{blank, chars_of, decimal, decimal_text, text_concat3, text_of};
use crate::time::{addition_fault, on_clock, range_fault, Microseconds, TimeRange, Validate};
use crate::timeline::{source_instant, QuantizeMode};
use crate::validate::id_set;
use vstd::hash_set::StringHashSet;
use vstd::prelude::*;

verus! {

/// A cut through a scene: where it is, and what the half after it is called.
pub struct SceneCut {
    pub scene: TimeRange,
    pub at: Microseconds,
    pub source_at: Microseconds,
    pub scene_id: String,
    pub right_id: String,
    pub transcript: Option<TranscriptVersion>,
}

/// What a [`SceneCut`] holds, as mathematical values.
pub struct SceneCutModel {
    pub scene: TimeRange,
    pub at: Microseconds,
    pub source_at: Microseconds,
    pub scene_id: Seq<char>,
    pub right_id: Seq<char>,
    pub transcript: Option<TranscriptVersionModel>,
}

impl DeepView for SceneCut {
    type V = SceneCutModel;

    open spec fn deep_view(&self) -> SceneCutModel {
        SceneCutModel {
            scene: self.scene,
            at: self.at,
            source_at: self.source_at,
            scene_id: self.scene_id@,
            right_id: self.right_id@,
            transcript: self.transcript.deep_view(),
        }
    }
}

/// Items of a timeline that a cut may divide.
pub trait Divisible: Named + Model {
    /// Why the cut may not touch the item, as far as that is known before the half after the cut has its
    /// identifier.
    spec fn opening_fault(cut: SceneCutModel, item: Self::V) -> Option<Fault>;

    /// Why the halves of an item that the cut divides cannot stand, as far as that is known only once the
    /// half after the cut has its identifier.
    spec fn closing_fault(cut: SceneCutModel, item: Self::V) -> Option<Fault>;

    /// What stands before the cut, and what stands after it where the cut divides the item.
    spec fn pieces(cut: SceneCutModel, item: Self::V) -> (Self::V, Option<Self::V>);

    /// The refusal of a derived identifier that is taken.
    spec fn clash() -> Fault;

    /// Divides the item where the cut divides it. The identifier that the half after the cut gets is
    /// taken from then on.
    fn divide(&self, cut: &SceneCut, taken: &mut StringHashSet) -> (result: VideoResult<(Self, Option<Self>)>)
        requires
            cut.scene.valid(),
        ensures
            refusal(result) == or_else(
                Self::opening_fault(cut.deep_view(), self.deep_view()),
                match Self::pieces(cut.deep_view(), self.deep_view()).1 {
                    Some(right) => if old(taken)@.contains(Self::name_of(right)) {
                        Some(Self::clash())
                    } else {
                        Self::closing_fault(cut.deep_view(), self.deep_view())
                    },
                    None => None,
                },
            ),
            result matches Ok(pieces) ==> {
                let expected = Self::pieces(cut.deep_view(), self.deep_view());
                &&& pieces.0.deep_view() == expected.0
                &&& pieces.1.deep_view() == expected.1
                &&& final(taken)@ == match expected.1 {
                    Some(right) => old(taken)@.insert(Self::name_of(right)),
                    None => old(taken)@,
                }
            },
    ;

    fn clash_error() -> (error: VideoError)
        ensures
            error.deep_view() == Self::clash(),
    ;
}

/// Why an item cannot be divided, whatever identifiers are taken.
pub open spec fn division_fault<T: Divisible>(cut: SceneCutModel, item: T::V) -> Option<Fault> {
    or_else(
        T::opening_fault(cut, item),
        if T::pieces(cut, item).1 is Some {
            T::closing_fault(cut, item)
        } else {
            None
        },
    )
}

/// The items from a place on, each divided where the cut divides it.
pub open spec fn divided_from<T: Divisible>(cut: SceneCutModel, items: Seq<T::V>, index: int) -> Seq<T::V>
    decreases items.len() - index,
{
    if index < 0 || index >= items.len() {
        Seq::empty()
    } else {
        let pieces = T::pieces(cut, items[index]);
        match pieces.1 {
            Some(right) => seq![pieces.0, right] + divided_from::<T>(cut, items, index + 1),
            None => seq![pieces.0] + divided_from::<T>(cut, items, index + 1),
        }
    }
}

/// The identifiers that are taken once the items from a place on have been divided.
pub open spec fn taken_after<T: Divisible>(
    cut: SceneCutModel,
    items: Seq<T::V>,
    index: int,
    taken: Set<Seq<char>>,
) -> Set<Seq<char>>
    decreases items.len() - index,
{
    if index < 0 || index >= items.len() {
        taken
    } else {
        match T::pieces(cut, items[index]).1 {
            Some(right) => taken_after::<T>(cut, items, index + 1, taken.insert(T::name_of(right))),
            None => taken_after::<T>(cut, items, index + 1, taken),
        }
    }
}

/// The first refusal met in dividing the items from a place on.
pub open spec fn divide_fault_from<T: Divisible>(
    cut: SceneCutModel,
    items: Seq<T::V>,
    index: int,
    taken: Set<Seq<char>>,
) -> Option<Fault>
    decreases items.len() - index,
{
    if index < 0 || index >= items.len() {
        None
    } else {
        or_else(
            T::opening_fault(cut, items[index]),
            match T::pieces(cut, items[index]).1 {
                Some(right) => if taken.contains(T::name_of(right)) {
                    Some(T::clash())
                } else {
                    or_else(
                        T::closing_fault(cut, items[index]),
                        divide_fault_from::<T>(cut, items, index + 1, taken.insert(T::name_of(right))),
                    )
                },
                None => divide_fault_from::<T>(cut, items, index + 1, taken),
            },
        )
    }
}

/// Divides every item that the cut divides. Identifiers made on the way must not be taken.
fn divide_all<T: Divisible>(items: &Vec<T>, cut: &SceneCut, taken: &mut StringHashSet) -> (result: VideoResult<
    Vec<T>,
>)
    requires
        cut.scene.valid(),
    ensures
        refusal(result) == divide_fault_from::<T>(cut.deep_view(), items.deep_view(), 0, old(taken)@),
        result matches Ok(divided) ==> {
            &&& divided.deep_view() == divided_from::<T>(cut.deep_view(), items.deep_view(), 0)
            &&& final(taken)@ == taken_after::<T>(cut.deep_view(), items.deep_view(), 0, old(taken)@)
        },
{
    let ghost model = items.deep_view();
    let ghost c = cut.deep_view();
    let ghost entry = taken@;
    let mut divided: Vec<T> = Vec::new();
    let mut index: usize = 0;
    assert(divided.deep_view() + divided_from::<T>(c, model, 0) =~= divided_from::<T>(c, model, 0));
    while index < items.len()
        invariant
            index <= items.len(),
            cut.scene.valid(),
            model == items.deep_view(),
            c == cut.deep_view(),
            entry == old(taken)@,
            divided.deep_view() + divided_from::<T>(c, model, index as int) == divided_from::<T>(c, model, 0),
            taken_after::<T>(c, model, index as int, taken@) == taken_after::<T>(c, model, 0, entry),
            divide_fault_from::<T>(c, model, index as int, taken@) == divide_fault_from::<T>(
                c,
                model,
                0,
                entry,
            ),
        decreases items.len() - index,
    {
        assert(model[index as int] == items[index as int].deep_view());
        let ghost before = divided.deep_view();
        let ghost rest = divided_from::<T>(c, model, index + 1);
        let (left, right) = items[index].divide(cut, taken)?;
        let ghost left_model = left.deep_view();
        divided.push(left);
        match right {
            Some(piece) => {
                let ghost right_model = piece.deep_view();
                divided.push(piece);
                assert(divided.deep_view() =~= before.push(left_model).push(right_model));
                assert(divided.deep_view() + rest =~= before + (seq![left_model, right_model] + rest));
            },
            None => {
                assert(divided.deep_view() =~= before.push(left_model));
                assert(divided.deep_view() + rest =~= before + (seq![left_model] + rest));
            },
        }
        index += 1;
    }
    assert(divided.deep_view() =~= divided_from::<T>(c, model, 0));
    Ok(divided)
}

// ---------------------------------------------------------------------------------------------
// Layout elements
// ---------------------------------------------------------------------------------------------
impl Divisible for LayoutElement {
    open spec fn opening_fault(cut: SceneCutModel, item: LayoutElementModel) -> Option<Fault> {
        None
    }

    open spec fn closing_fault(cut: SceneCutModel, item: LayoutElementModel) -> Option<Fault> {
        None
    }

    open spec fn pieces(cut: SceneCutModel, item: LayoutElementModel) -> (
        LayoutElementModel,
        Option<LayoutElementModel>,
    ) {
        if item.scene_id == Some(cut.scene_id) {
            (
                item,
                Some(
                    LayoutElementModel {
                        id: split_id("layout"@, item.id, cut.at.0 as int),
                        scene_id: Some(cut.right_id),
                        ..item
                    },
                ),
            )
        } else {
            (item, None)
        }
    }

    open spec fn clash() -> Fault {
        fault_at(
            VideoErrorCode::DuplicateId,
            "deterministic split layout identifier already exists"@,
            "layout.elements.id"@,
        )
    }

    fn divide(&self, cut: &SceneCut, taken: &mut StringHashSet) -> (result: VideoResult<(Self, Option<Self>)>) {
        if is_text(&self.scene_id, cut.scene_id.as_str()) {
            let id: String = deterministic_split_id("layout", self.id.as_str(), cut.at);
            if !taken.insert(id.clone()) {
                return Err(Self::clash_error());
            }
            let right = LayoutElement {
                id,
                scene_id: Some(cut.right_id.clone()),
                ..self.duplicate()
            };
            Ok((self.duplicate(), Some(right)))
        } else {
            Ok((self.duplicate(), None))
        }
    }

    fn clash_error() -> (error: VideoError) {
        refuse(
            VideoErrorCode::DuplicateId,
            "deterministic split layout identifier already exists",
            "layout.elements.id",
        )
    }
}

// ---------------------------------------------------------------------------------------------
// Clips
// ---------------------------------------------------------------------------------------------
/// Whether a span lies in the cut scene on both sides of the cut.
pub open spec fn straddles(cut: SceneCutModel, span: TimeRange) -> bool {
    cut.scene.encloses(span) && span.start() < cut.at.0 < span.end()
}

/// Whether a span lies in the cut scene after the cut.
pub open spec fn follows(cut: SceneCutModel, span: TimeRange) -> bool {
    cut.scene.encloses(span) && span.end() > cut.at.0 && span.start() >= cut.at.0
}

/// The scene of an item after the cut.
pub open spec fn right_scene(cut: SceneCutModel, scene_id: Option<Seq<char>>) -> Option<Seq<char>> {
    if scene_id == Some(cut.scene_id) {
        Some(cut.right_id)
    } else {
        scene_id
    }
}

impl SceneCut {
    fn right_scene_of(&self, scene_id: &Option<String>) -> (result: Option<String>)
        ensures
            result.deep_view() == right_scene(self.deep_view(), scene_id.deep_view()),
    {
        if is_text(scene_id, self.scene_id.as_str()) {
            Some(self.right_id.clone())
        } else {
            scene_id.duplicate()
        }
    }
}

impl Divisible for TimelineClip {
    open spec fn opening_fault(cut: SceneCutModel, item: TimelineClipModel) -> Option<Fault> {
        or_else(
            item.span_refusal(),
            or_else(
                crossing_fault(
                    item.span(),
                    cut.scene,
                    VideoErrorCode::InvalidTrack,
                    "tracks.clips.timeline"@,
                ),
                if straddles(cut, item.span()) {
                    or_else(
                        exact_source_fault(item, cut.at.0 as int),
                        range_fault(
                            item.source_range.start(),
                            source_instant(item, cut.at.0 as int, QuantizeMode::Floor),
                        ),
                    )
                } else {
                    None
                },
            ),
        )
    }

    open spec fn closing_fault(cut: SceneCutModel, item: TimelineClipModel) -> Option<Fault> {
        range_fault(source_instant(item, cut.at.0 as int, QuantizeMode::Floor), item.source_range.end())
    }

    open spec fn pieces(cut: SceneCutModel, item: TimelineClipModel) -> (
        TimelineClipModel,
        Option<TimelineClipModel>,
    ) {
        let source = Microseconds(
            source_instant(item, cut.at.0 as int, QuantizeMode::Floor) as i64,
        );
        if straddles(cut, item.span()) {
            (
                TimelineClipModel {
                    source_range: TimeRange { start_us: item.source_range.start_us, end_us: source },
                    timeline_duration_us: Microseconds((cut.at.0 - item.timeline_start_us.0) as i64),
                    ..item
                },
                Some(
                    TimelineClipModel {
                        id: split_id("clip"@, item.id, cut.at.0 as int),
                        scene_id: right_scene(cut, item.scene_id),
                        source_range: TimeRange { start_us: source, end_us: item.source_range.end_us },
                        timeline_start_us: cut.at,
                        timeline_duration_us: Microseconds((item.span().end() - cut.at.0) as i64),
                        ..item
                    },
                ),
            )
        } else if follows(cut, item.span()) {
            (TimelineClipModel { scene_id: right_scene(cut, item.scene_id), ..item }, None)
        } else {
            (item, None)
        }
    }

    open spec fn clash() -> Fault {
        fault_at(
            VideoErrorCode::DuplicateId,
            "deterministic split clip identifier already exists"@,
            "tracks.clips.id"@,
        )
    }

    fn divide(&self, cut: &SceneCut, taken: &mut StringHashSet) -> (result: VideoResult<(Self, Option<Self>)>) {
        let span: TimeRange = self.timeline_range()?;
        ensure_span_does_not_cross_scene_boundary(
            span,
            cut.scene,
            VideoErrorCode::InvalidTrack,
            "tracks.clips.timeline",
        )?;
        if !cut.scene.contains_range(span) || span.end_us.0 <= cut.at.0 {
            return Ok((self.duplicate(), None));
        }
        if span.start_us.0 >= cut.at.0 {
            let moved = TimelineClip {
                scene_id: cut.right_scene_of(&self.scene_id),
                ..self.duplicate()
            };
            return Ok((moved, None));
        }
        let source: Microseconds = map_timeline_endpoint_to_source_exact(self, cut.at)?;
        let left_source: TimeRange = TimeRange::new(self.source_range.start_us.0, source.0)?;
        let id: String = deterministic_split_id("clip", self.id.as_str(), cut.at);
        if !taken.insert(id.clone()) {
            return Err(Self::clash_error());
        }
        let right_source: TimeRange = TimeRange::new(source.0, self.source_range.end_us.0)?;
        let left = TimelineClip {
            source_range: left_source,
            timeline_duration_us: Microseconds(cut.at.0 - self.timeline_start_us.0),
            ..self.duplicate()
        };
        let right = TimelineClip {
            id,
            scene_id: cut.right_scene_of(&self.scene_id),
            source_range: right_source,
            timeline_start_us: cut.at,
            timeline_duration_us: Microseconds(span.end_us.0 - cut.at.0),
            ..self.duplicate()
        };
        Ok((left, Some(right)))
    }

    fn clash_error() -> (error: VideoError) {
        refuse(
            VideoErrorCode::DuplicateId,
            "deterministic split clip identifier already exists",
            "tracks.clips.id",
        )
    }
}

// ---------------------------------------------------------------------------------------------
// Gaps
// ---------------------------------------------------------------------------------------------
/// The source instant that a cut divides a gap's source silence at.
pub open spec fn gap_source(cut: SceneCutModel, item: TimelineGapModel) -> int {
    item.source_range->0.start() + (cut.at.0 - item.range.start())
}

impl Divisible for TimelineGap {
    open spec fn opening_fault(cut: SceneCutModel, item: TimelineGapModel) -> Option<Fault> {
        or_else(
            crossing_fault(item.range, cut.scene, VideoErrorCode::InvalidGap, "gaps.range"@),
            if straddles(cut, item.range) {
                range_fault(item.range.start(), cut.at.0 as int)
            } else {
                None
            },
        )
    }

    open spec fn closing_fault(cut: SceneCutModel, item: TimelineGapModel) -> Option<Fault> {
        or_else(
            range_fault(cut.at.0 as int, item.range.end()),
            match item.source_range {
                Some(source) => or_else(
                    unless(on_clock(gap_source(cut, item)), addition_fault()),
                    or_else(
                        range_fault(source.start(), gap_source(cut, item)),
                        range_fault(gap_source(cut, item), source.end()),
                    ),
                ),
                None => None,
            },
        )
    }

    open spec fn pieces(cut: SceneCutModel, item: TimelineGapModel) -> (
        TimelineGapModel,
        Option<TimelineGapModel>,
    ) {
        let source = Microseconds(gap_source(cut, item) as i64);
        if straddles(cut, item.range) {
            (
                TimelineGapModel {
                    range: TimeRange { start_us: item.range.start_us, end_us: cut.at },
                    source_range: match item.source_range {
                        Some(range) => Some(TimeRange { start_us: range.start_us, end_us: source }),
                        None => None,
                    },
                    ..item
                },
                Some(
                    TimelineGapModel {
                        id: split_id("gap"@, item.id, cut.at.0 as int),
                        range: TimeRange { start_us: cut.at, end_us: item.range.end_us },
                        source_range: match item.source_range {
                            Some(range) => Some(TimeRange { start_us: source, end_us: range.end_us }),
                            None => None,
                        },
                        ..item
                    },
                ),
            )
        } else {
            (item, None)
        }
    }

    open spec fn clash() -> Fault {
        fault_at(
            VideoErrorCode::DuplicateId,
            "deterministic split gap identifier already exists"@,
            "gaps.id"@,
        )
    }

    fn divide(&self, cut: &SceneCut, taken: &mut StringHashSet) -> (result: VideoResult<(Self, Option<Self>)>) {
        ensure_span_does_not_cross_scene_boundary(
            self.range,
            cut.scene,
            VideoErrorCode::InvalidGap,
            "gaps.range",
        )?;
        if !cut.scene.contains_range(self.range) || self.range.end_us.0 <= cut.at.0 || self.range.start_us.0
            >= cut.at.0 {
            return Ok((self.duplicate(), None));
        }
        let left_range: TimeRange = TimeRange::new(self.range.start_us.0, cut.at.0)?;
        let id: String = deterministic_split_id("gap", self.id.as_str(), cut.at);
        if !taken.insert(id.clone()) {
            return Err(Self::clash_error());
        }
        let right_range: TimeRange = TimeRange::new(cut.at.0, self.range.end_us.0)?;
        let (left_source, right_source): (Option<TimeRange>, Option<TimeRange>) = match self.source_range {
            Some(source) => {
                let offset = Microseconds(cut.at.0 - self.range.start_us.0);
                let middle: Microseconds = source.start_us.checked_add(offset)?;
                (
                    Some(TimeRange::new(source.start_us.0, middle.0)?),
                    Some(TimeRange::new(middle.0, source.end_us.0)?),
                )
            },
            None => (None, None),
        };
        let left = TimelineGap { range: left_range, source_range: left_source, ..self.duplicate() };
        let right = TimelineGap {
            id,
            range: right_range,
            source_range: right_source,
            ..self.duplicate()
        };
        Ok((left, Some(right)))
    }

    fn clash_error() -> (error: VideoError) {
        refuse(
            VideoErrorCode::DuplicateId,
            "deterministic split gap identifier already exists",
            "gaps.id",
        )
    }
}

// ---------------------------------------------------------------------------------------------
// Captions
// ---------------------------------------------------------------------------------------------
/// Where the cut divides a caption's text.
pub open spec fn cut_caption(cut: SceneCutModel, item: CaptionCueModel) -> Result<int, Fault> {
    caption_division(cut.transcript, item, cut.at.0 as int, cut.source_at.0 as int, true)
}

impl Divisible for CaptionCue {
    open spec fn opening_fault(cut: SceneCutModel, item: CaptionCueModel) -> Option<Fault> {
        or_else(
            crossing_fault(item.range, cut.scene, VideoErrorCode::InvalidCaption, "captions.range"@),
            if straddles(cut, item.range) {
                match cut_caption(cut, item) {
                    Ok(_) => range_fault(item.range.start(), cut.at.0 as int),
                    Err(refused) => Some(refused),
                }
            } else {
                None
            },
        )
    }

    open spec fn closing_fault(cut: SceneCutModel, item: CaptionCueModel) -> Option<Fault> {
        let pieces = CaptionCue::pieces(cut, item);
        or_else(
            range_fault(cut.at.0 as int, item.range.end()),
            or_else(CaptionCue::fault_of(pieces.0), CaptionCue::fault_of(pieces.1->0)),
        )
    }

    open spec fn pieces(cut: SceneCutModel, item: CaptionCueModel) -> (
        CaptionCueModel,
        Option<CaptionCueModel>,
    ) {
        let place = cut_caption(cut, item)->Ok_0;
        if straddles(cut, item.range) {
            (
                CaptionCueModel {
                    range: TimeRange { start_us: item.range.start_us, end_us: cut.at },
                    text: item.text.take(place),
                    ..item
                },
                Some(
                    CaptionCueModel {
                        id: split_id("caption"@, item.id, cut.at.0 as int),
                        range: TimeRange { start_us: cut.at, end_us: item.range.end_us },
                        text: item.text.skip(place),
                        scene_id: right_scene(cut, item.scene_id),
                        ..item
                    },
                ),
            )
        } else if follows(cut, item.range) {
            (CaptionCueModel { scene_id: right_scene(cut, item.scene_id), ..item }, None)
        } else {
            (item, None)
        }
    }

    open spec fn clash() -> Fault {
        fault_at(
            VideoErrorCode::DuplicateId,
            "deterministic split caption identifier already exists"@,
            "captions.id"@,
        )
    }

    fn divide(&self, cut: &SceneCut, taken: &mut StringHashSet) -> (result: VideoResult<(Self, Option<Self>)>) {
        ensure_span_does_not_cross_scene_boundary(
            self.range,
            cut.scene,
            VideoErrorCode::InvalidCaption,
            "captions.range",
        )?;
        if !cut.scene.contains_range(self.range) || self.range.end_us.0 <= cut.at.0 {
            return Ok((self.duplicate(), None));
        }
        if self.range.start_us.0 >= cut.at.0 {
            let moved = CaptionCue {
                scene_id: cut.right_scene_of(&self.scene_id),
                ..self.duplicate()
            };
            return Ok((moved, None));
        }
        let place: usize = caption_split_index(&cut.transcript, self, cut.at, cut.source_at, true)?;
        let left_range: TimeRange = TimeRange::new(self.range.start_us.0, cut.at.0)?;
        let id: String = deterministic_split_id("caption", self.id.as_str(), cut.at);
        if !taken.insert(id.clone()) {
            return Err(Self::clash_error());
        }
        let right_range: TimeRange = TimeRange::new(cut.at.0, self.range.end_us.0)?;
        let text: Vec<char> = chars_of(self.text.as_str());
        let left_text: String = text_of(&text, 0, place);
        let right_text: String = text_of(&text, place, text.len());
        assert(left_text@ =~= self.text@.take(place as int));
        assert(right_text@ =~= self.text@.skip(place as int));
        let left = CaptionCue { range: left_range, text: left_text, ..self.duplicate() };
        let right = CaptionCue {
            id,
            range: right_range,
            text: right_text,
            scene_id: cut.right_scene_of(&self.scene_id),
            ..self.duplicate()
        };
        left.validate()?;
        right.validate()?;
        Ok((left, Some(right)))
    }

    fn clash_error() -> (error: VideoError) {
        refuse(
            VideoErrorCode::DuplicateId,
            "deterministic split caption identifier already exists",
            "captions.id",
        )
    }
}

// ---------------------------------------------------------------------------------------------
// Tracks, layers and what depends on a scene
// ---------------------------------------------------------------------------------------------
/// The identifiers of the clips on the tracks from a place on.
pub open spec fn clip_ids_from(tracks: Seq<TimelineTrackModel>, index: int) -> Set<Seq<char>>
    decreases tracks.len() - index,
{
    if index < 0 || index >= tracks.len() {
        Set::empty()
    } else {
        names::<TimelineClip>(tracks[index].clips).to_set().union(clip_ids_from(tracks, index + 1))
    }
}

pub open spec fn tracks_divide_fault_from(
    cut: SceneCutModel,
    tracks: Seq<TimelineTrackModel>,
    index: int,
    taken: Set<Seq<char>>,
) -> Option<Fault>
    decreases tracks.len() - index,
{
    if index < 0 || index >= tracks.len() {
        None
    } else {
        or_else(
            divide_fault_from::<TimelineClip>(cut, tracks[index].clips, 0, taken),
            tracks_divide_fault_from(
                cut,
                tracks,
                index + 1,
                taken_after::<TimelineClip>(cut, tracks[index].clips, 0, taken),
            ),
        )
    }
}

/// A track with its clips divided.
pub open spec fn divided_track(cut: SceneCutModel, track: TimelineTrackModel) -> TimelineTrackModel {
    TimelineTrackModel { clips: divided_from::<TimelineClip>(cut, track.clips, 0), ..track }
}

pub open spec fn divided_tracks(cut: SceneCutModel, tracks: Seq<TimelineTrackModel>) -> Seq<TimelineTrackModel> {
    Seq::new(tracks.len(), |i: int| divided_track(cut, tracks[i]))
}

/// The identifiers in a list, as a set.
pub fn taken_ids(ids: &Vec<String>) -> (set: StringHashSet)
    ensures
        set@ == ids.deep_view().to_set(),
{
    let set: StringHashSet = id_set(ids);
    assert(set@ =~= ids.deep_view().to_set());
    set
}

fn all_clip_ids(tracks: &Vec<TimelineTrack>) -> (set: StringHashSet)
    ensures
        set@ == clip_ids_from(tracks.deep_view(), 0),
{
    let ghost model = tracks.deep_view();
    let mut set: StringHashSet = StringHashSet::new();
    let mut index: usize = tracks.len();
    assert(set@ =~= clip_ids_from(model, index as int));
    while index > 0
        invariant
            index <= tracks.len(),
            model == tracks.deep_view(),
            set@ == clip_ids_from(model, index as int),
        decreases index,
    {
        index -= 1;
        let clips: &Vec<TimelineClip> = &tracks[index].clips;
        let ghost ids = names::<TimelineClip>(clips.deep_view());
        assert(model[index as int].clips == clips.deep_view());
        let ghost rest = set@;
        let mut clip: usize = 0;
        while clip < clips.len()
            invariant
                clip <= clips.len(),
                ids == names::<TimelineClip>(clips.deep_view()),
                set@ == ids.take(clip as int).to_set().union(rest),
            decreases clips.len() - clip,
        {
            assert(ids[clip as int] == clips[clip as int].id@);
            set.insert(clips[clip].id.clone());
            clip += 1;
            assert(ids.take(clip as int) =~= ids.take(clip - 1).push(ids[clip - 1]));
            proof {
                ids.take(clip - 1).lemma_push_to_set_commute(ids[clip - 1]);
            }
            assert(set@ =~= ids.take(clip as int).to_set().union(rest));
        }
        assert(ids.take(clips.len() as int) =~= ids);
    }
    set
}

fn divide_tracks(tracks: &Vec<TimelineTrack>, cut: &SceneCut) -> (result: VideoResult<Vec<TimelineTrack>>)
    requires
        cut.scene.valid(),
    ensures
        refusal(result) == tracks_divide_fault_from(
            cut.deep_view(),
            tracks.deep_view(),
            0,
            clip_ids_from(tracks.deep_view(), 0),
        ),
        result matches Ok(divided) ==> divided.deep_view() == divided_tracks(
            cut.deep_view(),
            tracks.deep_view(),
        ),
{
    let ghost model = tracks.deep_view();
    let ghost c = cut.deep_view();
    let mut taken: StringHashSet = all_clip_ids(tracks);
    let mut divided: Vec<TimelineTrack> = Vec::new();
    let mut index: usize = 0;
    while index < tracks.len()
        invariant
            index <= tracks.len(),
            cut.scene.valid(),
            model == tracks.deep_view(),
            c == cut.deep_view(),
            divided.len() == index,
            forall|i: int| 0 <= i < index ==> (#[trigger] divided[i]).deep_view() == divided_track(c, model[i]),
            tracks_divide_fault_from(c, model, index as int, taken@) == tracks_divide_fault_from(
                c,
                model,
                0,
                clip_ids_from(model, 0),
            ),
        decreases tracks.len() - index,
    {
        let track: &TimelineTrack = &tracks[index];
        assert(model[index as int] == track.deep_view());
        let clips: Vec<TimelineClip> = divide_all(&track.clips, cut, &mut taken)?;
        divided.push(
            TimelineTrack {
                id: track.id.clone(),
                kind: track.kind,
                clips,
                preserve_gaps: track.preserve_gaps,
            },
        );
        index += 1;
    }
    assert(divided.deep_view() =~= divided_tracks(c, model));
    Ok(divided)
}

/// Whether a take or a rendered file belongs to a scene.
pub open spec fn has_dependents(m: VideoProjectManifestModel, scene_id: Seq<char>) -> bool {
    ||| exists|i: int|
        0 <= i < m.narration_bindings.len() && (#[trigger] m.narration_bindings[i]).scene_id == Some(scene_id)
    ||| exists|i: int|
        0 <= i < m.render_artifacts.len() && (#[trigger] m.render_artifacts[i]).scene_id == Some(scene_id)
}

pub fn scene_has_dependents(manifest: &VideoProjectManifest, scene_id: &str) -> (result: bool)
    ensures
        result == has_dependents(manifest.deep_view(), scene_id@),
{
    let ghost model = manifest.deep_view();
    let mut index: usize = 0;
    while index < manifest.narration_bindings.len()
        invariant
            index <= manifest.narration_bindings.len(),
            model == manifest.deep_view(),
            forall|i: int|
                0 <= i < index ==> (#[trigger] model.narration_bindings[i]).scene_id != Some(scene_id@),
        decreases manifest.narration_bindings.len() - index,
    {
        assert(model.narration_bindings[index as int] == manifest.narration_bindings[index as int].deep_view());
        if is_text(&manifest.narration_bindings[index].scene_id, scene_id) {
            return true;
        }
        index += 1;
    }
    let mut artifact: usize = 0;
    while artifact < manifest.render_artifacts.len()
        invariant
            artifact <= manifest.render_artifacts.len(),
            model == manifest.deep_view(),
            forall|i: int|
                0 <= i < model.narration_bindings.len() ==> (#[trigger] model.narration_bindings[i]).scene_id
                    != Some(scene_id@),
            forall|i: int|
                0 <= i < artifact ==> (#[trigger] model.render_artifacts[i]).scene_id != Some(scene_id@),
        decreases manifest.render_artifacts.len() - artifact,
    {
        assert(model.render_artifacts[artifact as int] == manifest.render_artifacts[artifact as int].deep_view());
        if is_text(&manifest.render_artifacts[artifact].scene_id, scene_id) {
            return true;
        }
        artifact += 1;
    }
    false
}

/// The refusal of a visual layer that the split would change the motion of.
pub open spec fn layer_fault(layer: VisualLayerModel, scene: TimeRange, at: int) -> Option<Fault> {
    or_else(
        crossing_fault(layer.range, scene, VideoErrorCode::InvalidLayout, "visual_layers.range"@),
        unless(
            !(scene.encloses(layer.range) && layer.range.start() < at < layer.range.end()),
            fault_at(
                VideoErrorCode::InvalidLayout,
                "split the visual layer at the playhead or move it wholly to one side before splitting this scene"@,
                "visual_layers.range"@,
            ),
        ),
    )
}

pub open spec fn layers_fault_from(layers: Seq<VisualLayerModel>, scene: TimeRange, at: int, index: int) -> Option<Fault>
    decreases layers.len() - index,
{
    if index < 0 || index >= layers.len() {
        None
    } else {
        or_else(layer_fault(layers[index], scene, at), layers_fault_from(layers, scene, at, index + 1))
    }
}

fn check_layers(layers: &Vec<VisualLayer>, scene: TimeRange, at: Microseconds) -> (result: VideoResult<()>)
    ensures
        refusal(result) == layers_fault_from(layers.deep_view(), scene, at.0 as int, 0),
{
    let ghost model = layers.deep_view();
    let mut index: usize = 0;
    while index < layers.len()
        invariant
            index <= layers.len(),
            model == layers.deep_view(),
            layers_fault_from(model, scene, at.0 as int, 0) == layers_fault_from(
                model,
                scene,
                at.0 as int,
                index as int,
            ),
        decreases layers.len() - index,
    {
        assert(model[index as int] == layers[index as int].deep_view());
        let range: TimeRange = layers[index].range;
        ensure_span_does_not_cross_scene_boundary(
            range,
            scene,
            VideoErrorCode::InvalidLayout,
            "visual_layers.range",
        )?;
        if scene.contains_range(range) && range.start_us.0 < at.0 && range.end_us.0 > at.0 {
            return Err(
                refuse(
                    VideoErrorCode::InvalidLayout,
                    "split the visual layer at the playhead or move it wholly to one side before splitting this scene",
                    "visual_layers.range",
                ),
            );
        }
        index += 1;
    }
    Ok(())
}

/// A visual layer after the split: one that starts after the cut goes with the right scene.
pub open spec fn split_layer(cut: SceneCutModel, layer: VisualLayerModel) -> VisualLayerModel {
    if layer.range.start() >= cut.at.0 {
        VisualLayerModel { scene_id: right_scene(cut, layer.scene_id), ..layer }
    } else {
        layer
    }
}

pub open spec fn split_layers(cut: SceneCutModel, layers: Seq<VisualLayerModel>) -> Seq<VisualLayerModel> {
    Seq::new(layers.len(), |i: int| split_layer(cut, layers[i]))
}

fn split_visual_layers(layers: &Vec<VisualLayer>, cut: &SceneCut) -> (result: Vec<VisualLayer>)
    ensures
        result.deep_view() == split_layers(cut.deep_view(), layers.deep_view()),
{
    let ghost c = cut.deep_view();
    let mut result: Vec<VisualLayer> = Vec::new();
    let mut index: usize = 0;
    while index < layers.len()
        invariant
            index <= layers.len(),
            c == cut.deep_view(),
            result.len() == index,
            forall|i: int|
                0 <= i < index ==> (#[trigger] result[i]).deep_view() == split_layer(c, layers[i].deep_view()),
        decreases layers.len() - index,
    {
        let layer: &VisualLayer = &layers[index];
        if layer.range.start_us.0 >= cut.at.0 {
            result.push(
                VisualLayer { scene_id: cut.right_scene_of(&layer.scene_id), ..layer.duplicate() },
            );
        } else {
            result.push(layer.duplicate());
        }
        index += 1;
    }
    assert(result.deep_view() =~= split_layers(c, layers.deep_view()));
    result
}

// ---------------------------------------------------------------------------------------------
// The scene itself
// ---------------------------------------------------------------------------------------------
/// The cut that a split makes through a scene.
pub open spec fn scene_cut(m: VideoProjectManifestModel, scene: ReviewedSceneModel, at: Microseconds) -> SceneCutModel {
    SceneCutModel {
        scene: scene.span(),
        at,
        source_at: Microseconds(
            source_instant(source_anchor(m, scene)->0, at.0 as int, QuantizeMode::Floor) as i64,
        ),
        scene_id: scene.id,
        right_id: split_id("scene"@, scene.id, at.0 as int),
        transcript: m.transcript,
    }
}

/// The rules on the timeline lengths of the halves.
pub open spec fn halves_fault(scene: TimeRange, at: int) -> Option<Fault> {
    or_else(
        unless(on_clock(at - scene.start()), edit_overflow()),
        or_else(
            unless(on_clock(scene.end() - at), edit_overflow()),
            unless(
                at - scene.start() >= MIN_TIMELINE_SCENE_DURATION_US && scene.end() - at
                    >= MIN_TIMELINE_SCENE_DURATION_US,
                fault_at(
                    VideoErrorCode::InvalidScene,
                    "both split scenes must be at least "@ + decimal(MIN_TIMELINE_SCENE_DURATION_US as nat)
                        + " microseconds"@,
                    "operations.at_timeline_us"@,
                ),
            ),
        ),
    )
}

/// The rules on the source lengths of the halves.
pub open spec fn source_halves_fault(source: TimeRange, at: int) -> Option<Fault> {
    or_else(
        unless(on_clock(at - source.start()), edit_overflow()),
        or_else(
            unless(on_clock(source.end() - at), edit_overflow()),
            unless(
                at - source.start() >= MIN_TIMELINE_SCENE_DURATION_US && source.end() - at
                    >= MIN_TIMELINE_SCENE_DURATION_US,
                fault_at(
                    VideoErrorCode::InvalidScene,
                    "both split source ranges must be at least "@ + decimal(
                        MIN_TIMELINE_SCENE_DURATION_US as nat,
                    ) + " microseconds"@,
                    "operations.at_timeline_us"@,
                ),
            ),
        ),
    )
}

/// The rules on a split that concern the scene and what belongs to it.
pub open spec fn split_scene_fault(m: VideoProjectManifestModel, scene: ReviewedSceneModel, at: Microseconds) -> Option<
    Fault,
> {
    let cut = scene_cut(m, scene, at);
    let source = scene.source_range->0;
    or_else(
        scene.span_refusal(),
        or_else(
            halves_fault(scene.span(), at.0 as int),
            or_else(
                anchor_fault(m, scene),
                or_else(
                    unless(
                        !has_dependents(m, scene.id),
                        fault_at(
                            VideoErrorCode::InvalidScene,
                            "rendered or narrated scenes must be regenerated before they can be split safely"@,
                            "reviewed_scenes"@,
                        ),
                    ),
                    or_else(
                        layers_fault_from(m.visual_layers, scene.span(), at.0 as int, 0),
                        or_else(
                            exact_source_fault(source_anchor(m, scene)->0, at.0 as int),
                            or_else(
                                source_halves_fault(source, cut.source_at.0 as int),
                                or_else(
                                    unless(
                                        scene.revision < u32::MAX,
                                        fault_at(
                                            VideoErrorCode::ArithmeticOverflow,
                                            "scene revision overflowed during split"@,
                                            "reviewed_scenes.revision"@,
                                        ),
                                    ),
                                    or_else(
                                        unless(
                                            !holds::<ReviewedScene>(m.reviewed_scenes, cut.right_id),
                                            fault_at(
                                                VideoErrorCode::DuplicateId,
                                                "deterministic split scene identifier already exists"@,
                                                "reviewed_scenes.id"@,
                                            ),
                                        ),
                                        or_else(
                                            range_fault(source.start(), cut.source_at.0 as int),
                                            range_fault(cut.source_at.0 as int, source.end()),
                                        ),
                                    ),
                                ),
                            ),
                        ),
                    ),
                ),
            ),
        ),
    )
}

/// The rules on a split that concern the items of the timeline.
pub open spec fn split_items_fault(m: VideoProjectManifestModel, cut: SceneCutModel) -> Option<Fault> {
    or_else(
        divide_fault_from::<LayoutElement>(
            cut,
            m.layout.elements,
            0,
            names::<LayoutElement>(m.layout.elements).to_set(),
        ),
        or_else(
            tracks_divide_fault_from(cut, m.tracks, 0, clip_ids_from(m.tracks, 0)),
            or_else(
                divide_fault_from::<TimelineGap>(cut, m.gaps, 0, names::<TimelineGap>(m.gaps).to_set()),
                divide_fault_from::<CaptionCue>(
                    cut,
                    m.captions,
                    0,
                    names::<CaptionCue>(m.captions).to_set(),
                ),
            ),
        ),
    )
}

/// Why a scene cannot be split at an instant.
pub open spec fn split_fault(m: VideoProjectManifestModel, scene_id: Seq<char>, at: Microseconds) -> Option<Fault> {
    match scene_place(m, scene_id) {
        Some(place) => {
            let scene = m.reviewed_scenes[place];
            or_else(split_scene_fault(m, scene, at), split_items_fault(m, scene_cut(m, scene, at)))
        },
        None => Some(missing_scene_fault(scene_id)),
    }
}

/// The scene before the cut.
pub open spec fn left_half(scene: ReviewedSceneModel, cut: SceneCutModel) -> ReviewedSceneModel {
    ReviewedSceneModel {
        source_range: Some(TimeRange { start_us: scene.source_range->0.start_us, end_us: cut.source_at }),
        timeline_duration_us: Microseconds((cut.at.0 - scene.timeline_start_us.0) as i64),
        revision: (scene.revision + 1) as u32,
        ..scene
    }
}

/// The scene after the cut.
pub open spec fn right_half(scene: ReviewedSceneModel, cut: SceneCutModel) -> ReviewedSceneModel {
    ReviewedSceneModel {
        id: cut.right_id,
        source_range: Some(TimeRange { start_us: cut.source_at, end_us: scene.source_range->0.end_us }),
        timeline_start_us: cut.at,
        timeline_duration_us: Microseconds((scene.span().end() - cut.at.0) as i64),
        revision: (scene.revision + 1) as u32,
        ..scene
    }
}

/// The project after the scene at a place has been cut.
pub open spec fn split_at(m: VideoProjectManifestModel, place: int, cut: SceneCutModel) -> VideoProjectManifestModel {
    let scene = m.reviewed_scenes[place];
    VideoProjectManifestModel {
        reviewed_scenes: m.reviewed_scenes.take(place) + seq![left_half(scene, cut), right_half(scene, cut)]
            + m.reviewed_scenes.skip(place + 1),
        layout: LayoutPlanModel {
            elements: divided_from::<LayoutElement>(cut, m.layout.elements, 0),
            ..m.layout
        },
        tracks: divided_tracks(cut, m.tracks),
        gaps: divided_from::<TimelineGap>(cut, m.gaps, 0),
        captions: divided_from::<CaptionCue>(cut, m.captions, 0),
        visual_layers: split_layers(cut, m.visual_layers),
        ..m
    }
}

/// The project after a split.
pub open spec fn split_result(m: VideoProjectManifestModel, scene_id: Seq<char>, at: Microseconds) -> VideoProjectManifestModel {
    let place = scene_place(m, scene_id)->0;
    split_at(m, place, scene_cut(m, m.reviewed_scenes[place], at))
}

fn minimum_message(what: &str) -> (message: String)
    ensures
        message@ == what@ + decimal(MIN_TIMELINE_SCENE_DURATION_US as nat) + " microseconds"@,
{
    let minimum: String = decimal_text(MIN_TIMELINE_SCENE_DURATION_US as u64);
    text_concat3(what, minimum.as_str(), " microseconds")
}

fn check_halves(scene: TimeRange, at: Microseconds) -> (result: VideoResult<()>)
    ensures
        refusal(result) == halves_fault(scene, at.0 as int),
{
    let left: i64 = checked_difference(at.0, scene.start_us.0)?;
    let right: i64 = checked_difference(scene.end_us.0, at.0)?;
    if left < MIN_TIMELINE_SCENE_DURATION_US || right < MIN_TIMELINE_SCENE_DURATION_US {
        let message: String = minimum_message("both split scenes must be at least ");
        return Err(
            refuse(VideoErrorCode::InvalidScene, message.as_str(), "operations.at_timeline_us"),
        );
    }
    Ok(())
}

fn check_source_halves(source: TimeRange, at: Microseconds) -> (result: VideoResult<()>)
    ensures
        refusal(result) == source_halves_fault(source, at.0 as int),
{
    let left: i64 = checked_difference(at.0, source.start_us.0)?;
    let right: i64 = checked_difference(source.end_us.0, at.0)?;
    if left < MIN_TIMELINE_SCENE_DURATION_US || right < MIN_TIMELINE_SCENE_DURATION_US {
        let message: String = minimum_message("both split source ranges must be at least ");
        return Err(
            refuse(VideoErrorCode::InvalidScene, message.as_str(), "operations.at_timeline_us"),
        );
    }
    Ok(())
}

/// Cuts a scene of the project, if the rules on the scene let it be cut.
fn cut_scene(manifest: &VideoProjectManifest, scene: &ReviewedScene, at: Microseconds) -> (result: VideoResult<SceneCut>)
    ensures
        refusal(result) == split_scene_fault(manifest.deep_view(), scene.deep_view(), at),
        result matches Ok(cut) ==> cut.deep_view() == scene_cut(manifest.deep_view(), scene.deep_view(), at),
{
    let span: TimeRange = scene_timeline_range(scene)?;
    check_halves(span, at)?;
    let anchor: TimelineClip = find_source_anchor(manifest, scene)?;
    if scene_has_dependents(manifest, scene.id.as_str()) {
        return Err(
            refuse(
                VideoErrorCode::InvalidScene,
                "rendered or narrated scenes must be regenerated before they can be split safely",
                "reviewed_scenes",
            ),
        );
    }
    check_layers(&manifest.visual_layers, span, at)?;
    let source_at: Microseconds = map_timeline_endpoint_to_source_exact(&anchor, at)?;
    match scene.source_range {
        Some(source) => {
            check_source_halves(source, source_at)?;
            if scene.revision == u32::MAX {
                return Err(
                    refuse(
                        VideoErrorCode::ArithmeticOverflow,
                        "scene revision overflowed during split",
                        "reviewed_scenes.revision",
                    ),
                );
            }
            let right_id: String = deterministic_split_id("scene", scene.id.as_str(), at);
            if has_name(&manifest.reviewed_scenes, right_id.as_str()) {
                return Err(
                    refuse(
                        VideoErrorCode::DuplicateId,
                        "deterministic split scene identifier already exists",
                        "reviewed_scenes.id",
                    ),
                );
            }
            let left_source: TimeRange = TimeRange::new(source.start_us.0, source_at.0)?;
            let right_source: TimeRange = TimeRange::new(source_at.0, source.end_us.0)?;
            Ok(
                SceneCut {
                    scene: span,
                    at,
                    source_at,
                    scene_id: scene.id.clone(),
                    right_id,
                    transcript: manifest.transcript.duplicate(),
                },
            )
        },
        None => {
            assert(false);
            Err(arithmetic_overflow())
        },
    }
}

/// The scenes of the project with one of them cut in two.
fn split_scenes(scenes: &Vec<ReviewedScene>, place: usize, cut: &SceneCut) -> (result: Vec<ReviewedScene>)
    requires
        place < scenes.len(),
        scenes[place as int].source_range is Some,
        scenes[place as int].revision < u32::MAX,
        cut.at.0 >= scenes[place as int].timeline_start_us.0,
        cut.scene.end() >= cut.at.0,
        on_clock(cut.at.0 - scenes[place as int].timeline_start_us.0),
        on_clock(cut.scene.end() - cut.at.0),
        cut.scene == scenes[place as int].deep_view().span(),
    ensures
        result.deep_view() == scenes.deep_view().take(place as int) + seq![
            left_half(scenes.deep_view()[place as int], cut.deep_view()),
            right_half(scenes.deep_view()[place as int], cut.deep_view()),
        ] + scenes.deep_view().skip(place + 1),
{
    let ghost model = scenes.deep_view();
    let ghost c = cut.deep_view();
    let ghost left_model = left_half(model[place as int], c);
    let ghost right_model = right_half(model[place as int], c);
    let mut result: Vec<ReviewedScene> = Vec::new();
    let mut index: usize = 0;
    while index < place
        invariant
            index <= place < scenes.len(),
            model == scenes.deep_view(),
            result.deep_view() =~= model.take(index as int),
        decreases place - index,
    {
        assert(model[index as int] == scenes[index as int].deep_view());
        let ghost before = result.deep_view();
        result.push(scenes[index].duplicate());
        assert(result.deep_view() =~= before.push(model[index as int]));
        index += 1;
    }
    let scene: &ReviewedScene = &scenes[place];
    assert(model[place as int] == scene.deep_view());
    if let Some(source) = scene.source_range {
        let left = ReviewedScene {
            source_range: Some(TimeRange { start_us: source.start_us, end_us: cut.source_at }),
            timeline_duration_us: Microseconds(cut.at.0 - scene.timeline_start_us.0),
            revision: scene.revision + 1,
            ..scene.duplicate()
        };
        let right = ReviewedScene {
            id: cut.right_id.clone(),
            source_range: Some(TimeRange { start_us: cut.source_at, end_us: source.end_us }),
            timeline_start_us: cut.at,
            timeline_duration_us: Microseconds(cut.scene.end_us.0 - cut.at.0),
            revision: scene.revision + 1,
            ..scene.duplicate()
        };
        let ghost before = result.deep_view();
        assert(left.deep_view() == left_model);
        assert(right.deep_view() == right_model);
        result.push(left);
        result.push(right);
        assert(result.deep_view() =~= before + seq![left_model, right_model]);
    }
    let mut rest: usize = place + 1;
    while rest < scenes.len()
        invariant
            place < rest <= scenes.len(),
            model == scenes.deep_view(),
            result.deep_view() =~= model.take(place as int) + seq![left_model, right_model] + model.subrange(
                place + 1,
                rest as int,
            ),
        decreases scenes.len() - rest,
    {
        assert(model[rest as int] == scenes[rest as int].deep_view());
        let ghost before = result.deep_view();
        result.push(scenes[rest].duplicate());
        assert(result.deep_view() =~= before.push(model[rest as int]));
        rest += 1;
    }
    assert(model.subrange(place + 1, scenes.len() as int) =~= model.skip(place + 1));
    result
}

/// Splits a scene at an instant of the timeline. The scene, its clips, gaps, captions and layout
/// elements are divided at the exact source instant, and what follows the cut goes with the new
/// scene.
pub fn split_scene(manifest: &VideoProjectManifest, scene_id: &str, split_timeline_us: Microseconds) -> (result: VideoResult<
    VideoProjectManifest,
>)
    ensures
        refusal(result) == split_fault(manifest.deep_view(), scene_id@, split_timeline_us),
        result matches Ok(edited) ==> edited.deep_view() == split_result(
            manifest.deep_view(),
            scene_id@,
            split_timeline_us,
        ),
{
    let ghost m = manifest.deep_view();
    let place: usize = find_scene_index(manifest, scene_id)?;
    let scene: &ReviewedScene = &manifest.reviewed_scenes[place];
    assert(m.reviewed_scenes[place as int] == scene.deep_view());
    let cut: SceneCut = cut_scene(manifest, scene, split_timeline_us)?;
    let mut layout_ids: StringHashSet = taken_ids(&collect_names(&manifest.layout.elements));
    let elements: Vec<LayoutElement> = divide_all(&manifest.layout.elements, &cut, &mut layout_ids)?;
    let tracks: Vec<TimelineTrack> = divide_tracks(&manifest.tracks, &cut)?;
    let mut gap_ids: StringHashSet = taken_ids(&collect_names(&manifest.gaps));
    let gaps: Vec<TimelineGap> = divide_all(&manifest.gaps, &cut, &mut gap_ids)?;
    let mut caption_ids: StringHashSet = taken_ids(&collect_names(&manifest.captions));
    let captions: Vec<CaptionCue> = divide_all(&manifest.captions, &cut, &mut caption_ids)?;
    let reviewed_scenes: Vec<ReviewedScene> = split_scenes(&manifest.reviewed_scenes, place, &cut);
    let visual_layers: Vec<VisualLayer> = split_visual_layers(&manifest.visual_layers, &cut);
    let layout = LayoutPlan { elements, ..manifest.layout.duplicate() };
    Ok(
        VideoProjectManifest {
            reviewed_scenes,
            layout,
            tracks,
            gaps,
            captions,
            visual_layers,
            ..manifest.duplicate()
        },
    )
}

/// The two halves of a clip play what it played, exactly and in its time: the first ends where the
/// second begins, on the source and on the timeline.
pub proof fn halves_play_the_whole_clip(cut: SceneCutModel, clip: TimelineClipModel)
    requires
        division_fault::<TimelineClip>(cut, clip) is None,
        straddles(cut, clip.span()),
    ensures
        ({
            let (left, right) = TimelineClip::pieces(cut, clip);
            &&& right is Some
            &&& left.source_range.start_us == clip.source_range.start_us
            &&& left.source_range.end_us == right->0.source_range.start_us
            &&& right->0.source_range.end_us == clip.source_range.end_us
            &&& left.source_range.length() > 0
            &&& right->0.source_range.length() > 0
            &&& left.timeline_start_us == clip.timeline_start_us
            &&& left.span().end() == cut.at.0
            &&& right->0.span().start() == cut.at.0
            &&& right->0.span().end() == clip.span().end()
        }),
{
}

/// The halves of a divided clip are the clip but for where they stand and what they play: each is as far into
/// the source as it is into the clip, at the clip's rate, and the half after the cut goes with the scene after it.
pub proof fn halves_of_a_clip_stay_in_step(cut: SceneCutModel, clip: TimelineClipModel)
    requires
        division_fault::<TimelineClip>(cut, clip) is None,
        cut.scene.encloses(clip.span()),
    ensures
        ({
            let (left, right) = TimelineClip::pieces(cut, clip);
            let end = clip.timeline_start_us.0 + clip.timeline_duration_us.0;
            match right {
                Some(right) => {
                    &&& clip.timeline_start_us.0 < cut.at.0 < end
                    &&& (right.source_range.start_us.0 - clip.source_range.start_us.0) * clip.playback_rate.denominator
                        == (cut.at.0 - clip.timeline_start_us.0) * clip.playback_rate.numerator
                    &&& left.timeline_duration_us.0 + right.timeline_duration_us.0 == clip.timeline_duration_us.0
                    &&& left == TimelineClipModel {
                        source_range: left.source_range,
                        timeline_duration_us: left.timeline_duration_us,
                        ..clip
                    }
                    &&& right == TimelineClipModel {
                        id: right.id,
                        scene_id: right.scene_id,
                        source_range: right.source_range,
                        timeline_start_us: cut.at,
                        timeline_duration_us: right.timeline_duration_us,
                        ..clip
                    }
                    &&& clip.scene_id == Some(cut.scene_id) ==> right.scene_id == Some(cut.right_id)
                },
                None => {
                    &&& clip.timeline_start_us.0 >= cut.at.0 || end <= cut.at.0
                    &&& left == TimelineClipModel { scene_id: left.scene_id, ..clip }
                    &&& clip.scene_id == Some(cut.scene_id) ==> left.scene_id == Some(
                        if clip.timeline_start_us.0 >= cut.at.0 {
                            cut.right_id
                        } else {
                            cut.scene_id
                        },
                    )
                    &&& clip.scene_id != Some(cut.scene_id) ==> left == clip
                },
            }
        }),
{
    if straddles(cut, clip.span()) {
        an_exact_cut_rounds_nothing(clip, cut.at.0 as int);
    }
}

/// The halves of a divided gap fill the gap, and the source silence that they stand for is divided as far in as
/// the gap is.
pub proof fn halves_of_a_gap_stay_in_step(cut: SceneCutModel, gap: TimelineGapModel)
    requires
        division_fault::<TimelineGap>(cut, gap) is None,
        cut.scene.encloses(gap.range),
    ensures
        ({
            let (left, right) = TimelineGap::pieces(cut, gap);
            match right {
                Some(right) => {
                    &&& gap.range.start_us.0 < cut.at.0 < gap.range.end_us.0
                    &&& left.range == (TimeRange { start_us: gap.range.start_us, end_us: cut.at })
                    &&& right.range == (TimeRange { start_us: cut.at, end_us: gap.range.end_us })
                    &&& left.source_range is Some <==> gap.source_range is Some
                    &&& right.source_range is Some <==> gap.source_range is Some
                    &&& gap.source_range matches Some(source) ==> {
                        &&& left.source_range->0.start_us == source.start_us
                        &&& left.source_range->0.end_us.0 - source.start_us.0 == cut.at.0 - gap.range.start_us.0
                        &&& right.source_range->0.start_us == left.source_range->0.end_us
                        &&& right.source_range->0.end_us == source.end_us
                    }
                    &&& left == TimelineGapModel { range: left.range, source_range: left.source_range, ..gap }
                    &&& right == TimelineGapModel {
                        id: right.id,
                        range: right.range,
                        source_range: right.source_range,
                        ..gap
                    }
                },
                None => left == gap && (gap.range.start_us.0 >= cut.at.0 || gap.range.end_us.0 <= cut.at.0),
            }
        }),
{
}

/// The halves of a divided caption say what it said, in its time, and both say something. What is after the cut
/// goes with the scene after it.
pub proof fn halves_of_a_caption_say_it_all(cut: SceneCutModel, caption: CaptionCueModel)
    requires
        division_fault::<CaptionCue>(cut, caption) is None,
        cut.scene.encloses(caption.range),
        caption.range.valid(),
    ensures
        ({
            let (left, right) = CaptionCue::pieces(cut, caption);
            match right {
                Some(right) => {
                    &&& left.text + right.text == caption.text
                    &&& !blank(left.text)
                    &&& !blank(right.text)
                    &&& left.range == (TimeRange { start_us: caption.range.start_us, end_us: cut.at })
                    &&& right.range == (TimeRange { start_us: cut.at, end_us: caption.range.end_us })
                    &&& caption.range.start_us.0 < cut.at.0 < caption.range.end_us.0
                    &&& left == CaptionCueModel { range: left.range, text: left.text, ..caption }
                    &&& right == CaptionCueModel {
                        id: right.id,
                        range: right.range,
                        text: right.text,
                        scene_id: right.scene_id,
                        ..caption
                    }
                    &&& caption.scene_id == Some(cut.scene_id) ==> right.scene_id == Some(cut.right_id)
                },
                None => {
                    &&& caption.range.start_us.0 >= cut.at.0 || caption.range.end_us.0 <= cut.at.0
                    &&& left == CaptionCueModel { scene_id: left.scene_id, ..caption }
                    &&& caption.scene_id == Some(cut.scene_id) ==> left.scene_id == Some(
                        if caption.range.start_us.0 >= cut.at.0 {
                            cut.right_id
                        } else {
                            cut.scene_id
                        },
                    )
                },
            }
        }),
{
    if straddles(cut, caption.range) {
        a_caption_is_divided_between_words(cut.transcript, caption, cut.at.0 as int, cut.source_at.0 as int, true);
        let place = cut_caption(cut, caption)->Ok_0;
        assert(caption.text.take(place) + caption.text.skip(place) =~= caption.text);
    }
}

/// A split makes two scenes of one, next to each other in its place, and moves nothing: together they play the
/// scene's source in the scene's time, and where the first ends the second begins, on the timeline and on the
/// source, as far in as the anchor plays. Every other scene, and the length of the timeline, stay as they were.
pub proof fn a_split_makes_two_scenes_of_one(m: VideoProjectManifestModel, scene_id: Seq<char>, at: Microseconds)
    requires
        split_fault(m, scene_id, at) is None,
    ensures
        ({
            let place = scene_place(m, scene_id)->0;
            let scene = m.reviewed_scenes[place];
            let after = split_result(m, scene_id, at);
            let left = after.reviewed_scenes[place];
            let right = after.reviewed_scenes[place + 1];
            let anchor = source_anchor(m, scene)->0;
            &&& 0 <= place < m.reviewed_scenes.len()
            &&& scene.id == scene_id
            &&& after.reviewed_scenes.len() == m.reviewed_scenes.len() + 1
            &&& forall|i: int| 0 <= i < place ==> #[trigger] after.reviewed_scenes[i] == m.reviewed_scenes[i]
            &&& forall|i: int|
                place < i < m.reviewed_scenes.len() ==> after.reviewed_scenes[i + 1] == #[trigger] m.reviewed_scenes[i]
            &&& left.id == scene.id
            &&& right.id != scene.id
            &&& forall|i: int| 0 <= i < m.reviewed_scenes.len() ==> (#[trigger] m.reviewed_scenes[i]).id != right.id
            &&& left.timeline_start_us == scene.timeline_start_us
            &&& left.timeline_start_us.0 + left.timeline_duration_us.0 == at.0
            &&& right.timeline_start_us == at
            &&& left.timeline_duration_us.0 + right.timeline_duration_us.0 == scene.timeline_duration_us.0
            &&& left.timeline_duration_us.0 >= 100_000
            &&& right.timeline_duration_us.0 >= 100_000
            &&& left.source_range is Some && right.source_range is Some && scene.source_range is Some
            &&& left.source_range->0.start_us == scene.source_range->0.start_us
            &&& left.source_range->0.end_us == right.source_range->0.start_us
            &&& right.source_range->0.end_us == scene.source_range->0.end_us
            &&& (left.source_range->0.end_us.0 - scene.source_range->0.start_us.0) * anchor.playback_rate.denominator
                == (at.0 - scene.timeline_start_us.0) * anchor.playback_rate.numerator
            &&& left.revision == scene.revision + 1
            &&& right.revision == scene.revision + 1
            &&& left.script == scene.script && right.script == scene.script
            &&& left.source_asset_id == scene.source_asset_id && right.source_asset_id == scene.source_asset_id
            &&& after.timeline_duration_us == m.timeline_duration_us
            &&& after.tracks.len() == m.tracks.len()
            &&& after.visual_layers.len() == m.visual_layers.len()
        }),
{
    let place = scene_place(m, scene_id)->0;
    let scene = m.reviewed_scenes[place];
    lemma_place_from::<ReviewedScene>(m.reviewed_scenes, scene_id, 0);
    let stand = an_anchor_plays_its_scene(m, scene);
    let anchor = source_anchor(m, scene)->0;
    an_exact_cut_rounds_nothing(anchor, at.0 as int);
    let cut = scene_cut(m, scene, at);
    lemma_place_from::<ReviewedScene>(m.reviewed_scenes, cut.right_id, 0);
    let after = split_result(m, scene_id, at);
    assert(after.reviewed_scenes[place] == left_half(scene, cut));
    assert(after.reviewed_scenes[place + 1] == right_half(scene, cut));
    assert forall|i: int| place < i < m.reviewed_scenes.len() implies after.reviewed_scenes[i + 1]
        == #[trigger] m.reviewed_scenes[i] by {
        assert(m.reviewed_scenes.skip(place + 1)[i - place - 1] == m.reviewed_scenes[i]);
    }
    assert forall|i: int| 0 <= i < m.reviewed_scenes.len() implies (#[trigger] m.reviewed_scenes[i]).id != cut.right_id by {
        assert(ReviewedScene::name_of(m.reviewed_scenes[i]) != cut.right_id);
    }
    assert(m.reviewed_scenes[place].id != cut.right_id);
}

} // verus!
