//! Merging two scenes that a split made: the exact inverse of the split.

use crate::edit_shared::{
    arithmetic_overflow, deterministic_split_id, edit_overflow, find_scene_index, missing_scene_fault, scene_place,
    scene_timeline_range, split_id,
};
use crate::error::{fault_at, or_else, refusal, refuse, unless, Fault, VideoError, VideoErrorCode, VideoResult};
use crate::manifest::{
    CaptionCue, CaptionCueModel, LayoutElement, LayoutElementModel, LayoutPlan, LayoutPlanModel, ReviewedScene,
    ReviewedSceneModel, TimelineClip, TimelineClipModel, TimelineGap, TimelineGapModel, TimelineTrack,
    TimelineTrackModel, VideoProjectManifest, VideoProjectManifestModel, VisualLayer, VisualLayerModel,
};
use crate::manifest_rules::is_text;
use crate::model::{lemma_place_from, find, find_named, Model, Named};
use crate::split::{has_dependents, scene_has_dependents};
use crate::text::{text_concat, text_eq};
use crate::time::{on_clock, range_fault, Microseconds, TimeRange, Validate};
use vstd::hash_set::StringHashSet;
use vstd::prelude::*;

verus! {

pub open spec fn merge_fault_at(message: Seq<char>, field: Seq<char>) -> Fault {
    fault_at(VideoErrorCode::InvalidScene, message, field)
}

fn merge_error(message: &str, field: &str) -> (error: VideoError)
    ensures
        error.deep_view() == merge_fault_at(message@, field@),
{
    refuse(VideoErrorCode::InvalidScene, message, field)
}

/// Two scenes that a split at the boundary between them may have made.
pub struct Siblings {
    pub first: ReviewedScene,
    pub second: ReviewedScene,
    pub boundary: Microseconds,
}

/// What [`Siblings`] hold, as mathematical values.
pub struct SiblingsModel {
    pub first: ReviewedSceneModel,
    pub second: ReviewedSceneModel,
    pub boundary: Microseconds,
}

impl DeepView for Siblings {
    type V = SiblingsModel;

    open spec fn deep_view(&self) -> SiblingsModel {
        SiblingsModel {
            first: self.first.deep_view(),
            second: self.second.deep_view(),
            boundary: self.boundary,
        }
    }
}

impl SiblingsModel {
    /// Whether both scenes have their place on the timeline.
    pub open spec fn placed(self) -> bool {
        self.first.span_refusal() is None && self.second.span_refusal() is None
    }
}

/// The scene of an item after the merge.
pub open spec fn merged_scene_id(pair: SiblingsModel, scene_id: Option<Seq<char>>) -> Option<Seq<char>> {
    if scene_id == Some(pair.second.id) {
        Some(pair.first.id)
    } else {
        scene_id
    }
}

/// Whether two halves belong to the two scenes, or to none.
pub open spec fn owned_in_turn(pair: SiblingsModel, left: Option<Seq<char>>, right: Option<Seq<char>>) -> bool {
    (left == Some(pair.first.id) && right == Some(pair.second.id)) || (left is None && right is None)
}

impl Siblings {
    fn merged_scene_of(&self, scene_id: &Option<String>) -> (result: Option<String>)
        ensures
            result.deep_view() == merged_scene_id(self.deep_view(), scene_id.deep_view()),
    {
        if is_text(scene_id, self.second.id.as_str()) {
            Some(self.first.id.clone())
        } else {
            scene_id.duplicate()
        }
    }

    fn own_in_turn(&self, left: &Option<String>, right: &Option<String>) -> (result: bool)
        ensures
            result == owned_in_turn(self.deep_view(), left.deep_view(), right.deep_view()),
    {
        (is_text(left, self.first.id.as_str()) && is_text(right, self.second.id.as_str())) || (left.is_none()
            && right.is_none())
    }
}

/// Items of a timeline whose halves can be joined again.
pub trait Joinable: Named + Model {
    /// What the derived identifier of a right half starts with.
    spec fn kind() -> Seq<char>;

    /// Why the item cannot be placed.
    spec fn item_fault(item: Self::V) -> Option<Fault>;

    spec fn starts_at(item: Self::V) -> int;

    spec fn ends_at(item: Self::V) -> int;

    /// Why two halves cannot be joined.
    spec fn pair_fault(pair: SiblingsModel, left: Self::V, right: Self::V) -> Option<Fault>;

    spec fn joined(left: Self::V, right: Self::V) -> Self::V;

    /// An item that is no half of another.
    spec fn kept(pair: SiblingsModel, item: Self::V) -> Self::V;

    /// Whether two halves are the clips that tie the scenes to their source.
    spec fn ties(pair: SiblingsModel, left: Self::V, right: Self::V) -> bool;

    fn kind_text() -> (kind: &'static str)
        ensures
            kind@ == Self::kind(),
    ;

    fn start_instant(&self) -> (start: i64)
        ensures
            start == Self::starts_at(self.deep_view()),
    ;

    fn end_instant(&self) -> (result: VideoResult<i64>)
        ensures
            refusal(result) == Self::item_fault(self.deep_view()),
            result matches Ok(end) ==> end == Self::ends_at(self.deep_view()),
    ;

    fn join(&self, right: &Self, pair: &Siblings) -> (result: VideoResult<Self>)
        requires
            pair.deep_view().placed(),
            Self::item_fault(self.deep_view()) is None,
        ensures
            refusal(result) == Self::pair_fault(pair.deep_view(), self.deep_view(), right.deep_view()),
            result matches Ok(whole) ==> whole.deep_view() == Self::joined(
                self.deep_view(),
                right.deep_view(),
            ),
    ;

    fn keep(&self, pair: &Siblings) -> (item: Self)
        ensures
            item.deep_view() == Self::kept(pair.deep_view(), self.deep_view()),
    ;

    fn tie(&self, right: &Self, pair: &Siblings) -> (result: bool)
        requires
            pair.deep_view().placed(),
            Self::item_fault(self.deep_view()) is None,
            Self::pair_fault(pair.deep_view(), self.deep_view(), right.deep_view()) is None,
        ensures
            result == Self::ties(pair.deep_view(), self.deep_view(), right.deep_view()),
    ;
}

/// The first item from a place on that is the right half of an item and has not been joined yet.
pub open spec fn partner_from<T: Joinable>(
    items: Seq<T::V>,
    id: Seq<char>,
    boundary: int,
    joined: Seq<bool>,
    index: int,
) -> Option<int>
    decreases items.len() - index,
{
    if index < 0 || index >= items.len() {
        None
    } else if !joined[index] && T::name_of(items[index]) == id && T::starts_at(items[index]) == boundary {
        Some(index)
    } else {
        partner_from::<T>(items, id, boundary, joined, index + 1)
    }
}

/// The right half of the item at a place, if the boundary divided it.
pub open spec fn partner<T: Joinable>(
    pair: SiblingsModel,
    items: Seq<T::V>,
    joined: Seq<bool>,
    index: int,
) -> Option<int> {
    if T::ends_at(items[index]) == pair.boundary.0 {
        partner_from::<T>(
            items,
            split_id(T::kind(), T::name_of(items[index]), pair.boundary.0 as int),
            pair.boundary.0 as int,
            joined,
            0,
        )
    } else {
        None
    }
}

/// The items from a place on with their halves joined.
pub open spec fn merged_from<T: Joinable>(
    pair: SiblingsModel,
    items: Seq<T::V>,
    joined: Seq<bool>,
    index: int,
) -> Seq<T::V>
    decreases items.len() - index,
{
    if index < 0 || index >= items.len() {
        Seq::empty()
    } else if joined[index] {
        merged_from::<T>(pair, items, joined, index + 1)
    } else {
        match partner::<T>(pair, items, joined, index) {
            Some(right) => seq![T::joined(items[index], items[right])] + merged_from::<T>(
                pair,
                items,
                joined.update(right, true),
                index + 1,
            ),
            None => seq![T::kept(pair, items[index])] + merged_from::<T>(pair, items, joined, index + 1),
        }
    }
}

/// Whether joining the items from a place on joins the clips that tie the scenes to their source.
pub open spec fn ties_from<T: Joinable>(
    pair: SiblingsModel,
    items: Seq<T::V>,
    joined: Seq<bool>,
    index: int,
) -> bool
    decreases items.len() - index,
{
    if index < 0 || index >= items.len() {
        false
    } else if joined[index] {
        ties_from::<T>(pair, items, joined, index + 1)
    } else {
        match partner::<T>(pair, items, joined, index) {
            Some(right) => T::ties(pair, items[index], items[right]) || ties_from::<T>(
                pair,
                items,
                joined.update(right, true),
                index + 1,
            ),
            None => ties_from::<T>(pair, items, joined, index + 1),
        }
    }
}

/// The first refusal met in joining the items from a place on.
pub open spec fn join_fault_from<T: Joinable>(
    pair: SiblingsModel,
    items: Seq<T::V>,
    joined: Seq<bool>,
    index: int,
) -> Option<Fault>
    decreases items.len() - index,
{
    if index < 0 || index >= items.len() {
        None
    } else if joined[index] {
        join_fault_from::<T>(pair, items, joined, index + 1)
    } else {
        or_else(
            T::item_fault(items[index]),
            match partner::<T>(pair, items, joined, index) {
                Some(right) => or_else(
                    T::pair_fault(pair, items[index], items[right]),
                    join_fault_from::<T>(pair, items, joined.update(right, true), index + 1),
                ),
                None => join_fault_from::<T>(pair, items, joined, index + 1),
            },
        )
    }
}

/// No item has been joined yet.
pub open spec fn none_joined(count: nat) -> Seq<bool> {
    Seq::new(count, |i: int| false)
}

fn find_partner<T: Joinable>(items: &Vec<T>, id: &str, boundary: Microseconds, joined: &Vec<bool>) -> (result: Option<
    usize,
>)
    requires
        joined.len() == items.len(),
    ensures
        match result {
            Some(place) => place < items.len() && partner_from::<T>(
                items.deep_view(),
                id@,
                boundary.0 as int,
                joined@,
                0,
            ) == Some(place as int),
            None => partner_from::<T>(items.deep_view(), id@, boundary.0 as int, joined@, 0) is None,
        },
{
    let ghost model = items.deep_view();
    let mut index: usize = 0;
    while index < items.len()
        invariant
            index <= items.len(),
            joined.len() == items.len(),
            model == items.deep_view(),
            partner_from::<T>(model, id@, boundary.0 as int, joined@, 0) == partner_from::<T>(
                model,
                id@,
                boundary.0 as int,
                joined@,
                index as int,
            ),
        decreases items.len() - index,
    {
        assert(model[index as int] == items[index as int].deep_view());
        if !joined[index] && text_eq(items[index].name().as_str(), id) && items[index].start_instant()
            == boundary.0 {
            return Some(index);
        }
        index += 1;
    }
    None
}

/// Joins the halves of every item that the boundary divided.
fn join_all<T: Joinable>(items: &Vec<T>, pair: &Siblings) -> (result: VideoResult<(Vec<T>, bool)>)
    requires
        pair.deep_view().placed(),
    ensures
        refusal(result) == join_fault_from::<T>(
            pair.deep_view(),
            items.deep_view(),
            none_joined(items.deep_view().len()),
            0,
        ),
        result matches Ok(merged) ==> {
            &&& merged.0.deep_view() == merged_from::<T>(
                pair.deep_view(),
                items.deep_view(),
                none_joined(items.deep_view().len()),
                0,
            )
            &&& merged.1 == ties_from::<T>(
                pair.deep_view(),
                items.deep_view(),
                none_joined(items.deep_view().len()),
                0,
            )
        },
{
    let ghost model = items.deep_view();
    let ghost p = pair.deep_view();
    let ghost fresh = none_joined(model.len());
    let mut joined: Vec<bool> = Vec::new();
    while joined.len() < items.len()
        invariant
            joined.len() <= items.len(),
            forall|i: int| 0 <= i < joined.len() ==> !joined[i],
        decreases items.len() - joined.len(),
    {
        joined.push(false);
    }
    assert(joined@ =~= fresh);
    let mut merged: Vec<T> = Vec::new();
    let mut tied: bool = false;
    let mut index: usize = 0;
    assert(merged.deep_view() + merged_from::<T>(p, model, joined@, 0) =~= merged_from::<T>(
        p,
        model,
        fresh,
        0,
    ));
    while index < items.len()
        invariant
            index <= items.len(),
            joined.len() == items.len(),
            model == items.deep_view(),
            p == pair.deep_view(),
            p.placed(),
            fresh == none_joined(items.deep_view().len()),
            merged.deep_view() + merged_from::<T>(p, model, joined@, index as int) == merged_from::<T>(
                p,
                model,
                fresh,
                0,
            ),
            (tied || ties_from::<T>(p, model, joined@, index as int)) == ties_from::<T>(p, model, fresh, 0),
            join_fault_from::<T>(p, model, joined@, index as int) == join_fault_from::<T>(
                p,
                model,
                fresh,
                0,
            ),
        decreases items.len() - index,
    {
        assert(model[index as int] == items[index as int].deep_view());
        if joined[index] {
            index += 1;
            continue;
        }
        let ghost before = merged.deep_view();
        let ghost flags = joined@;
        let item: &T = &items[index];
        let end: i64 = item.end_instant()?;
        let found: Option<usize> = if end == pair.boundary.0 {
            let expected: String = deterministic_split_id(T::kind_text(), item.name().as_str(), pair.boundary);
            find_partner(items, expected.as_str(), pair.boundary, &joined)
        } else {
            None
        };
        match found {
            Some(right) => {
                assert(partner::<T>(p, model, flags, index as int) == Some(right as int));
                assert(model[right as int] == items[right as int].deep_view());
                let whole: T = item.join(&items[right], pair)?;
                let ghost whole_model = whole.deep_view();
                if item.tie(&items[right], pair) {
                    tied = true;
                }
                joined.set(right, true);
                merged.push(whole);
                assert(joined@ == flags.update(right as int, true));
                assert(merged.deep_view() =~= before.push(whole_model));
                let ghost rest = merged_from::<T>(p, model, joined@, index + 1);
                assert(merged.deep_view() + rest =~= before + (seq![whole_model] + rest));
            },
            None => {
                assert(partner::<T>(p, model, flags, index as int) is None);
                let kept: T = item.keep(pair);
                let ghost kept_model = kept.deep_view();
                merged.push(kept);
                assert(merged.deep_view() =~= before.push(kept_model));
                let ghost rest = merged_from::<T>(p, model, joined@, index + 1);
                assert(merged.deep_view() + rest =~= before + (seq![kept_model] + rest));
            },
        }
        index += 1;
    }
    assert(merged.deep_view() =~= merged_from::<T>(p, model, fresh, 0));
    Ok((merged, tied))
}

// ---------------------------------------------------------------------------------------------
// Clips, gaps and captions
// ---------------------------------------------------------------------------------------------
/// Whether two clips play one route of media without a break.
pub open spec fn one_route(left: TimelineClipModel, right: TimelineClipModel) -> bool {
    &&& left.span().end() == right.timeline_start_us.0
    &&& left.source_range.end() == right.source_range.start()
    &&& left.media == right.media
    &&& left.playback_rate == right.playback_rate
    &&& left.gain_db_milli == right.gain_db_milli
    &&& left.muted == right.muted
    &&& left.crop == right.crop
}

/// Whether two clips belong to the two scenes, and the first fills its scene.
pub open spec fn may_tie(pair: SiblingsModel, left: TimelineClipModel, right: TimelineClipModel) -> bool {
    &&& left.scene_id == Some(pair.first.id)
    &&& right.scene_id == Some(pair.second.id)
    &&& left.span() == pair.first.span()
}

impl Joinable for TimelineClip {
    open spec fn kind() -> Seq<char> {
        "clip"@
    }

    open spec fn item_fault(item: TimelineClipModel) -> Option<Fault> {
        item.span_refusal()
    }

    open spec fn starts_at(item: TimelineClipModel) -> int {
        item.timeline_start_us.0 as int
    }

    open spec fn ends_at(item: TimelineClipModel) -> int {
        item.span().end()
    }

    open spec fn pair_fault(pair: SiblingsModel, left: TimelineClipModel, right: TimelineClipModel) -> Option<Fault> {
        or_else(
            unless(
                owned_in_turn(pair, left.scene_id, right.scene_id),
                merge_fault_at(
                    "split clip pair has incompatible scene ownership"@,
                    "tracks.clips.scene_id"@,
                ),
            ),
            or_else(
                unless(
                    one_route(left, right),
                    merge_fault_at(
                        "split clip pair no longer has one contiguous media/playback route"@,
                        "tracks.clips"@,
                    ),
                ),
                or_else(
                    range_fault(left.source_range.start(), right.source_range.end()),
                    or_else(
                        unless(
                            on_clock(left.timeline_duration_us.0 + right.timeline_duration_us.0),
                            edit_overflow(),
                        ),
                        if may_tie(pair, left, right) {
                            right.span_refusal()
                        } else {
                            None
                        },
                    ),
                ),
            ),
        )
    }

    open spec fn joined(left: TimelineClipModel, right: TimelineClipModel) -> TimelineClipModel {
        TimelineClipModel {
            source_range: TimeRange {
                start_us: left.source_range.start_us,
                end_us: right.source_range.end_us,
            },
            timeline_duration_us: Microseconds(
                (left.timeline_duration_us.0 + right.timeline_duration_us.0) as i64,
            ),
            ..left
        }
    }

    open spec fn kept(pair: SiblingsModel, item: TimelineClipModel) -> TimelineClipModel {
        TimelineClipModel { scene_id: merged_scene_id(pair, item.scene_id), ..item }
    }

    open spec fn ties(pair: SiblingsModel, left: TimelineClipModel, right: TimelineClipModel) -> bool {
        &&& may_tie(pair, left, right)
        &&& right.span() == pair.second.span()
        &&& pair.first.source_range == Some(left.source_range)
        &&& pair.second.source_range == Some(right.source_range)
        &&& left.media.source_asset_id == pair.first.source_asset_id
    }

    fn kind_text() -> (kind: &'static str) {
        "clip"
    }

    fn start_instant(&self) -> (start: i64) {
        self.timeline_start_us.0
    }

    fn end_instant(&self) -> (result: VideoResult<i64>) {
        let span: TimeRange = self.timeline_range()?;
        Ok(span.end_us.0)
    }

    fn join(&self, right: &Self, pair: &Siblings) -> (result: VideoResult<Self>) {
        if !pair.own_in_turn(&self.scene_id, &right.scene_id) {
            return Err(
                merge_error(
                    "split clip pair has incompatible scene ownership",
                    "tracks.clips.scene_id",
                ),
            );
        }
        let span: TimeRange = self.timeline_range()?;
        if span.end_us.0 != right.timeline_start_us.0 || self.source_range.end_us.0
            != right.source_range.start_us.0 || !self.media.same(&right.media) || self.playback_rate
            != right.playback_rate || self.gain_db_milli != right.gain_db_milli || self.muted != right.muted
            || !self.crop.same(&right.crop) {
            return Err(
                merge_error(
                    "split clip pair no longer has one contiguous media/playback route",
                    "tracks.clips",
                ),
            );
        }
        let source_range: TimeRange = TimeRange::new(
            self.source_range.start_us.0,
            right.source_range.end_us.0,
        )?;
        let duration: i64 = match self.timeline_duration_us.0.checked_add(right.timeline_duration_us.0) {
            Some(sum) => sum,
            None => {
                return Err(arithmetic_overflow());
            },
        };
        let first_span: TimeRange = scene_timeline_range(&pair.first)?;
        if is_text(&self.scene_id, pair.first.id.as_str()) && is_text(&right.scene_id, pair.second.id.as_str())
            && span == first_span {
            right.timeline_range()?;
        }
        Ok(
            TimelineClip {
                source_range,
                timeline_duration_us: Microseconds(duration),
                ..self.duplicate()
            },
        )
    }

    fn keep(&self, pair: &Siblings) -> (item: Self) {
        TimelineClip { scene_id: pair.merged_scene_of(&self.scene_id), ..self.duplicate() }
    }

    fn tie(&self, right: &Self, pair: &Siblings) -> (result: bool) {
        let spans: bool = match (
            self.timeline_range(),
            right.timeline_range(),
            scene_timeline_range(&pair.first),
            scene_timeline_range(&pair.second),
        ) {
            (Ok(left_span), Ok(right_span), Ok(first_span), Ok(second_span)) => left_span == first_span
                && right_span == second_span,
            _ => false,
        };
        let sources: bool = match (pair.first.source_range, pair.second.source_range) {
            (Some(first), Some(second)) => self.source_range == first && right.source_range == second,
            _ => false,
        };
        is_text(&self.scene_id, pair.first.id.as_str()) && is_text(&right.scene_id, pair.second.id.as_str())
            && spans && sources && self.media.source_asset_id.same(&pair.first.source_asset_id)
    }
}

/// The source silence of two joined gaps.
pub open spec fn joined_source(left: Option<TimeRange>, right: Option<TimeRange>) -> Option<TimeRange> {
    match (left, right) {
        (Some(left), Some(right)) => Some(TimeRange { start_us: left.start_us, end_us: right.end_us }),
        _ => None,
    }
}

impl Joinable for TimelineGap {
    open spec fn kind() -> Seq<char> {
        "gap"@
    }

    open spec fn item_fault(item: TimelineGapModel) -> Option<Fault> {
        None
    }

    open spec fn starts_at(item: TimelineGapModel) -> int {
        item.range.start()
    }

    open spec fn ends_at(item: TimelineGapModel) -> int {
        item.range.end()
    }

    open spec fn pair_fault(pair: SiblingsModel, left: TimelineGapModel, right: TimelineGapModel) -> Option<Fault> {
        or_else(
            unless(
                left.track_id == right.track_id && left.reason == right.reason && left.source_asset_id
                    == right.source_asset_id,
                merge_fault_at("split gap pair is no longer compatible"@, "gaps"@),
            ),
            or_else(
                match (left.source_range, right.source_range) {
                    (Some(first), Some(second)) => if first.end() == second.start() {
                        range_fault(first.start(), second.end())
                    } else {
                        Some(
                            merge_fault_at(
                                "split source-clock gap pair is no longer contiguous"@,
                                "gaps.source_range"@,
                            ),
                        )
                    },
                    (None, None) => None,
                    _ => Some(
                        merge_fault_at(
                            "split source-clock gap pair is no longer contiguous"@,
                            "gaps.source_range"@,
                        ),
                    ),
                },
                range_fault(left.range.start(), right.range.end()),
            ),
        )
    }

    open spec fn joined(left: TimelineGapModel, right: TimelineGapModel) -> TimelineGapModel {
        TimelineGapModel {
            range: TimeRange { start_us: left.range.start_us, end_us: right.range.end_us },
            source_range: joined_source(left.source_range, right.source_range),
            ..left
        }
    }

    open spec fn kept(pair: SiblingsModel, item: TimelineGapModel) -> TimelineGapModel {
        item
    }

    open spec fn ties(pair: SiblingsModel, left: TimelineGapModel, right: TimelineGapModel) -> bool {
        false
    }

    fn kind_text() -> (kind: &'static str) {
        "gap"
    }

    fn start_instant(&self) -> (start: i64) {
        self.range.start_us.0
    }

    fn end_instant(&self) -> (result: VideoResult<i64>) {
        Ok(self.range.end_us.0)
    }

    fn join(&self, right: &Self, pair: &Siblings) -> (result: VideoResult<Self>) {
        if !self.track_id.same(&right.track_id) || self.reason != right.reason || !self.source_asset_id.same(
            &right.source_asset_id,
        ) {
            return Err(merge_error("split gap pair is no longer compatible", "gaps"));
        }
        let source_range: Option<TimeRange> = match (self.source_range, right.source_range) {
            (Some(first), Some(second)) => if first.end_us.0 == second.start_us.0 {
                Some(TimeRange::new(first.start_us.0, second.end_us.0)?)
            } else {
                return Err(
                    merge_error(
                        "split source-clock gap pair is no longer contiguous",
                        "gaps.source_range",
                    ),
                );
            },
            (None, None) => None,
            _ => {
                return Err(
                    merge_error(
                        "split source-clock gap pair is no longer contiguous",
                        "gaps.source_range",
                    ),
                );
            },
        };
        let range: TimeRange = TimeRange::new(self.range.start_us.0, right.range.end_us.0)?;
        Ok(TimelineGap { range, source_range, ..self.duplicate() })
    }

    fn keep(&self, pair: &Siblings) -> (item: Self) {
        self.duplicate()
    }

    fn tie(&self, right: &Self, pair: &Siblings) -> (result: bool) {
        false
    }
}

impl Joinable for CaptionCue {
    open spec fn kind() -> Seq<char> {
        "caption"@
    }

    open spec fn item_fault(item: CaptionCueModel) -> Option<Fault> {
        None
    }

    open spec fn starts_at(item: CaptionCueModel) -> int {
        item.range.start()
    }

    open spec fn ends_at(item: CaptionCueModel) -> int {
        item.range.end()
    }

    open spec fn pair_fault(pair: SiblingsModel, left: CaptionCueModel, right: CaptionCueModel) -> Option<Fault> {
        or_else(
            unless(
                owned_in_turn(pair, left.scene_id, right.scene_id),
                merge_fault_at(
                    "split caption pair has incompatible scene ownership"@,
                    "captions.scene_id"@,
                ),
            ),
            or_else(
                unless(
                    left.style_id == right.style_id && left.speaker_id == right.speaker_id
                        && left.transcript_segment_id == right.transcript_segment_id,
                    merge_fault_at("split caption pair is no longer compatible"@, "captions"@),
                ),
                or_else(
                    range_fault(left.range.start(), right.range.end()),
                    CaptionCue::fault_of(CaptionCue::joined(left, right)),
                ),
            ),
        )
    }

    open spec fn joined(left: CaptionCueModel, right: CaptionCueModel) -> CaptionCueModel {
        CaptionCueModel {
            range: TimeRange { start_us: left.range.start_us, end_us: right.range.end_us },
            text: left.text + right.text,
            ..left
        }
    }

    open spec fn kept(pair: SiblingsModel, item: CaptionCueModel) -> CaptionCueModel {
        CaptionCueModel { scene_id: merged_scene_id(pair, item.scene_id), ..item }
    }

    open spec fn ties(pair: SiblingsModel, left: CaptionCueModel, right: CaptionCueModel) -> bool {
        false
    }

    fn kind_text() -> (kind: &'static str) {
        "caption"
    }

    fn start_instant(&self) -> (start: i64) {
        self.range.start_us.0
    }

    fn end_instant(&self) -> (result: VideoResult<i64>) {
        Ok(self.range.end_us.0)
    }

    fn join(&self, right: &Self, pair: &Siblings) -> (result: VideoResult<Self>) {
        if !pair.own_in_turn(&self.scene_id, &right.scene_id) {
            return Err(
                merge_error(
                    "split caption pair has incompatible scene ownership",
                    "captions.scene_id",
                ),
            );
        }
        if !self.style_id.same(&right.style_id) || !self.speaker_id.same(&right.speaker_id)
            || !self.transcript_segment_id.same(&right.transcript_segment_id) {
            return Err(merge_error("split caption pair is no longer compatible", "captions"));
        }
        let range: TimeRange = TimeRange::new(self.range.start_us.0, right.range.end_us.0)?;
        let whole = CaptionCue {
            range,
            text: text_concat(self.text.as_str(), right.text.as_str()),
            ..self.duplicate()
        };
        whole.validate()?;
        Ok(whole)
    }

    fn keep(&self, pair: &Siblings) -> (item: Self) {
        CaptionCue { scene_id: pair.merged_scene_of(&self.scene_id), ..self.duplicate() }
    }

    fn tie(&self, right: &Self, pair: &Siblings) -> (result: bool) {
        false
    }
}

// ---------------------------------------------------------------------------------------------
// Tracks
// ---------------------------------------------------------------------------------------------
pub open spec fn tracks_join_fault_from(pair: SiblingsModel, tracks: Seq<TimelineTrackModel>, index: int) -> Option<
    Fault,
>
    decreases tracks.len() - index,
{
    if index < 0 || index >= tracks.len() {
        None
    } else {
        or_else(
            join_fault_from::<TimelineClip>(
                pair,
                tracks[index].clips,
                none_joined(tracks[index].clips.len()),
                0,
            ),
            tracks_join_fault_from(pair, tracks, index + 1),
        )
    }
}

/// Whether a track from a place on holds the clips that tie the scenes to their source.
pub open spec fn tracks_tie_from(pair: SiblingsModel, tracks: Seq<TimelineTrackModel>, index: int) -> bool
    decreases tracks.len() - index,
{
    if index < 0 || index >= tracks.len() {
        false
    } else {
        ties_from::<TimelineClip>(
            pair,
            tracks[index].clips,
            none_joined(tracks[index].clips.len()),
            0,
        ) || tracks_tie_from(pair, tracks, index + 1)
    }
}

pub open spec fn merged_track(pair: SiblingsModel, track: TimelineTrackModel) -> TimelineTrackModel {
    TimelineTrackModel {
        clips: merged_from::<TimelineClip>(pair, track.clips, none_joined(track.clips.len()), 0),
        ..track
    }
}

pub open spec fn merged_tracks(pair: SiblingsModel, tracks: Seq<TimelineTrackModel>) -> Seq<TimelineTrackModel> {
    Seq::new(tracks.len(), |i: int| merged_track(pair, tracks[i]))
}

fn join_tracks(tracks: &Vec<TimelineTrack>, pair: &Siblings) -> (result: VideoResult<(Vec<TimelineTrack>, bool)>)
    requires
        pair.deep_view().placed(),
    ensures
        refusal(result) == tracks_join_fault_from(pair.deep_view(), tracks.deep_view(), 0),
        result matches Ok(merged) ==> merged.0.deep_view() == merged_tracks(
            pair.deep_view(),
            tracks.deep_view(),
        ) && merged.1 == tracks_tie_from(pair.deep_view(), tracks.deep_view(), 0),
{
    let ghost model = tracks.deep_view();
    let ghost p = pair.deep_view();
    let mut merged: Vec<TimelineTrack> = Vec::new();
    let mut tied: bool = false;
    let mut index: usize = 0;
    while index < tracks.len()
        invariant
            index <= tracks.len(),
            model == tracks.deep_view(),
            p == pair.deep_view(),
            p.placed(),
            merged.len() == index,
            forall|i: int| 0 <= i < index ==> (#[trigger] merged[i]).deep_view() == merged_track(p, model[i]),
            (tied || tracks_tie_from(p, model, index as int)) == tracks_tie_from(p, model, 0),
            tracks_join_fault_from(p, model, index as int) == tracks_join_fault_from(p, model, 0),
        decreases tracks.len() - index,
    {
        let track: &TimelineTrack = &tracks[index];
        assert(model[index as int] == track.deep_view());
        let (clips, ties) = join_all(&track.clips, pair)?;
        if ties {
            tied = true;
        }
        merged.push(
            TimelineTrack {
                id: track.id.clone(),
                kind: track.kind,
                clips,
                preserve_gaps: track.preserve_gaps,
            },
        );
        index += 1;
    }
    assert(merged.deep_view() =~= merged_tracks(p, model));
    Ok((merged, tied))
}

// ---------------------------------------------------------------------------------------------
// Layout elements and layers
// ---------------------------------------------------------------------------------------------
/// Whether an identifier is the one that a split gave to the copy of an element of the first scene,
/// among the elements before a place.
pub open spec fn is_copy_id(pair: SiblingsModel, elements: Seq<LayoutElementModel>, count: int, id: Seq<char>) -> bool {
    exists|i: int|
        0 <= i < count && i < elements.len() && (#[trigger] elements[i]).scene_id == Some(pair.first.id) && id
            == split_id("layout"@, elements[i].id, pair.boundary.0 as int)
}

/// Whether an element of the second scene still is the copy of one of the first.
pub open spec fn is_copy(pair: SiblingsModel, source: LayoutElementModel, copy: LayoutElementModel) -> bool {
    &&& copy.scene_id == Some(pair.second.id)
    &&& source.role == copy.role
    &&& source.bounds == copy.bounds
    &&& source.z_index == copy.z_index
    &&& source.style_id == copy.style_id
}

pub open spec fn copies_fault_from(pair: SiblingsModel, elements: Seq<LayoutElementModel>, index: int) -> Option<Fault>
    decreases elements.len() - index,
{
    if index < 0 || index >= elements.len() {
        None
    } else {
        or_else(
            if elements[index].scene_id == Some(pair.first.id) {
                match find::<LayoutElement>(
                    elements,
                    split_id("layout"@, elements[index].id, pair.boundary.0 as int),
                ) {
                    Some(copy) => unless(
                        is_copy(pair, elements[index], copy),
                        merge_fault_at(
                            "split-derived layout siblings are no longer compatible"@,
                            "layout.elements"@,
                        ),
                    ),
                    None => Some(
                        merge_fault_at(
                            "split-derived right scene is missing its paired layout element"@,
                            "layout.elements"@,
                        ),
                    ),
                }
            } else {
                None
            },
            copies_fault_from(pair, elements, index + 1),
        )
    }
}

/// Whether every element of the second scene is a copy that the split made.
pub open spec fn only_copies(pair: SiblingsModel, elements: Seq<LayoutElementModel>) -> bool {
    forall|i: int|
        0 <= i < elements.len() && (#[trigger] elements[i]).scene_id == Some(pair.second.id) ==> is_copy_id(
            pair,
            elements,
            elements.len() as int,
            elements[i].id,
        )
}

pub open spec fn layout_join_fault(pair: SiblingsModel, elements: Seq<LayoutElementModel>) -> Option<Fault> {
    or_else(
        copies_fault_from(pair, elements, 0),
        unless(
            only_copies(pair, elements),
            merge_fault_at(
                "right sibling has a layout element that was not created by the split"@,
                "layout.elements"@,
            ),
        ),
    )
}

/// The elements from a place on without the copies that the split made.
pub open spec fn without_copies_from(pair: SiblingsModel, elements: Seq<LayoutElementModel>, index: int) -> Seq<
    LayoutElementModel,
>
    decreases elements.len() - index,
{
    if index < 0 || index >= elements.len() {
        Seq::empty()
    } else if is_copy_id(pair, elements, elements.len() as int, elements[index].id) {
        without_copies_from(pair, elements, index + 1)
    } else {
        seq![elements[index]] + without_copies_from(pair, elements, index + 1)
    }
}

fn merge_split_layout_elements(elements: &Vec<LayoutElement>, pair: &Siblings) -> (result: VideoResult<Vec<LayoutElement>>)
    ensures
        refusal(result) == layout_join_fault(pair.deep_view(), elements.deep_view()),
        result matches Ok(merged) ==> merged.deep_view() == without_copies_from(
            pair.deep_view(),
            elements.deep_view(),
            0,
        ),
{
    let ghost model = elements.deep_view();
    let ghost p = pair.deep_view();
    let mut copies: StringHashSet = StringHashSet::new();
    let mut index: usize = 0;
    while index < elements.len()
        invariant
            index <= elements.len(),
            model == elements.deep_view(),
            p == pair.deep_view(),
            forall|id: Seq<char>| #[trigger] copies@.contains(id) <==> is_copy_id(p, model, index as int, id),
            copies_fault_from(p, model, 0) == copies_fault_from(p, model, index as int),
        decreases elements.len() - index,
    {
        let source: &LayoutElement = &elements[index];
        assert(model[index as int] == source.deep_view());
        if is_text(&source.scene_id, pair.first.id.as_str()) {
            let expected: String = deterministic_split_id("layout", source.id.as_str(), pair.boundary);
            match find_named(elements, expected.as_str()) {
                Some(copy) => {
                    if !is_text(&copy.scene_id, pair.second.id.as_str()) || source.role != copy.role
                        || source.bounds != copy.bounds || source.z_index != copy.z_index
                        || !source.style_id.same(&copy.style_id) {
                        return Err(
                            merge_error(
                                "split-derived layout siblings are no longer compatible",
                                "layout.elements",
                            ),
                        );
                    }
                },
                None => {
                    return Err(
                        merge_error(
                            "split-derived right scene is missing its paired layout element",
                            "layout.elements",
                        ),
                    );
                },
            }
            let ghost before = copies@;
            let ghost id_model = expected@;
            copies.insert(expected);
            proof {
                assert forall|id: Seq<char>| #[trigger] copies@.contains(id) <==> is_copy_id(
                    p,
                    model,
                    index + 1,
                    id,
                ) by {
                    if is_copy_id(p, model, index as int, id) {
                        let i = choose|i: int|
                            0 <= i < index && i < model.len() && (#[trigger] model[i]).scene_id == Some(
                                p.first.id,
                            ) && id == split_id("layout"@, model[i].id, p.boundary.0 as int);
                        assert(model[i].scene_id == Some(p.first.id));
                    }
                    if id == id_model {
                        assert(model[index as int].scene_id == Some(p.first.id));
                    }
                }
            }
        } else {
            proof {
                assert forall|id: Seq<char>| #[trigger] copies@.contains(id) <==> is_copy_id(
                    p,
                    model,
                    index + 1,
                    id,
                ) by {
                    if is_copy_id(p, model, index as int, id) {
                        let i = choose|i: int|
                            0 <= i < index && i < model.len() && (#[trigger] model[i]).scene_id == Some(
                                p.first.id,
                            ) && id == split_id("layout"@, model[i].id, p.boundary.0 as int);
                        assert(model[i].scene_id == Some(p.first.id));
                    }
                }
            }
        }
        index += 1;
    }
    let mut merged: Vec<LayoutElement> = Vec::new();
    let mut stray: bool = false;
    let mut place: usize = 0;
    assert(merged.deep_view() + without_copies_from(p, model, 0) =~= without_copies_from(p, model, 0));
    while place < elements.len()
        invariant
            place <= elements.len(),
            model == elements.deep_view(),
            p == pair.deep_view(),
            copies_fault_from(p, model, 0) is None,
            forall|id: Seq<char>|
                #[trigger] copies@.contains(id) <==> is_copy_id(p, model, model.len() as int, id),
            stray ==> !only_copies(p, model),
            !stray ==> forall|i: int|
                0 <= i < place && (#[trigger] model[i]).scene_id == Some(p.second.id) ==> is_copy_id(
                    p,
                    model,
                    model.len() as int,
                    model[i].id,
                ),
            merged.deep_view() + without_copies_from(p, model, place as int) == without_copies_from(p, model, 0),
        decreases elements.len() - place,
    {
        let element: &LayoutElement = &elements[place];
        assert(model[place as int] == element.deep_view());
        let ghost before = merged.deep_view();
        if !copies.contains(element.id.as_str()) {
            if is_text(&element.scene_id, pair.second.id.as_str()) {
                stray = true;
            }
            merged.push(element.duplicate());
            assert(merged.deep_view() =~= before.push(model[place as int]));
            let ghost rest = without_copies_from(p, model, place + 1);
            assert(merged.deep_view() + rest =~= before + (seq![model[place as int]] + rest));
        }
        place += 1;
    }
    if stray {
        return Err(
            merge_error(
                "right sibling has a layout element that was not created by the split",
                "layout.elements",
            ),
        );
    }
    assert(merged.deep_view() =~= without_copies_from(p, model, 0));
    Ok(merged)
}

pub open spec fn merged_layer(pair: SiblingsModel, layer: VisualLayerModel) -> VisualLayerModel {
    VisualLayerModel { scene_id: merged_scene_id(pair, layer.scene_id), ..layer }
}

pub open spec fn merged_layers(pair: SiblingsModel, layers: Seq<VisualLayerModel>) -> Seq<VisualLayerModel> {
    Seq::new(layers.len(), |i: int| merged_layer(pair, layers[i]))
}

fn merge_visual_layers(layers: &Vec<VisualLayer>, pair: &Siblings) -> (result: Vec<VisualLayer>)
    ensures
        result.deep_view() == merged_layers(pair.deep_view(), layers.deep_view()),
{
    let ghost p = pair.deep_view();
    let mut result: Vec<VisualLayer> = Vec::new();
    let mut index: usize = 0;
    while index < layers.len()
        invariant
            index <= layers.len(),
            p == pair.deep_view(),
            result.len() == index,
            forall|i: int|
                0 <= i < index ==> (#[trigger] result[i]).deep_view() == merged_layer(p, layers[i].deep_view()),
        decreases layers.len() - index,
    {
        let layer: &VisualLayer = &layers[index];
        result.push(
            VisualLayer { scene_id: pair.merged_scene_of(&layer.scene_id), ..layer.duplicate() },
        );
        index += 1;
    }
    assert(result.deep_view() =~= merged_layers(p, layers.deep_view()));
    result
}

// ---------------------------------------------------------------------------------------------
// The scenes themselves
// ---------------------------------------------------------------------------------------------
/// Whether two scenes are still what a split made of one.
pub open spec fn unchanged_halves(first: ReviewedSceneModel, second: ReviewedSceneModel) -> bool {
    &&& first.source_asset_id == second.source_asset_id
    &&& first.candidate_id == second.candidate_id
    &&& first.source_range->0.end() == second.source_range->0.start()
    &&& first.title == second.title
    &&& first.script == second.script
    &&& first.review_state == second.review_state
    &&& first.revision == second.revision
    &&& first.revision != 0
}

/// The rules on a merge that concern the two scenes.
pub open spec fn siblings_fault(m: VideoProjectManifestModel, pair: SiblingsModel) -> Option<Fault> {
    let first = pair.first;
    let second = pair.second;
    or_else(
        unless(
            second.id == split_id("scene"@, first.id, pair.boundary.0 as int),
            merge_fault_at(
                "second scene identifier is not derived from the first split sibling"@,
                "operations.second_scene_id"@,
            ),
        ),
        or_else(
            unless(
                first.source_range is Some && second.source_range is Some,
                merge_fault_at(
                    "merge requires source-backed split siblings"@,
                    "reviewed_scenes.source_range"@,
                ),
            ),
            or_else(
                unless(
                    unchanged_halves(first, second),
                    merge_fault_at(
                        "merge accepts only unchanged compatible split siblings"@,
                        "reviewed_scenes"@,
                    ),
                ),
                unless(
                    !has_dependents(m, first.id) && !has_dependents(m, second.id),
                    merge_fault_at(
                        "split-derived right scene acquired dependent artifacts and is no longer mergeable"@,
                        "reviewed_scenes"@,
                    ),
                ),
            ),
        ),
    )
}

/// The rules on a merge that concern the items of the timeline and the scene that comes out.
pub open spec fn merge_items_fault(m: VideoProjectManifestModel, pair: SiblingsModel) -> Option<Fault> {
    or_else(
        layout_join_fault(pair, m.layout.elements),
        or_else(
            tracks_join_fault_from(pair, m.tracks, 0),
            or_else(
                unless(
                    tracks_tie_from(pair, m.tracks, 0),
                    merge_fault_at(
                        "merge requires a contiguous split-derived clip pair on the original source route"@,
                        "tracks.clips"@,
                    ),
                ),
                or_else(
                    join_fault_from::<TimelineGap>(pair, m.gaps, none_joined(m.gaps.len()), 0),
                    or_else(
                        join_fault_from::<CaptionCue>(pair, m.captions, none_joined(m.captions.len()), 0),
                        or_else(
                            range_fault(
                                pair.first.source_range->0.start(),
                                pair.second.source_range->0.end(),
                            ),
                            unless(
                                on_clock(
                                    pair.first.timeline_duration_us.0 + pair.second.timeline_duration_us.0,
                                ),
                                edit_overflow(),
                            ),
                        ),
                    ),
                ),
            ),
        ),
    )
}

/// The scenes at a place and after it, with the boundary between them.
pub open spec fn siblings_at(m: VideoProjectManifestModel, place: int) -> SiblingsModel {
    SiblingsModel {
        first: m.reviewed_scenes[place],
        second: m.reviewed_scenes[place + 1],
        boundary: m.reviewed_scenes[place].span().end_us,
    }
}

/// Why two scenes cannot be merged.
pub open spec fn merge_fault(m: VideoProjectManifestModel, first_id: Seq<char>, second_id: Seq<char>) -> Option<Fault> {
    match (scene_place(m, first_id), scene_place(m, second_id)) {
        (None, _) => Some(missing_scene_fault(first_id)),
        (_, None) => Some(missing_scene_fault(second_id)),
        (Some(first), Some(second)) => {
            let pair = siblings_at(m, first);
            or_else(
                unless(
                    second == first + 1,
                    merge_fault_at(
                        "merge requires adjacent scenes in canonical timeline order"@,
                        "operations.second_scene_id"@,
                    ),
                ),
                or_else(
                    pair.first.span_refusal(),
                    or_else(
                        pair.second.span_refusal(),
                        or_else(
                            unless(
                                pair.first.span().end() == pair.second.span().start(),
                                merge_fault_at(
                                    "merge requires contiguous sibling timeline ranges"@,
                                    "reviewed_scenes.timeline_start_us"@,
                                ),
                            ),
                            or_else(siblings_fault(m, pair), merge_items_fault(m, pair)),
                        ),
                    ),
                ),
            )
        },
    }
}

/// The scene that two halves make.
pub open spec fn whole_scene(pair: SiblingsModel) -> ReviewedSceneModel {
    ReviewedSceneModel {
        source_range: Some(
            TimeRange {
                start_us: pair.first.source_range->0.start_us,
                end_us: pair.second.source_range->0.end_us,
            },
        ),
        timeline_duration_us: Microseconds(
            (pair.first.timeline_duration_us.0 + pair.second.timeline_duration_us.0) as i64,
        ),
        revision: (pair.first.revision - 1) as u32,
        ..pair.first
    }
}

/// The project after the scenes at a place and after it have been merged.
pub open spec fn merge_at(m: VideoProjectManifestModel, place: int) -> VideoProjectManifestModel {
    let pair = siblings_at(m, place);
    VideoProjectManifestModel {
        reviewed_scenes: m.reviewed_scenes.take(place) + seq![whole_scene(pair)] + m.reviewed_scenes.skip(
            place + 2,
        ),
        layout: LayoutPlanModel {
            elements: without_copies_from(pair, m.layout.elements, 0),
            ..m.layout
        },
        tracks: merged_tracks(pair, m.tracks),
        gaps: merged_from::<TimelineGap>(pair, m.gaps, none_joined(m.gaps.len()), 0),
        captions: merged_from::<CaptionCue>(pair, m.captions, none_joined(m.captions.len()), 0),
        visual_layers: merged_layers(pair, m.visual_layers),
        ..m
    }
}

/// The project after a merge.
pub open spec fn merge_result(m: VideoProjectManifestModel, first_id: Seq<char>, second_id: Seq<char>) -> VideoProjectManifestModel {
    merge_at(m, scene_place(m, first_id)->0)
}

fn check_siblings(manifest: &VideoProjectManifest, pair: &Siblings) -> (result: VideoResult<()>)
    ensures
        refusal(result) == siblings_fault(manifest.deep_view(), pair.deep_view()),
{
    let first: &ReviewedScene = &pair.first;
    let second: &ReviewedScene = &pair.second;
    let expected: String = deterministic_split_id("scene", first.id.as_str(), pair.boundary);
    if !second.id.same(&expected) {
        return Err(
            merge_error(
                "second scene identifier is not derived from the first split sibling",
                "operations.second_scene_id",
            ),
        );
    }
    match (first.source_range, second.source_range) {
        (Some(first_source), Some(second_source)) => {
            if !first.source_asset_id.same(&second.source_asset_id) || !first.candidate_id.same(
                &second.candidate_id,
            ) || first_source.end_us.0 != second_source.start_us.0 || !first.title.same(&second.title)
                || !first.script.same(&second.script) || first.review_state != second.review_state
                || first.revision != second.revision || first.revision == 0 {
                return Err(
                    merge_error(
                        "merge accepts only unchanged compatible split siblings",
                        "reviewed_scenes",
                    ),
                );
            }
        },
        _ => {
            return Err(
                merge_error(
                    "merge requires source-backed split siblings",
                    "reviewed_scenes.source_range",
                ),
            );
        },
    }
    if scene_has_dependents(manifest, first.id.as_str()) || scene_has_dependents(manifest, second.id.as_str()) {
        return Err(
            merge_error(
                "split-derived right scene acquired dependent artifacts and is no longer mergeable",
                "reviewed_scenes",
            ),
        );
    }
    Ok(())
}

/// The scenes of the project with two of them merged.
fn merge_scene_list(scenes: &Vec<ReviewedScene>, place: usize, whole: ReviewedScene) -> (result: Vec<ReviewedScene>)
    requires
        place + 1 < scenes.len(),
    ensures
        result.deep_view() == scenes.deep_view().take(place as int) + seq![whole.deep_view()]
            + scenes.deep_view().skip(place + 2),
{
    let ghost model = scenes.deep_view();
    let ghost whole_model = whole.deep_view();
    let mut result: Vec<ReviewedScene> = Vec::new();
    let mut index: usize = 0;
    while index < place
        invariant
            index <= place < scenes.len(),
            model == scenes.deep_view(),
            result.deep_view() =~= model.take(index as int),
        decreases place - index,
    {
        assert(model[index as int] == scenes[index as int].deep_view());
        let ghost before = result.deep_view();
        result.push(scenes[index].duplicate());
        assert(result.deep_view() =~= before.push(model[index as int]));
        index += 1;
    }
    let ghost before = result.deep_view();
    result.push(whole);
    assert(result.deep_view() =~= before.push(whole_model));
    let mut rest: usize = place + 2;
    while rest < scenes.len()
        invariant
            place + 2 <= rest <= scenes.len(),
            model == scenes.deep_view(),
            result.deep_view() =~= model.take(place as int) + seq![whole_model] + model.subrange(
                place + 2,
                rest as int,
            ),
        decreases scenes.len() - rest,
    {
        assert(model[rest as int] == scenes[rest as int].deep_view());
        let ghost earlier = result.deep_view();
        result.push(scenes[rest].duplicate());
        assert(result.deep_view() =~= earlier.push(model[rest as int]));
        rest += 1;
    }
    assert(model.subrange(place + 2, scenes.len() as int) =~= model.skip(place + 2));
    result
}

/// Merges two scenes that a split made. Adjacent scenes that no split made are not merged.
pub fn merge_scenes(manifest: &VideoProjectManifest, first_scene_id: &str, second_scene_id: &str) -> (result: VideoResult<
    VideoProjectManifest,
>)
    ensures
        refusal(result) == merge_fault(manifest.deep_view(), first_scene_id@, second_scene_id@),
        result matches Ok(edited) ==> edited.deep_view() == merge_result(
            manifest.deep_view(),
            first_scene_id@,
            second_scene_id@,
        ),
{
    let ghost m = manifest.deep_view();
    let first_place: usize = find_scene_index(manifest, first_scene_id)?;
    let second_place: usize = find_scene_index(manifest, second_scene_id)?;
    if second_place == 0 || second_place - 1 != first_place {
        return Err(
            merge_error(
                "merge requires adjacent scenes in canonical timeline order",
                "operations.second_scene_id",
            ),
        );
    }
    let first: &ReviewedScene = &manifest.reviewed_scenes[first_place];
    let second: &ReviewedScene = &manifest.reviewed_scenes[second_place];
    assert(m.reviewed_scenes[first_place as int] == first.deep_view());
    assert(m.reviewed_scenes[first_place + 1] == second.deep_view());
    let first_span: TimeRange = scene_timeline_range(first)?;
    let second_span: TimeRange = scene_timeline_range(second)?;
    if first_span.end_us.0 != second_span.start_us.0 {
        return Err(
            merge_error(
                "merge requires contiguous sibling timeline ranges",
                "reviewed_scenes.timeline_start_us",
            ),
        );
    }
    let pair = Siblings {
        first: first.duplicate(),
        second: second.duplicate(),
        boundary: first_span.end_us,
    };
    assert(pair.deep_view() == siblings_at(m, first_place as int));
    check_siblings(manifest, &pair)?;
    let elements: Vec<LayoutElement> = merge_split_layout_elements(&manifest.layout.elements, &pair)?;
    let (tracks, tied) = join_tracks(&manifest.tracks, &pair)?;
    if !tied {
        return Err(
            merge_error(
                "merge requires a contiguous split-derived clip pair on the original source route",
                "tracks.clips",
            ),
        );
    }
    let (gaps, gap_ties) = join_all(&manifest.gaps, &pair)?;
    let (captions, caption_ties) = join_all(&manifest.captions, &pair)?;
    match (first.source_range, second.source_range) {
        (Some(first_source), Some(second_source)) => {
            let source_range: TimeRange = TimeRange::new(first_source.start_us.0, second_source.end_us.0)?;
            let duration: i64 = match first.timeline_duration_us.0.checked_add(second.timeline_duration_us.0) {
                Some(sum) => sum,
                None => {
                    return Err(arithmetic_overflow());
                },
            };
            let whole = ReviewedScene {
                source_range: Some(source_range),
                timeline_duration_us: Microseconds(duration),
                revision: first.revision - 1,
                ..first.duplicate()
            };
            assert(whole.deep_view() == whole_scene(pair.deep_view()));
            let reviewed_scenes: Vec<ReviewedScene> = merge_scene_list(
                &manifest.reviewed_scenes,
                first_place,
                whole,
            );
            let visual_layers: Vec<VisualLayer> = merge_visual_layers(&manifest.visual_layers, &pair);
            let layout = LayoutPlan { elements, ..manifest.layout.duplicate() };
            Ok(
                VideoProjectManifest {
                    reviewed_scenes,
                    layout,
                    tracks,
                    gaps,
                    captions,
                    visual_layers,
                    ..manifest.duplicate()
                },
            )
        },
        _ => {
            assert(false);
            Err(arithmetic_overflow())
        },
    }
}

/// A merge takes only the two halves that a split made, next to each other and unchanged since, and makes one
/// scene of them that plays both in turn: what the second added to the first in time and in source, it still
/// plays. Every other scene and the length of the timeline stay as they were.
pub proof fn a_merge_makes_one_scene_of_two(m: VideoProjectManifestModel, first_id: Seq<char>, second_id: Seq<char>)
    requires
        merge_fault(m, first_id, second_id) is None,
    ensures
        ({
            let place = scene_place(m, first_id)->0;
            let first = m.reviewed_scenes[place];
            let second = m.reviewed_scenes[place + 1];
            let after = merge_result(m, first_id, second_id);
            let whole = after.reviewed_scenes[place];
            &&& 0 <= place < m.reviewed_scenes.len() - 1
            &&& first.id == first_id
            &&& second.id == second_id
            &&& second.timeline_start_us.0 == first.timeline_start_us.0 + first.timeline_duration_us.0
            &&& first.source_range is Some && second.source_range is Some
            &&& second.source_range->0.start_us == first.source_range->0.end_us
            &&& second.source_asset_id == first.source_asset_id
            &&& second.title == first.title && second.script == first.script
            &&& second.review_state == first.review_state
            &&& second.revision == first.revision
            &&& after.reviewed_scenes.len() == m.reviewed_scenes.len() - 1
            &&& forall|i: int| 0 <= i < place ==> #[trigger] after.reviewed_scenes[i] == m.reviewed_scenes[i]
            &&& forall|i: int|
                place + 1 < i < m.reviewed_scenes.len() ==> after.reviewed_scenes[i - 1]
                    == #[trigger] m.reviewed_scenes[i]
            &&& whole.timeline_start_us == first.timeline_start_us
            &&& whole.timeline_start_us.0 + whole.timeline_duration_us.0 == second.timeline_start_us.0
                + second.timeline_duration_us.0
            &&& whole.source_range == Some(
                TimeRange {
                    start_us: first.source_range->0.start_us,
                    end_us: second.source_range->0.end_us,
                },
            )
            &&& whole.revision == first.revision - 1
            &&& whole == ReviewedSceneModel {
                source_range: whole.source_range,
                timeline_duration_us: whole.timeline_duration_us,
                revision: whole.revision,
                ..first
            }
            &&& after.timeline_duration_us == m.timeline_duration_us
        }),
{
    let place = scene_place(m, first_id)->0;
    lemma_place_from::<ReviewedScene>(m.reviewed_scenes, first_id, 0);
    lemma_place_from::<ReviewedScene>(m.reviewed_scenes, second_id, 0);
    let after = merge_result(m, first_id, second_id);
    assert(after.reviewed_scenes[place] == whole_scene(siblings_at(m, place)));
    assert forall|i: int| place + 1 < i < m.reviewed_scenes.len() implies after.reviewed_scenes[i - 1]
        == #[trigger] m.reviewed_scenes[i] by {
        assert(m.reviewed_scenes.skip(place + 2)[i - place - 2] == m.reviewed_scenes[i]);
    }
}

/// Two clips that are joined play, as one clip, what they played in turn.
pub proof fn joined_clips_play_both(pair: SiblingsModel, left: TimelineClipModel, right: TimelineClipModel)
    requires
        TimelineClip::pair_fault(pair, left, right) is None,
    ensures
        ({
            let whole = TimelineClip::joined(left, right);
            &&& left.source_range.end_us == right.source_range.start_us
            &&& left.media == right.media
            &&& left.playback_rate == right.playback_rate
            &&& whole.source_range.start_us == left.source_range.start_us
            &&& whole.source_range.end_us == right.source_range.end_us
            &&& whole.timeline_start_us == left.timeline_start_us
            &&& whole.timeline_duration_us.0 == left.timeline_duration_us.0 + right.timeline_duration_us.0
            &&& whole.media == right.media
            &&& whole.playback_rate == right.playback_rate
            &&& whole.id == left.id
        }),
{
}

} // verus!
