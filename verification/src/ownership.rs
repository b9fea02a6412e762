//! Which items of a timeline belong to which scene.

use crate::edit_shared::scene_timeline_range;
use crate::error::{fault_at, or_else, refusal, refuse, unless, Fault, VideoError, VideoErrorCode, VideoResult};
use crate::manifest::{
    CaptionCue, CaptionCueModel, ReviewedScene, ReviewedSceneModel, TimelineClip, TimelineClipModel,
    TimelineTrackModel, VideoProjectManifest, VideoProjectManifestModel, VisualLayer, VisualLayerModel,
};
use crate::model::{collect_names, find, find_named, names};
use crate::rules::{distinct, unique_is_distinct, validate_unique_ids};
use crate::time::TimeRange;
use vstd::prelude::*;

verus! {

/// Items of a timeline that a scene may own.
pub trait SceneOwned: DeepView + Sized {
    spec fn owner(item: Self::V) -> Option<Seq<char>>;

    /// Why the item stands nowhere on the timeline.
    spec fn standing_fault(item: Self::V) -> Option<Fault>;

    /// Where the item stands on the timeline.
    spec fn standing(item: Self::V) -> TimeRange;

    /// The refusal of an owner that does not exist.
    spec fn ownerless() -> Fault;

    /// The refusal of an item that leaves its scene.
    spec fn outside() -> Fault;

    fn owner_id(&self) -> (owner: &Option<String>)
        ensures
            owner.deep_view() == Self::owner(self.deep_view()),
    ;

    fn stand(&self) -> (result: VideoResult<TimeRange>)
        ensures
            refusal(result) == Self::standing_fault(self.deep_view()),
            result matches Ok(range) ==> range == Self::standing(self.deep_view()),
    ;

    fn ownerless_error() -> (error: VideoError)
        ensures
            error.deep_view() == Self::ownerless(),
    ;

    fn outside_error() -> (error: VideoError)
        ensures
            error.deep_view() == Self::outside(),
    ;
}

impl SceneOwned for TimelineClip {
    open spec fn owner(item: TimelineClipModel) -> Option<Seq<char>> {
        item.scene_id
    }

    open spec fn standing_fault(item: TimelineClipModel) -> Option<Fault> {
        item.span_refusal()
    }

    open spec fn standing(item: TimelineClipModel) -> TimeRange {
        item.span()
    }

    open spec fn ownerless() -> Fault {
        fault_at(
            VideoErrorCode::MissingReference,
            "timeline clip references a missing reviewed scene"@,
            "tracks.clips.scene_id"@,
        )
    }

    open spec fn outside() -> Fault {
        fault_at(
            VideoErrorCode::InvalidTrack,
            "scene-owned clips must remain inside their reviewed scene"@,
            "tracks.clips.timeline"@,
        )
    }

    fn owner_id(&self) -> (owner: &Option<String>) {
        &self.scene_id
    }

    fn stand(&self) -> (result: VideoResult<TimeRange>) {
        self.timeline_range()
    }

    fn ownerless_error() -> (error: VideoError) {
        refuse(
            VideoErrorCode::MissingReference,
            "timeline clip references a missing reviewed scene",
            "tracks.clips.scene_id",
        )
    }

    fn outside_error() -> (error: VideoError) {
        refuse(
            VideoErrorCode::InvalidTrack,
            "scene-owned clips must remain inside their reviewed scene",
            "tracks.clips.timeline",
        )
    }
}

impl SceneOwned for CaptionCue {
    open spec fn owner(item: CaptionCueModel) -> Option<Seq<char>> {
        item.scene_id
    }

    open spec fn standing_fault(item: CaptionCueModel) -> Option<Fault> {
        None
    }

    open spec fn standing(item: CaptionCueModel) -> TimeRange {
        item.range
    }

    open spec fn ownerless() -> Fault {
        fault_at(
            VideoErrorCode::MissingReference,
            "caption references a missing reviewed scene"@,
            "captions.scene_id"@,
        )
    }

    open spec fn outside() -> Fault {
        fault_at(
            VideoErrorCode::InvalidCaption,
            "scene-owned captions must remain inside their reviewed scene"@,
            "captions.range"@,
        )
    }

    fn owner_id(&self) -> (owner: &Option<String>) {
        &self.scene_id
    }

    fn stand(&self) -> (result: VideoResult<TimeRange>) {
        Ok(self.range)
    }

    fn ownerless_error() -> (error: VideoError) {
        refuse(
            VideoErrorCode::MissingReference,
            "caption references a missing reviewed scene",
            "captions.scene_id",
        )
    }

    fn outside_error() -> (error: VideoError) {
        refuse(
            VideoErrorCode::InvalidCaption,
            "scene-owned captions must remain inside their reviewed scene",
            "captions.range",
        )
    }
}

impl SceneOwned for VisualLayer {
    open spec fn owner(item: VisualLayerModel) -> Option<Seq<char>> {
        item.scene_id
    }

    open spec fn standing_fault(item: VisualLayerModel) -> Option<Fault> {
        None
    }

    open spec fn standing(item: VisualLayerModel) -> TimeRange {
        item.range
    }

    open spec fn ownerless() -> Fault {
        fault_at(
            VideoErrorCode::MissingReference,
            "visual layer references a missing reviewed scene"@,
            "visual_layers.scene_id"@,
        )
    }

    open spec fn outside() -> Fault {
        fault_at(
            VideoErrorCode::InvalidLayout,
            "scene-owned visual layers must remain inside their reviewed scene"@,
            "visual_layers.range"@,
        )
    }

    fn owner_id(&self) -> (owner: &Option<String>) {
        &self.scene_id
    }

    fn stand(&self) -> (result: VideoResult<TimeRange>) {
        Ok(self.range)
    }

    fn ownerless_error() -> (error: VideoError) {
        refuse(
            VideoErrorCode::MissingReference,
            "visual layer references a missing reviewed scene",
            "visual_layers.scene_id",
        )
    }

    fn outside_error() -> (error: VideoError) {
        refuse(
            VideoErrorCode::InvalidLayout,
            "scene-owned visual layers must remain inside their reviewed scene",
            "visual_layers.range",
        )
    }
}

pub open spec fn owned_fault<T: SceneOwned>(scenes: Seq<ReviewedSceneModel>, item: T::V) -> Option<Fault> {
    match T::owner(item) {
        Some(scene_id) => match find::<ReviewedScene>(scenes, scene_id) {
            Some(scene) => or_else(
                T::standing_fault(item),
                unless(scene.span().encloses(T::standing(item)), T::outside()),
            ),
            None => Some(T::ownerless()),
        },
        None => None,
    }
}

pub open spec fn owned_fault_from<T: SceneOwned>(
    scenes: Seq<ReviewedSceneModel>,
    items: Seq<T::V>,
    index: int,
) -> Option<Fault>
    decreases items.len() - index,
{
    if index < 0 || index >= items.len() {
        None
    } else {
        or_else(owned_fault::<T>(scenes, items[index]), owned_fault_from::<T>(scenes, items, index + 1))
    }
}

pub open spec fn owned_clips_fault_from(
    scenes: Seq<ReviewedSceneModel>,
    tracks: Seq<TimelineTrackModel>,
    index: int,
) -> Option<Fault>
    decreases tracks.len() - index,
{
    if index < 0 || index >= tracks.len() {
        None
    } else {
        or_else(
            owned_fault_from::<TimelineClip>(scenes, tracks[index].clips, 0),
            owned_clips_fault_from(scenes, tracks, index + 1),
        )
    }
}

pub open spec fn scene_spans_fault_from(scenes: Seq<ReviewedSceneModel>, index: int) -> Option<Fault>
    decreases scenes.len() - index,
{
    if index < 0 || index >= scenes.len() {
        None
    } else {
        or_else(scenes[index].span_refusal(), scene_spans_fault_from(scenes, index + 1))
    }
}

/// The refusal of scenes that do not follow one another.
pub open spec fn disorder() -> Fault {
    fault_at(
        VideoErrorCode::TimelineOverlap,
        "reviewed scenes must be stored in non-overlapping timeline order"@,
        "reviewed_scenes"@,
    )
}

pub open spec fn scene_order_fault_from(scenes: Seq<ReviewedSceneModel>, index: int) -> Option<Fault>
    decreases scenes.len() - index,
{
    if index < 1 || index >= scenes.len() {
        None
    } else {
        or_else(
            unless(
                scenes[index].span().start() >= scenes[index - 1].span().end(),
                disorder(),
            ),
            scene_order_fault_from(scenes, index + 1),
        )
    }
}

/// The refusal of scenes that are out of order, or that no identifier tells apart.
pub open spec fn scenes_fault(scenes: Seq<ReviewedSceneModel>) -> Option<Fault> {
    or_else(
        scene_spans_fault_from(scenes, 0),
        or_else(
            unless(distinct(names::<ReviewedScene>(scenes)), disorder()),
            scene_order_fault_from(scenes, 1),
        ),
    )
}

/// Why the timeline cannot be edited scene by scene: its scenes are out of order, or an item that a
/// scene owns leaves it.
pub open spec fn editable_fault(m: VideoProjectManifestModel) -> Option<Fault> {
    or_else(
        scenes_fault(m.reviewed_scenes),
        or_else(
            owned_clips_fault_from(m.reviewed_scenes, m.tracks, 0),
            or_else(
                owned_fault_from::<CaptionCue>(m.reviewed_scenes, m.captions, 0),
                owned_fault_from::<VisualLayer>(m.reviewed_scenes, m.visual_layers, 0),
            ),
        ),
    )
}

fn check_owned<T: SceneOwned>(scenes: &Vec<ReviewedScene>, items: &Vec<T>) -> (result: VideoResult<()>)
    requires
        scene_spans_fault_from(scenes.deep_view(), 0) is None,
    ensures
        refusal(result) == owned_fault_from::<T>(scenes.deep_view(), items.deep_view(), 0),
{
    let ghost model = items.deep_view();
    let ghost known = scenes.deep_view();
    let mut index: usize = 0;
    while index < items.len()
        invariant
            index <= items.len(),
            model == items.deep_view(),
            known == scenes.deep_view(),
            scene_spans_fault_from(known, 0) is None,
            owned_fault_from::<T>(known, model, 0) == owned_fault_from::<T>(known, model, index as int),
        decreases items.len() - index,
    {
        assert(model[index as int] == items[index as int].deep_view());
        let item: &T = &items[index];
        if let Some(scene_id) = item.owner_id() {
            match find_named(scenes, scene_id.as_str()) {
                Some(scene) => {
                    proof {
                        lemma_find_is_placed(known, scene_id@);
                    }
                    let span: TimeRange = scene_timeline_range(scene)?;
                    let range: TimeRange = item.stand()?;
                    if !span.contains_range(range) {
                        return Err(T::outside_error());
                    }
                },
                None => {
                    return Err(T::ownerless_error());
                },
            }
        }
        index += 1;
    }
    Ok(())
}

pub proof fn lemma_scene_span(scenes: Seq<ReviewedSceneModel>, from: int, index: int)
    requires
        0 <= from <= index < scenes.len(),
        scene_spans_fault_from(scenes, from) is None,
    ensures
        scenes[index].span_refusal() is None,
    decreases index - from,
{
    if from < index {
        lemma_scene_span(scenes, from + 1, index);
    }
}

proof fn lemma_find_is_placed(scenes: Seq<ReviewedSceneModel>, id: Seq<char>)
    requires
        scene_spans_fault_from(scenes, 0) is None,
    ensures
        find::<ReviewedScene>(scenes, id) matches Some(scene) ==> scene.span_refusal() is None,
{
    crate::model::lemma_place_from::<ReviewedScene>(scenes, id, 0);
    if let Some(place) = crate::model::place_of::<ReviewedScene>(scenes, id) {
        lemma_scene_span(scenes, 0, place);
    }
}

fn disorder_error() -> (error: VideoError)
    ensures
        error.deep_view() == disorder(),
{
    refuse(
        VideoErrorCode::TimelineOverlap,
        "reviewed scenes must be stored in non-overlapping timeline order",
        "reviewed_scenes",
    )
}

/// Checks that the timeline can be edited scene by scene.
pub fn validate_editable_scene_references(manifest: &VideoProjectManifest) -> (result: VideoResult<()>)
    ensures
        refusal(result) == editable_fault(manifest.deep_view()),
{
    let scenes: &Vec<ReviewedScene> = &manifest.reviewed_scenes;
    let ghost known = scenes.deep_view();
    let mut spans: Vec<TimeRange> = Vec::new();
    let mut index: usize = 0;
    while index < scenes.len()
        invariant
            index <= scenes.len(),
            scenes == manifest.reviewed_scenes,
            known == scenes.deep_view(),
            spans.len() == index,
            forall|i: int| 0 <= i < index ==> spans[i] == (#[trigger] known[i]).span(),
            scene_spans_fault_from(known, 0) == scene_spans_fault_from(known, index as int),
        decreases scenes.len() - index,
    {
        assert(known[index as int] == scenes[index as int].deep_view());
        let span: TimeRange = scene_timeline_range(&scenes[index])?;
        spans.push(span);
        index += 1;
    }
    let ids: Vec<String> = collect_names(scenes);
    proof {
        unique_is_distinct(ids.deep_view(), "reviewed_scenes"@);
    }
    if validate_unique_ids(&ids, "reviewed_scenes").is_err() {
        return Err(disorder_error());
    }
    let mut place: usize = 1;
    while place < spans.len()
        invariant
            1 <= place,
            spans.len() == known.len(),
            forall|i: int| 0 <= i < spans.len() ==> spans[i] == (#[trigger] known[i]).span(),
            scene_spans_fault_from(known, 0) is None,
            distinct(names::<ReviewedScene>(known)),
            known == manifest.deep_view().reviewed_scenes,
            scene_order_fault_from(known, 1) == scene_order_fault_from(known, place as int),
        decreases spans.len() - place,
    {
        assert(spans[place as int] == known[place as int].span());
        assert(spans[place - 1] == known[place - 1].span());
        if spans[place].start_us.0 < spans[place - 1].end_us.0 {
            return Err(disorder_error());
        }
        place += 1;
    }
    let ghost tracks = manifest.tracks.deep_view();
    let mut track: usize = 0;
    while track < manifest.tracks.len()
        invariant
            track <= manifest.tracks.len(),
            tracks == manifest.tracks.deep_view(),
            scenes == manifest.reviewed_scenes,
            known == scenes.deep_view(),
            scene_spans_fault_from(known, 0) is None,
            scenes_fault(known) is None,
            owned_clips_fault_from(known, tracks, 0) == owned_clips_fault_from(known, tracks, track as int),
        decreases manifest.tracks.len() - track,
    {
        assert(tracks[track as int] == manifest.tracks[track as int].deep_view());
        check_owned(scenes, &manifest.tracks[track].clips)?;
        track += 1;
    }
    check_owned(scenes, &manifest.captions)?;
    check_owned(scenes, &manifest.visual_layers)
}

} // verus!
