//! Moving a scene to another place in the order.

use crate::edit_shared::{
    checked_difference, edit_overflow, find_scene_index, missing_scene_fault, scene_place, scene_timeline_range,
};
use crate::error::{fault_at, or_else, refusal, refuse, unless, Fault, VideoErrorCode, VideoResult};
use crate::manifest::{
    CaptionCue, CaptionCueModel, ReviewedScene, ReviewedSceneModel, TimelineClip, TimelineClipModel, TimelineGap,
    TimelineGapModel, TimelineTrack, TimelineTrackModel, VideoProjectManifest, VideoProjectManifestModel, VisualLayer,
    VisualLayerModel,
};
use crate::model::{lemma_place_from, names, Model};
use crate::order::{rank, ranked, ranked_is_a_sorted_permutation, Ranked};
use crate::ownership::{lemma_scene_span, scene_spans_fault_from};
use crate::rules::distinct;
use crate::text::{decimal, decimal_text, text_eq};
use crate::time::{addition_fault, on_clock, range_between, Microseconds, TimeRange};
use crate::trim::{checked_shift_range, shift_fault, shifted};
use vstd::prelude::*;

verus! {

// ---------------------------------------------------------------------------------------------
// The new order
// ---------------------------------------------------------------------------------------------
/// Which scene stands in a slot once the scene at `from` has moved to `to`.
pub open spec fn scene_in_slot(from: int, to: int, slot: int) -> int {
    if slot == to {
        from
    } else if from <= slot < to {
        slot + 1
    } else if to < slot <= from {
        slot - 1
    } else {
        slot
    }
}

/// In which slot a scene stands once the scene at `from` has moved to `to`.
pub open spec fn slot_of_scene(from: int, to: int, index: int) -> int {
    if index == from {
        to
    } else if from < index <= to {
        index - 1
    } else if to <= index < from {
        index + 1
    } else {
        index
    }
}

/// Every scene has one slot and every slot one scene.
pub proof fn slots_and_scenes_match(from: int, to: int, index: int)
    ensures
        scene_in_slot(from, to, slot_of_scene(from, to, index)) == index,
        slot_of_scene(from, to, scene_in_slot(from, to, index)) == index,
{
}

fn find_scene_in_slot(from: usize, to: usize, slot: usize) -> (index: usize)
    requires
        slot < usize::MAX,
    ensures
        index == scene_in_slot(from as int, to as int, slot as int),
{
    if slot == to {
        from
    } else if from <= slot && slot < to {
        slot + 1
    } else if to < slot && slot <= from {
        slot - 1
    } else {
        slot
    }
}

/// The pause after a scene. It stays with its slot, not with its scene.
pub open spec fn pause_after(scenes: Seq<ReviewedSceneModel>, slot: int) -> int {
    scenes[slot + 1].span().start() - scenes[slot].span().end()
}

/// Where the scene in a slot starts.
pub open spec fn slot_start(scenes: Seq<ReviewedSceneModel>, from: int, to: int, slot: int) -> int
    decreases slot,
{
    if slot <= 0 {
        scenes[0].span().start()
    } else {
        slot_start(scenes, from, to, slot - 1) + scenes[scene_in_slot(from, to, slot - 1)].timeline_duration_us.0
            + pause_after(scenes, slot - 1)
    }
}

/// Where the scene in a slot ends.
pub open spec fn slot_end(scenes: Seq<ReviewedSceneModel>, from: int, to: int, slot: int) -> int {
    slot_start(scenes, from, to, slot) + scenes[scene_in_slot(from, to, slot)].timeline_duration_us.0
}

pub open spec fn pauses_fault_from(scenes: Seq<ReviewedSceneModel>, slot: int) -> Option<Fault>
    decreases scenes.len() - slot,
{
    if slot < 0 || slot + 1 >= scenes.len() {
        None
    } else {
        or_else(
            unless(on_clock(pause_after(scenes, slot)), edit_overflow()),
            pauses_fault_from(scenes, slot + 1),
        )
    }
}

pub open spec fn slots_fault_from(scenes: Seq<ReviewedSceneModel>, from: int, to: int, slot: int) -> Option<Fault>
    decreases scenes.len() - slot,
{
    if slot < 0 || slot >= scenes.len() {
        None
    } else {
        or_else(
            unless(on_clock(slot_end(scenes, from, to, slot)), addition_fault()),
            or_else(
                unless(
                    slot + 1 < scenes.len() ==> on_clock(slot_start(scenes, from, to, slot + 1)),
                    addition_fault(),
                ),
                slots_fault_from(scenes, from, to, slot + 1),
            ),
        )
    }
}

/// The last of the first slots whose scene has a name.
pub open spec fn slot_named(scenes: Seq<ReviewedSceneModel>, from: int, to: int, id: Seq<char>, count: int) -> int
    decreases count,
{
    if count <= 1 || scenes[scene_in_slot(from, to, count - 1)].id == id {
        count - 1
    } else {
        slot_named(scenes, from, to, id, count - 1)
    }
}

/// Where the scenes of a name start: where the last of their slots does.
pub open spec fn new_start(scenes: Seq<ReviewedSceneModel>, from: int, to: int, id: Seq<char>) -> int {
    slot_start(scenes, from, to, slot_named(scenes, from, to, id, scenes.len() as int))
}

/// The scenes in their new order, each where those of its name start.
pub open spec fn reordered_scenes(scenes: Seq<ReviewedSceneModel>, from: int, to: int) -> Seq<ReviewedSceneModel> {
    Seq::new(
        scenes.len(),
        |slot: int|
            (ReviewedSceneModel {
                timeline_start_us: Microseconds(
                    new_start(scenes, from, to, scenes[scene_in_slot(from, to, slot)].id) as i64,
                ),
                ..scenes[scene_in_slot(from, to, slot)]
            }),
    )
}

/// Where the scenes stood, and where each slot starts and ends now.
struct Slots {
    spans: Vec<TimeRange>,
    starts: Vec<i64>,
    ends: Vec<i64>,
}

spec fn slots_of(slots: Slots, scenes: Seq<ReviewedSceneModel>, from: int, to: int) -> bool {
    &&& slots.spans.len() == scenes.len()
    &&& slots.starts.len() == scenes.len()
    &&& slots.ends.len() == scenes.len()
    &&& forall|i: int| 0 <= i < scenes.len() ==> #[trigger] slots.spans[i] == scenes[i].span()
    &&& forall|i: int| 0 <= i < scenes.len() ==> (#[trigger] slots.spans[i]).valid()
    &&& forall|i: int| 0 <= i < scenes.len() ==> #[trigger] slots.starts[i] == slot_start(scenes, from, to, i)
    &&& forall|i: int| 0 <= i < scenes.len() ==> #[trigger] slots.ends[i] == slot_end(scenes, from, to, i)
}

/// The refusal of a sum that came out otherwise than it went in.
pub open spec fn aggregate_fault(scenes: Seq<ReviewedSceneModel>, from: int, to: int) -> Option<Fault> {
    unless(
        slot_end(scenes, from, to, scenes.len() - 1) == scenes.last().span().end(),
        fault_at(
            VideoErrorCode::ArithmeticOverflow,
            "scene reorder changed the aggregate timeline duration"@,
            "reviewed_scenes"@,
        ),
    )
}

/// The rules on the new order that concern the scenes.
pub open spec fn order_fault(scenes: Seq<ReviewedSceneModel>, from: int, to: int) -> Option<Fault> {
    or_else(
        scene_spans_fault_from(scenes, 0),
        or_else(
            pauses_fault_from(scenes, 0),
            or_else(slots_fault_from(scenes, from, to, 0), aggregate_fault(scenes, from, to)),
        ),
    )
}

fn plan_slots(scenes: &Vec<ReviewedScene>, from: usize, to: usize) -> (result: VideoResult<Slots>)
    requires
        from < scenes.len(),
        to < scenes.len(),
    ensures
        refusal(result) == order_fault(scenes.deep_view(), from as int, to as int),
        result matches Ok(slots) ==> slots_of(slots, scenes.deep_view(), from as int, to as int),
{
    let ghost model = scenes.deep_view();
    let mut spans: Vec<TimeRange> = Vec::new();
    let mut index: usize = 0;
    while index < scenes.len()
        invariant
            index <= scenes.len(),
            model == scenes.deep_view(),
            spans.len() == index,
            forall|i: int| 0 <= i < index ==> #[trigger] spans[i] == model[i].span(),
            forall|i: int| 0 <= i < index ==> (#[trigger] spans[i]).valid(),
            scene_spans_fault_from(model, 0) == scene_spans_fault_from(model, index as int),
        decreases scenes.len() - index,
    {
        assert(model[index as int] == scenes[index as int].deep_view());
        let span: TimeRange = scene_timeline_range(&scenes[index])?;
        spans.push(span);
        index += 1;
    }
    let mut pauses: Vec<i64> = Vec::new();
    let mut pause: usize = 0;
    while pause + 1 < spans.len()
        invariant
            pause < spans.len(),
            spans.len() == model.len(),
            model == scenes.deep_view(),
            forall|i: int| 0 <= i < spans.len() ==> #[trigger] spans[i] == model[i].span(),
            pauses.len() == pause,
            forall|i: int| 0 <= i < pause ==> #[trigger] pauses[i] == pause_after(model, i),
            scene_spans_fault_from(model, 0) is None,
            pauses_fault_from(model, 0) == pauses_fault_from(model, pause as int),
        decreases spans.len() - pause,
    {
        assert(spans[pause as int] == model[pause as int].span());
        assert(spans[pause + 1] == model[pause + 1].span());
        let length: i64 = checked_difference(spans[pause + 1].start_us.0, spans[pause].end_us.0)?;
        pauses.push(length);
        pause += 1;
    }
    let mut starts: Vec<i64> = Vec::new();
    let mut ends: Vec<i64> = Vec::new();
    let mut cursor: Microseconds = spans[0].start_us;
    let mut slot: usize = 0;
    while slot < scenes.len()
        invariant
            slot <= scenes.len(),
            from < scenes.len(),
            to < scenes.len(),
            model == scenes.deep_view(),
            pauses.len() == scenes.len() - 1,
            forall|i: int| 0 <= i < pauses.len() ==> #[trigger] pauses[i] == pause_after(model, i),
            scene_spans_fault_from(model, 0) is None,
            pauses_fault_from(model, 0) is None,
            slots_fault_from(model, from as int, to as int, 0) == slots_fault_from(
                model,
                from as int,
                to as int,
                slot as int,
            ),
            slot < scenes.len() ==> cursor.0 == slot_start(model, from as int, to as int, slot as int),
            slot == scenes.len() ==> cursor.0 == slot_end(model, from as int, to as int, slot - 1),
            starts.len() == slot,
            ends.len() == slot,
            forall|i: int| 0 <= i < slot ==> #[trigger] starts[i] == slot_start(model, from as int, to as int, i),
            forall|i: int| 0 <= i < slot ==> #[trigger] ends[i] == slot_end(model, from as int, to as int, i),
        decreases scenes.len() - slot,
    {
        let place: usize = find_scene_in_slot(from, to, slot);
        assert(model[place as int] == scenes[place as int].deep_view());
        starts.push(cursor.0);
        let end: Microseconds = cursor.checked_add(scenes[place].timeline_duration_us)?;
        ends.push(end.0);
        if slot < pauses.len() {
            let next: Microseconds = end.checked_add(Microseconds(pauses[slot]))?;
            cursor = next;
        } else {
            cursor = end;
        }
        slot += 1;
    }
    let last: usize = scenes.len() - 1;
    assert(spans[last as int] == model[last as int].span());
    if cursor.0 != spans[last].end_us.0 {
        return Err(
            refuse(
                VideoErrorCode::ArithmeticOverflow,
                "scene reorder changed the aggregate timeline duration",
                "reviewed_scenes",
            ),
        );
    }
    Ok(Slots { spans, starts, ends })
}

fn find_slot_named(scenes: &Vec<ReviewedScene>, from: usize, to: usize, id: &str) -> (slot: usize)
    requires
        from < scenes.len(),
        to < scenes.len(),
    ensures
        slot < scenes.len(),
        slot == slot_named(scenes.deep_view(), from as int, to as int, id@, scenes.len() as int),
{
    let ghost model = scenes.deep_view();
    let mut slot: usize = scenes.len() - 1;
    while slot > 0
        invariant
            slot < scenes.len(),
            from < scenes.len(),
            to < scenes.len(),
            model == scenes.deep_view(),
            slot_named(model, from as int, to as int, id@, scenes.len() as int) == slot_named(
                model,
                from as int,
                to as int,
                id@,
                slot + 1,
            ),
        decreases slot,
    {
        let place: usize = find_scene_in_slot(from, to, slot);
        assert(model[place as int] == scenes[place as int].deep_view());
        if text_eq(scenes[place].id.as_str(), id) {
            return slot;
        }
        slot -= 1;
    }
    slot
}

fn reorder_scenes(scenes: &Vec<ReviewedScene>, from: usize, to: usize, starts: &Vec<i64>) -> (result: Vec<ReviewedScene>)
    requires
        from < scenes.len(),
        to < scenes.len(),
        starts.len() == scenes.len(),
        forall|i: int|
            0 <= i < scenes.len() ==> #[trigger] starts[i] == slot_start(
                scenes.deep_view(),
                from as int,
                to as int,
                i,
            ),
    ensures
        result.deep_view() == reordered_scenes(scenes.deep_view(), from as int, to as int),
{
    let ghost model = scenes.deep_view();
    let ghost expected = reordered_scenes(model, from as int, to as int);
    let mut result: Vec<ReviewedScene> = Vec::new();
    let mut slot: usize = 0;
    while slot < scenes.len()
        invariant
            slot <= scenes.len(),
            from < scenes.len(),
            to < scenes.len(),
            model == scenes.deep_view(),
            expected == reordered_scenes(model, from as int, to as int),
            starts.len() == scenes.len(),
            forall|i: int|
                0 <= i < scenes.len() ==> #[trigger] starts[i] == slot_start(model, from as int, to as int, i),
            result.len() == slot,
            forall|i: int| 0 <= i < slot ==> (#[trigger] result[i]).deep_view() == expected[i],
        decreases scenes.len() - slot,
    {
        let place: usize = find_scene_in_slot(from, to, slot);
        assert(model[place as int] == scenes[place as int].deep_view());
        let home: usize = find_slot_named(scenes, from, to, scenes[place].id.as_str());
        assert(starts[home as int] == slot_start(model, from as int, to as int, home as int));
        let scene = ReviewedScene {
            timeline_start_us: Microseconds(starts[home]),
            ..scenes[place].duplicate()
        };
        assert(scene.deep_view() == expected[slot as int]);
        result.push(scene);
        slot += 1;
    }
    assert(result.deep_view() =~= expected);
    result
}

// ---------------------------------------------------------------------------------------------
// Regions that move as one
// ---------------------------------------------------------------------------------------------
/// A stretch of the timeline, and how far everything inside it moves.
#[derive(Clone, Copy, Debug, PartialEq, Eq, Structural)]
pub struct RegionTranslation {
    pub old: TimeRange,
    pub delta: i64,
}

/// How far a scene moves.
pub open spec fn scene_delta(scenes: Seq<ReviewedSceneModel>, from: int, to: int, index: int) -> int {
    new_start(scenes, from, to, scenes[index].id) - scenes[index].span().start()
}

/// How far the pause after a slot moves.
pub open spec fn pause_delta(scenes: Seq<ReviewedSceneModel>, from: int, to: int, slot: int) -> int {
    slot_end(scenes, from, to, slot) - scenes[slot].span().end()
}

pub open spec fn region(old: TimeRange, delta: int) -> RegionTranslation {
    RegionTranslation { old, delta: delta as i64 }
}

/// The regions of the scenes from a place on, and of the pauses after them.
pub open spec fn regions_from(scenes: Seq<ReviewedSceneModel>, from: int, to: int, index: int) -> Seq<RegionTranslation>
    decreases scenes.len() - index,
{
    if index < 0 || index >= scenes.len() {
        Seq::empty()
    } else {
        let own = region(scenes[index].span(), scene_delta(scenes, from, to, index));
        let rest = regions_from(scenes, from, to, index + 1);
        if index + 1 < scenes.len() && pause_after(scenes, index) > 0 {
            seq![
                own,
                region(
                    range_between(scenes[index].span().end(), scenes[index + 1].span().start()),
                    pause_delta(scenes, from, to, index),
                ),
            ] + rest
        } else {
            seq![own] + rest
        }
    }
}

pub open spec fn regions_fault_from(scenes: Seq<ReviewedSceneModel>, from: int, to: int, index: int) -> Option<Fault>
    decreases scenes.len() - index,
{
    if index < 0 || index >= scenes.len() {
        None
    } else {
        or_else(
            unless(on_clock(scene_delta(scenes, from, to, index)), edit_overflow()),
            or_else(
                unless(
                    index + 1 < scenes.len() && pause_after(scenes, index) > 0 ==> on_clock(
                        pause_delta(scenes, from, to, index),
                    ),
                    edit_overflow(),
                ),
                regions_fault_from(scenes, from, to, index + 1),
            ),
        )
    }
}

/// What stands before the first scene stays.
pub open spec fn lead_in(scenes: Seq<ReviewedSceneModel>) -> Seq<RegionTranslation> {
    if scenes[0].span().start() > 0 {
        seq![region(range_between(0, scenes[0].span().start()), 0)]
    } else {
        Seq::empty()
    }
}

/// What stands after the last scene stays.
pub open spec fn lead_out(scenes: Seq<ReviewedSceneModel>, duration: int) -> Seq<RegionTranslation> {
    if scenes.last().span().end() < duration {
        seq![region(range_between(scenes.last().span().end(), duration), 0)]
    } else {
        Seq::empty()
    }
}

pub open spec fn regions(m: VideoProjectManifestModel, from: int, to: int) -> Seq<RegionTranslation> {
    lead_in(m.reviewed_scenes) + regions_from(m.reviewed_scenes, from, to, 0) + lead_out(
        m.reviewed_scenes,
        m.timeline_duration_us.0 as int,
    )
}

fn plan_regions(manifest: &VideoProjectManifest, slots: &Slots, from: usize, to: usize) -> (result: VideoResult<
    Vec<RegionTranslation>,
>)
    requires
        from < manifest.reviewed_scenes.len(),
        to < manifest.reviewed_scenes.len(),
        slots_of(*slots, manifest.deep_view().reviewed_scenes, from as int, to as int),
    ensures
        refusal(result) == regions_fault_from(manifest.deep_view().reviewed_scenes, from as int, to as int, 0),
        result matches Ok(list) ==> list@ == regions(manifest.deep_view(), from as int, to as int),
{
    let ghost m = manifest.deep_view();
    let ghost scenes = m.reviewed_scenes;
    let duration: Microseconds = manifest.timeline_duration_us;
    let mut list: Vec<RegionTranslation> = Vec::new();
    let first: TimeRange = slots.spans[0];
    if first.start_us.0 > 0 {
        list.push(
            RegionTranslation {
                old: TimeRange { start_us: Microseconds(0), end_us: first.start_us },
                delta: 0,
            },
        );
    }
    assert(list@ =~= lead_in(scenes));
    let ghost whole = lead_in(scenes) + regions_from(scenes, from as int, to as int, 0);
    let mut index: usize = 0;
    while index < slots.spans.len()
        invariant
            index <= slots.spans.len(),
            m == manifest.deep_view(),
            scenes == m.reviewed_scenes,
            from < scenes.len(),
            to < scenes.len(),
            slots_of(*slots, scenes, from as int, to as int),
            whole == lead_in(scenes) + regions_from(scenes, from as int, to as int, 0),
            list@ + regions_from(scenes, from as int, to as int, index as int) == whole,
            regions_fault_from(scenes, from as int, to as int, 0) == regions_fault_from(
                scenes,
                from as int,
                to as int,
                index as int,
            ),
        decreases slots.spans.len() - index,
    {
        let ghost before = list@;
        let ghost rest = regions_from(scenes, from as int, to as int, index + 1);
        let span: TimeRange = slots.spans[index];
        assert(scenes[index as int] == manifest.reviewed_scenes[index as int].deep_view());
        let slot: usize = find_slot_named(
            &manifest.reviewed_scenes,
            from,
            to,
            manifest.reviewed_scenes[index].id.as_str(),
        );
        assert(slots.starts[slot as int] == slot_start(scenes, from as int, to as int, slot as int));
        let delta: i64 = checked_difference(slots.starts[slot], span.start_us.0)?;
        let own = RegionTranslation { old: span, delta };
        list.push(own);
        if index + 1 < slots.spans.len() && slots.spans[index + 1].start_us.0 > span.end_us.0 {
            let old = TimeRange { start_us: span.end_us, end_us: slots.spans[index + 1].start_us };
            let moved: i64 = checked_difference(slots.ends[index], span.end_us.0)?;
            let pause = RegionTranslation { old, delta: moved };
            list.push(pause);
            assert(list@ + rest =~= before + (seq![own, pause] + rest));
        } else {
            assert(list@ + rest =~= before + (seq![own] + rest));
        }
        index += 1;
    }
    assert(list@ =~= whole);
    let last: TimeRange = slots.spans[slots.spans.len() - 1];
    if last.end_us.0 < duration.0 {
        list.push(
            RegionTranslation {
                old: TimeRange { start_us: last.end_us, end_us: duration },
                delta: 0,
            },
        );
    }
    assert(list@ =~= regions(m, from as int, to as int));
    Ok(list)
}

/// The regions from a place on that a range lies in.
pub open spec fn enclosing_from(list: Seq<RegionTranslation>, range: TimeRange, index: int) -> Seq<RegionTranslation>
    decreases list.len() - index,
{
    if index < 0 || index >= list.len() {
        Seq::empty()
    } else if list[index].old.encloses(range) {
        seq![list[index]] + enclosing_from(list, range, index + 1)
    } else {
        enclosing_from(list, range, index + 1)
    }
}

pub open spec fn translation_fault(list: Seq<RegionTranslation>, range: TimeRange) -> Option<Fault> {
    let homes = enclosing_from(list, range, 0);
    or_else(
        unless(
            homes.len() == 1,
            fault_at(
                VideoErrorCode::InvalidTrack,
                "timeline item crosses a scene or inter-scene boundary and cannot be reordered safely"@,
                "timeline"@,
            ),
        ),
        shift_fault(range, homes[0].delta as int),
    )
}

pub open spec fn translated(list: Seq<RegionTranslation>, range: TimeRange) -> TimeRange {
    shifted(range, enclosing_from(list, range, 0)[0].delta as int)
}

fn translated_range(range: TimeRange, list: &Vec<RegionTranslation>) -> (result: VideoResult<TimeRange>)
    ensures
        refusal(result) == translation_fault(list@, range),
        result matches Ok(moved) ==> moved == translated(list@, range),
{
    let ghost homes = enclosing_from(list@, range, 0);
    let mut found: Vec<RegionTranslation> = Vec::new();
    let mut index: usize = 0;
    assert(found@ + enclosing_from(list@, range, 0) =~= homes);
    while index < list.len()
        invariant
            index <= list.len(),
            found@ + enclosing_from(list@, range, index as int) == homes,
        decreases list.len() - index,
    {
        if list[index].old.contains_range(range) {
            let ghost before = found@;
            let ghost rest = enclosing_from(list@, range, index + 1);
            found.push(list[index]);
            assert(found@ + rest =~= before + (seq![list[index as int]] + rest));
        }
        index += 1;
    }
    assert(found@ =~= homes);
    if found.len() != 1 {
        return Err(
            refuse(
                VideoErrorCode::InvalidTrack,
                "timeline item crosses a scene or inter-scene boundary and cannot be reordered safely",
                "timeline",
            ),
        );
    }
    checked_shift_range(range, found[0].delta)
}

// ---------------------------------------------------------------------------------------------
// The items inside the regions
// ---------------------------------------------------------------------------------------------
/// Items of a timeline that move with their region and are kept in order.
pub trait Movable: Model + Ranked {
    spec fn where_fault(item: Self::V) -> Option<Fault>;

    spec fn where_it_stands(item: Self::V) -> TimeRange;

    spec fn moved_to(item: Self::V, range: TimeRange) -> Self::V;

    fn locate(&self) -> (result: VideoResult<TimeRange>)
        ensures
            refusal(result) == Self::where_fault(self.deep_view()),
            result matches Ok(range) ==> range == Self::where_it_stands(self.deep_view()),
    ;

    fn move_to(&self, range: TimeRange) -> (moved: Self)
        ensures
            moved.deep_view() == Self::moved_to(self.deep_view(), range),
    ;
}

impl Movable for TimelineClip {
    open spec fn where_fault(item: TimelineClipModel) -> Option<Fault> {
        item.span_refusal()
    }

    open spec fn where_it_stands(item: TimelineClipModel) -> TimeRange {
        item.span()
    }

    open spec fn moved_to(item: TimelineClipModel, range: TimeRange) -> TimelineClipModel {
        TimelineClipModel { timeline_start_us: range.start_us, ..item }
    }

    fn locate(&self) -> (result: VideoResult<TimeRange>) {
        self.timeline_range()
    }

    fn move_to(&self, range: TimeRange) -> (moved: Self) {
        TimelineClip { timeline_start_us: range.start_us, ..self.duplicate() }
    }
}

impl Movable for TimelineGap {
    open spec fn where_fault(item: TimelineGapModel) -> Option<Fault> {
        None
    }

    open spec fn where_it_stands(item: TimelineGapModel) -> TimeRange {
        item.range
    }

    open spec fn moved_to(item: TimelineGapModel, range: TimeRange) -> TimelineGapModel {
        TimelineGapModel { range, ..item }
    }

    fn locate(&self) -> (result: VideoResult<TimeRange>) {
        Ok(self.range)
    }

    fn move_to(&self, range: TimeRange) -> (moved: Self) {
        TimelineGap { range, ..self.duplicate() }
    }
}

impl Movable for CaptionCue {
    open spec fn where_fault(item: CaptionCueModel) -> Option<Fault> {
        None
    }

    open spec fn where_it_stands(item: CaptionCueModel) -> TimeRange {
        item.range
    }

    open spec fn moved_to(item: CaptionCueModel, range: TimeRange) -> CaptionCueModel {
        CaptionCueModel { range, ..item }
    }

    fn locate(&self) -> (result: VideoResult<TimeRange>) {
        Ok(self.range)
    }

    fn move_to(&self, range: TimeRange) -> (moved: Self) {
        CaptionCue { range, ..self.duplicate() }
    }
}

impl Movable for VisualLayer {
    open spec fn where_fault(item: VisualLayerModel) -> Option<Fault> {
        None
    }

    open spec fn where_it_stands(item: VisualLayerModel) -> TimeRange {
        item.range
    }

    open spec fn moved_to(item: VisualLayerModel, range: TimeRange) -> VisualLayerModel {
        VisualLayerModel { range, ..item }
    }

    fn locate(&self) -> (result: VideoResult<TimeRange>) {
        Ok(self.range)
    }

    fn move_to(&self, range: TimeRange) -> (moved: Self) {
        VisualLayer { range, ..self.duplicate() }
    }
}

pub open spec fn move_fault_from<T: Movable>(list: Seq<RegionTranslation>, items: Seq<T::V>, index: int) -> Option<Fault>
    decreases items.len() - index,
{
    if index < 0 || index >= items.len() {
        None
    } else {
        or_else(
            T::where_fault(items[index]),
            or_else(
                translation_fault(list, T::where_it_stands(items[index])),
                move_fault_from::<T>(list, items, index + 1),
            ),
        )
    }
}

pub open spec fn moved_item<T: Movable>(list: Seq<RegionTranslation>, item: T::V) -> T::V {
    T::moved_to(item, translated(list, T::where_it_stands(item)))
}

/// The items moved with their regions, in order.
pub open spec fn moved_items<T: Movable>(list: Seq<RegionTranslation>, items: Seq<T::V>) -> Seq<T::V> {
    ranked::<T>(Seq::new(items.len(), |i: int| moved_item::<T>(list, items[i])))
}

fn move_all<T: Movable>(items: &Vec<T>, list: &Vec<RegionTranslation>) -> (result: VideoResult<Vec<T>>)
    ensures
        refusal(result) == move_fault_from::<T>(list@, items.deep_view(), 0),
        result matches Ok(moved) ==> moved.deep_view() == moved_items::<T>(list@, items.deep_view()),
{
    let ghost model = items.deep_view();
    let mut moved: Vec<T> = Vec::new();
    let mut index: usize = 0;
    while index < items.len()
        invariant
            index <= items.len(),
            model == items.deep_view(),
            moved.len() == index,
            forall|i: int| 0 <= i < index ==> (#[trigger] moved[i]).deep_view() == moved_item::<T>(list@, model[i]),
            move_fault_from::<T>(list@, model, 0) == move_fault_from::<T>(list@, model, index as int),
        decreases items.len() - index,
    {
        assert(model[index as int] == items[index as int].deep_view());
        let range: TimeRange = items[index].locate()?;
        let target: TimeRange = translated_range(range, list)?;
        moved.push(items[index].move_to(target));
        index += 1;
    }
    assert(moved.deep_view() =~= Seq::new(model.len(), |i: int| moved_item::<T>(list@, model[i])));
    Ok(rank(moved))
}

pub open spec fn tracks_move_fault_from(list: Seq<RegionTranslation>, tracks: Seq<TimelineTrackModel>, index: int) -> Option<
    Fault,
>
    decreases tracks.len() - index,
{
    if index < 0 || index >= tracks.len() {
        None
    } else {
        or_else(
            move_fault_from::<TimelineClip>(list, tracks[index].clips, 0),
            tracks_move_fault_from(list, tracks, index + 1),
        )
    }
}

pub open spec fn moved_track(list: Seq<RegionTranslation>, track: TimelineTrackModel) -> TimelineTrackModel {
    TimelineTrackModel { clips: moved_items::<TimelineClip>(list, track.clips), ..track }
}

pub open spec fn moved_tracks(list: Seq<RegionTranslation>, tracks: Seq<TimelineTrackModel>) -> Seq<TimelineTrackModel> {
    Seq::new(tracks.len(), |i: int| moved_track(list, tracks[i]))
}

fn move_tracks(tracks: &Vec<TimelineTrack>, list: &Vec<RegionTranslation>) -> (result: VideoResult<Vec<TimelineTrack>>)
    ensures
        refusal(result) == tracks_move_fault_from(list@, tracks.deep_view(), 0),
        result matches Ok(moved) ==> moved.deep_view() == moved_tracks(list@, tracks.deep_view()),
{
    let ghost model = tracks.deep_view();
    let mut result: Vec<TimelineTrack> = Vec::new();
    let mut index: usize = 0;
    while index < tracks.len()
        invariant
            index <= tracks.len(),
            model == tracks.deep_view(),
            result.len() == index,
            forall|i: int| 0 <= i < index ==> (#[trigger] result[i]).deep_view() == moved_track(list@, model[i]),
            tracks_move_fault_from(list@, model, 0) == tracks_move_fault_from(list@, model, index as int),
        decreases tracks.len() - index,
    {
        let track: &TimelineTrack = &tracks[index];
        assert(model[index as int] == track.deep_view());
        let clips: Vec<TimelineClip> = move_all(&track.clips, list)?;
        result.push(
            TimelineTrack {
                id: track.id.clone(),
                kind: track.kind,
                clips,
                preserve_gaps: track.preserve_gaps,
            },
        );
        index += 1;
    }
    assert(result.deep_view() =~= moved_tracks(list@, model));
    Ok(result)
}

// ---------------------------------------------------------------------------------------------
// The reorder
// ---------------------------------------------------------------------------------------------
/// The rules on the place that a scene moves to.
pub open spec fn target_fault(count: int, from: int, to: int) -> Option<Fault> {
    or_else(
        unless(
            to < count,
            fault_at(
                VideoErrorCode::InvalidScene,
                "reorder index "@ + decimal(to as nat) + " is outside 0.."@ + decimal(count as nat),
                "operations.to_index"@,
            ),
        ),
        unless(
            from != to,
            fault_at(
                VideoErrorCode::InvalidScene,
                "reorder operation must change the scene position"@,
                "operations.to_index"@,
            ),
        ),
    )
}

fn check_target(count: usize, from: usize, to: usize) -> (result: VideoResult<()>)
    ensures
        refusal(result) == target_fault(count as int, from as int, to as int),
{
    if to >= count {
        let mut message: String = String::from_str("reorder index ");
        let target: String = decimal_text(to as u64);
        let bound: String = decimal_text(count as u64);
        message.append(target.as_str());
        message.append(" is outside 0..");
        message.append(bound.as_str());
        return Err(refuse(VideoErrorCode::InvalidScene, message.as_str(), "operations.to_index"));
    }
    if from == to {
        return Err(
            refuse(
                VideoErrorCode::InvalidScene,
                "reorder operation must change the scene position",
                "operations.to_index",
            ),
        );
    }
    Ok(())
}

/// The rules on a reorder that concern the items of the timeline.
pub open spec fn reorder_items_fault(m: VideoProjectManifestModel, list: Seq<RegionTranslation>) -> Option<Fault> {
    or_else(
        tracks_move_fault_from(list, m.tracks, 0),
        or_else(
            move_fault_from::<TimelineGap>(list, m.gaps, 0),
            or_else(
                move_fault_from::<CaptionCue>(list, m.captions, 0),
                move_fault_from::<VisualLayer>(list, m.visual_layers, 0),
            ),
        ),
    )
}

/// Why a scene cannot be moved to a place.
pub open spec fn reorder_fault(m: VideoProjectManifestModel, scene_id: Seq<char>, to: int) -> Option<Fault> {
    match scene_place(m, scene_id) {
        Some(from) => or_else(
            target_fault(m.reviewed_scenes.len() as int, from, to),
            or_else(
                order_fault(m.reviewed_scenes, from, to),
                or_else(
                    regions_fault_from(m.reviewed_scenes, from, to, 0),
                    reorder_items_fault(m, regions(m, from, to)),
                ),
            ),
        ),
        None => Some(missing_scene_fault(scene_id)),
    }
}

/// The project after the scene at one place has moved to another.
pub open spec fn reorder_at(m: VideoProjectManifestModel, from: int, to: int) -> VideoProjectManifestModel {
    let list = regions(m, from, to);
    VideoProjectManifestModel {
        reviewed_scenes: reordered_scenes(m.reviewed_scenes, from, to),
        tracks: moved_tracks(list, m.tracks),
        gaps: moved_items::<TimelineGap>(list, m.gaps),
        captions: moved_items::<CaptionCue>(list, m.captions),
        visual_layers: moved_items::<VisualLayer>(list, m.visual_layers),
        ..m
    }
}

/// The project after a reorder.
pub open spec fn reorder_result(m: VideoProjectManifestModel, scene_id: Seq<char>, to: int) -> VideoProjectManifestModel {
    reorder_at(m, scene_place(m, scene_id)->0, to)
}

/// Moves a scene to another place. The pauses between scenes stay where they are in the order, and
/// everything else moves with the scene or the pause that it lies in.
pub fn reorder_scene(manifest: &VideoProjectManifest, scene_id: &str, to_index: usize) -> (result: VideoResult<
    VideoProjectManifest,
>)
    ensures
        refusal(result) == reorder_fault(manifest.deep_view(), scene_id@, to_index as int),
        result matches Ok(edited) ==> edited.deep_view() == reorder_result(
            manifest.deep_view(),
            scene_id@,
            to_index as int,
        ),
{
    let ghost m = manifest.deep_view();
    let from: usize = find_scene_index(manifest, scene_id)?;
    check_target(manifest.reviewed_scenes.len(), from, to_index)?;
    let slots: Slots = plan_slots(&manifest.reviewed_scenes, from, to_index)?;
    let list: Vec<RegionTranslation> = plan_regions(manifest, &slots, from, to_index)?;
    let reviewed_scenes: Vec<ReviewedScene> = reorder_scenes(
        &manifest.reviewed_scenes,
        from,
        to_index,
        &slots.starts,
    );
    let tracks: Vec<TimelineTrack> = move_tracks(&manifest.tracks, &list)?;
    let gaps: Vec<TimelineGap> = move_all(&manifest.gaps, &list)?;
    let captions: Vec<CaptionCue> = move_all(&manifest.captions, &list)?;
    let visual_layers: Vec<VisualLayer> = move_all(&manifest.visual_layers, &list)?;
    Ok(
        VideoProjectManifest {
            reviewed_scenes,
            tracks,
            gaps,
            captions,
            visual_layers,
            ..manifest.duplicate()
        },
    )
}


/// How far a slot starts from where the scene of the same number started.
proof fn lemma_slot_start(scenes: Seq<ReviewedSceneModel>, from: int, to: int, slot: int)
    requires
        scene_spans_fault_from(scenes, 0) is None,
        0 <= from < scenes.len(),
        0 <= to < scenes.len(),
        0 <= slot < scenes.len(),
    ensures
        slot_start(scenes, from, to, slot) == scenes[slot].span().start() + if from < slot <= to {
            scenes[slot].timeline_duration_us.0 - scenes[from].timeline_duration_us.0
        } else if to < slot <= from {
            scenes[from].timeline_duration_us.0 - scenes[slot - 1].timeline_duration_us.0
        } else {
            0
        },
    decreases slot,
{
    if slot > 0 {
        lemma_slot_start(scenes, from, to, slot - 1);
        lemma_scene_span(scenes, 0, slot - 1);
        lemma_scene_span(scenes, 0, slot);
    }
}

proof fn lemma_slot_named(scenes: Seq<ReviewedSceneModel>, from: int, to: int, slot: int, count: int)
    requires
        distinct(names::<ReviewedScene>(scenes)),
        0 <= from < scenes.len(),
        0 <= to < scenes.len(),
        0 <= slot < count <= scenes.len(),
    ensures
        slot_named(scenes, from, to, scenes[scene_in_slot(from, to, slot)].id, count) == slot,
    decreases count,
{
    let own = scene_in_slot(from, to, slot);
    let other = scene_in_slot(from, to, count - 1);
    slots_and_scenes_match(from, to, slot);
    slots_and_scenes_match(from, to, count - 1);
    if slot != count - 1 {
        assert(names::<ReviewedScene>(scenes)[own] != names::<ReviewedScene>(scenes)[other]);
        lemma_slot_named(scenes, from, to, slot, count - 1);
    }
}

/// Where no two scenes share an identifier, each starts where its own slot does.
pub proof fn each_scene_starts_in_its_slot(scenes: Seq<ReviewedSceneModel>, from: int, to: int, slot: int)
    requires
        distinct(names::<ReviewedScene>(scenes)),
        0 <= from < scenes.len(),
        0 <= to < scenes.len(),
        0 <= slot < scenes.len(),
    ensures
        reordered_scenes(scenes, from, to)[slot] == (ReviewedSceneModel {
            timeline_start_us: Microseconds(slot_start(scenes, from, to, slot) as i64),
            ..scenes[scene_in_slot(from, to, slot)]
        }),
{
    lemma_slot_named(scenes, from, to, slot, scenes.len() as int);
}

/// A reorder neither adds nor takes time: the last scene ends where the last scene ended before.
pub proof fn a_reorder_keeps_the_total_length(scenes: Seq<ReviewedSceneModel>, from: int, to: int)
    requires
        scene_spans_fault_from(scenes, 0) is None,
        0 <= from < scenes.len(),
        0 <= to < scenes.len(),
    ensures
        slot_end(scenes, from, to, scenes.len() - 1) == scenes.last().span().end(),
        aggregate_fault(scenes, from, to) is None,
{
    lemma_slot_start(scenes, from, to, scenes.len() - 1);
    lemma_scene_span(scenes, 0, scenes.len() - 1);
}

/// A reorder changes when a clip plays and nothing else of it: every clip of a track is still there,
/// with its media and the part of it that it plays.
pub proof fn a_reorder_keeps_what_is_played(m: VideoProjectManifestModel, from: int, to: int, track: int, index: int)
    requires
        0 <= track < m.tracks.len(),
        0 <= index < m.tracks[track].clips.len(),
    ensures
        reorder_at(m, from, to).tracks.len() == m.tracks.len(),
        reorder_at(m, from, to).tracks[track].clips.len() == m.tracks[track].clips.len(),
        exists|place: int|
            0 <= place < m.tracks[track].clips.len() && (#[trigger] reorder_at(m, from, to).tracks[track].clips[place])
                == (TimelineClipModel {
                timeline_start_us: reorder_at(m, from, to).tracks[track].clips[place].timeline_start_us,
                ..m.tracks[track].clips[index]
            }),
{
    broadcast use vstd::seq_lib::group_to_multiset_ensures;

    let list = regions(m, from, to);
    let clips = m.tracks[track].clips;
    let moved = Seq::new(clips.len(), |i: int| moved_item::<TimelineClip>(list, clips[i]));
    let after = reorder_at(m, from, to).tracks[track].clips;
    ranked_is_a_sorted_permutation::<TimelineClip>(moved);
    assert(after == ranked::<TimelineClip>(moved));
    assert(moved.contains(moved[index]));
    assert(after.to_multiset().count(moved[index]) > 0);
    assert(after.contains(moved[index]));
    let place = choose|place: int| 0 <= place < after.len() && after[place] == moved[index];
    assert(after[place] == moved_item::<TimelineClip>(list, clips[index]));
}

/// A reorder puts the scene where it was asked to go; the others keep their order, and every scene keeps its
/// length. The first starts where the first did, and each pause between two scenes is as long as the pause
/// between the scenes of the same numbers was.
pub proof fn a_reorder_moves_one_scene(m: VideoProjectManifestModel, scene_id: Seq<char>, to: int)
    requires
        reorder_fault(m, scene_id, to) is None,
        distinct(names::<ReviewedScene>(m.reviewed_scenes)),
        0 <= to,
    ensures
        ({
            let from = scene_place(m, scene_id)->0;
            let before = m.reviewed_scenes;
            let after = reorder_result(m, scene_id, to).reviewed_scenes;
            &&& 0 <= from < before.len()
            &&& to < before.len()
            &&& from != to
            &&& after.len() == before.len()
            &&& after[to].id == scene_id
            &&& forall|k: int|
                0 <= k < before.len() - 1 ==> {
                    let old_scene = #[trigger] before.remove(from)[k];
                    let new_scene = after.remove(to)[k];
                    new_scene == ReviewedSceneModel { timeline_start_us: new_scene.timeline_start_us, ..old_scene }
                }
            &&& after[to] == ReviewedSceneModel { timeline_start_us: after[to].timeline_start_us, ..before[from] }
            &&& after[0].timeline_start_us == before[0].timeline_start_us
            &&& forall|slot: int|
                0 <= slot < before.len() - 1 ==> #[trigger] after[slot + 1].timeline_start_us.0 - (
                after[slot].timeline_start_us.0 + after[slot].timeline_duration_us.0) == before[slot
                    + 1].timeline_start_us.0 - (before[slot].timeline_start_us.0 + before[slot].timeline_duration_us.0)
        }),
{
    let from = scene_place(m, scene_id)->0;
    let before = m.reviewed_scenes;
    let after = reorder_result(m, scene_id, to).reviewed_scenes;
    lemma_place_from::<ReviewedScene>(before, scene_id, 0);
    assert forall|slot: int| 0 <= slot < before.len() implies (#[trigger] after[slot]).timeline_start_us.0 == slot_start(
        before,
        from,
        to,
        slot,
    ) && after[slot].timeline_duration_us == before[scene_in_slot(from, to, slot)].timeline_duration_us
        && before[slot].span_refusal() is None by {
        each_scene_starts_in_its_slot(before, from, to, slot);
        lemma_slot_on_clock(before, from, to, 0, slot);
        lemma_scene_span(before, 0, slot);
    }
    assert forall|k: int| 0 <= k < before.len() - 1 implies {
        let old_scene = #[trigger] before.remove(from)[k];
        let new_scene = after.remove(to)[k];
        new_scene == ReviewedSceneModel { timeline_start_us: new_scene.timeline_start_us, ..old_scene }
    } by {
        let slot = if k < to {
            k
        } else {
            k + 1
        };
        assert(after.remove(to)[k] == after[slot]);
        assert(before.remove(from)[k] == before[scene_in_slot(from, to, slot)]);
    }
    assert(after[0].timeline_start_us.0 == before[0].span().start());
    assert forall|slot: int| 0 <= slot < before.len() - 1 implies #[trigger] after[slot + 1].timeline_start_us.0 - (
    after[slot].timeline_start_us.0 + after[slot].timeline_duration_us.0) == before[slot + 1].timeline_start_us.0 - (
    before[slot].timeline_start_us.0 + before[slot].timeline_duration_us.0) by {
        assert(after[slot].timeline_start_us.0 == slot_start(before, from, to, slot));
        assert(before[slot].span_refusal() is None);
        assert(before[slot + 1].span_refusal() is None);
    }
}

proof fn lemma_slot_on_clock(scenes: Seq<ReviewedSceneModel>, from: int, to: int, first: int, slot: int)
    requires
        0 <= first <= slot < scenes.len(),
        scenes.len() > 0,
        slots_fault_from(scenes, from, to, first) is None,
        on_clock(slot_start(scenes, from, to, first)),
    ensures
        on_clock(slot_start(scenes, from, to, slot)),
    decreases slot - first,
{
    if first < slot {
        lemma_slot_on_clock(scenes, from, to, first + 1, slot);
    }
}

/// What lies in a scene moves with it: on the timeline it is as far into the scene as it was, and as long.
pub proof fn items_move_with_their_scene(
    m: VideoProjectManifestModel,
    scene_id: Seq<char>,
    to: int,
    index: int,
    range: TimeRange,
)
    requires
        reorder_fault(m, scene_id, to) is None,
        distinct(names::<ReviewedScene>(m.reviewed_scenes)),
        0 <= to,
        0 <= index < m.reviewed_scenes.len(),
        m.reviewed_scenes[index].span().encloses(range),
        translation_fault(regions(m, scene_place(m, scene_id)->0, to), range) is None,
    ensures
        ({
            let from = scene_place(m, scene_id)->0;
            let after = reorder_result(m, scene_id, to).reviewed_scenes;
            let scene = m.reviewed_scenes[index];
            let moved = translated(regions(m, from, to), range);
            exists|slot: int|
                0 <= slot < after.len() && (#[trigger] after[slot]).id == scene.id && moved.start_us.0
                    - after[slot].timeline_start_us.0 == range.start_us.0 - scene.timeline_start_us.0
                    && moved.end_us.0 - moved.start_us.0 == range.end_us.0 - range.start_us.0
        }),
{
    let from = scene_place(m, scene_id)->0;
    let before = m.reviewed_scenes;
    let after = reorder_result(m, scene_id, to).reviewed_scenes;
    lemma_place_from::<ReviewedScene>(before, scene_id, 0);
    let list = regions(m, from, to);
    let slot = slot_of_scene(from, to, index);
    slots_and_scenes_match(from, to, index);
    each_scene_starts_in_its_slot(before, from, to, slot);
    lemma_slot_on_clock(before, from, to, 0, slot);
    lemma_slot_named(before, from, to, slot, before.len() as int);
    lemma_scene_span(before, 0, index);
    let own = region(before[index].span(), scene_delta(before, from, to, index));
    let place = lemma_region_of(before, from, to, 0, index);
    let middle = regions_from(before, from, to, 0);
    assert(list[lead_in(before).len() + place] == middle[place]);
    lemma_region_on_clock(before, from, to, 0, index);
    lemma_one_home(list, range, 0, lead_in(before).len() + place);
    assert(after[slot].id == before[index].id);
}

proof fn lemma_region_of(scenes: Seq<ReviewedSceneModel>, from: int, to: int, first: int, index: int) -> (place: int)
    requires
        0 <= first <= index < scenes.len(),
    ensures
        0 <= place < regions_from(scenes, from, to, first).len(),
        regions_from(scenes, from, to, first)[place] == region(
            scenes[index].span(),
            scene_delta(scenes, from, to, index),
        ),
    decreases index - first,
{
    if first < index {
        let place = lemma_region_of(scenes, from, to, first + 1, index);
        let rest = regions_from(scenes, from, to, first + 1);
        let all = regions_from(scenes, from, to, first);
        let more = all.len() - rest.len();
        assert(all[place + more] == rest[place]);
        place + more
    } else {
        0
    }
}

proof fn lemma_region_on_clock(scenes: Seq<ReviewedSceneModel>, from: int, to: int, first: int, index: int)
    requires
        0 <= first <= index < scenes.len(),
        regions_fault_from(scenes, from, to, first) is None,
    ensures
        on_clock(scene_delta(scenes, from, to, index)),
    decreases index - first,
{
    if first < index {
        lemma_region_on_clock(scenes, from, to, first + 1, index);
    }
}

proof fn lemma_one_home(list: Seq<RegionTranslation>, range: TimeRange, from: int, place: int)
    requires
        0 <= from <= place < list.len(),
        list[place].old.encloses(range),
        enclosing_from(list, range, from).len() <= 1,
    ensures
        enclosing_from(list, range, from).len() == 1,
        enclosing_from(list, range, from)[0] == list[place],
    decreases place - from,
{
    if from < place {
        lemma_one_home(list, range, from + 1, place);
    }
}

/// Every gap, caption and visual layer is still there once a scene has moved, where its region moved it and
/// otherwise as it was; a clip keeps its length.
pub proof fn a_reorder_only_moves_items(
    m: VideoProjectManifestModel,
    from: int,
    to: int,
    clip: TimelineClipModel,
    gap: int,
    caption: int,
    layer: int,
)
    requires
        0 <= gap < m.gaps.len(),
        0 <= caption < m.captions.len(),
        0 <= layer < m.visual_layers.len(),
    ensures
        ({
            let list = regions(m, from, to);
            let after = reorder_at(m, from, to);
            let span = clip.span();
            &&& moved_item::<TimelineClip>(list, clip) == (TimelineClipModel {
                timeline_start_us: translated(list, span).start_us,
                ..clip
            })
            &&& after.gaps.len() == m.gaps.len()
            &&& after.captions.len() == m.captions.len()
            &&& after.visual_layers.len() == m.visual_layers.len()
            &&& after.gaps.contains(
                TimelineGapModel { range: translated(list, m.gaps[gap].range), ..m.gaps[gap] },
            )
            &&& after.captions.contains(
                CaptionCueModel { range: translated(list, m.captions[caption].range), ..m.captions[caption] },
            )
            &&& after.visual_layers.contains(
                VisualLayerModel { range: translated(list, m.visual_layers[layer].range), ..m.visual_layers[layer] },
            )
        }),
{
    let list = regions(m, from, to);
    lemma_moved_items::<TimelineGap>(list, m.gaps, gap);
    lemma_moved_items::<CaptionCue>(list, m.captions, caption);
    lemma_moved_items::<VisualLayer>(list, m.visual_layers, layer);
}

proof fn lemma_moved_items<T: Movable>(list: Seq<RegionTranslation>, items: Seq<T::V>, index: int)
    requires
        0 <= index < items.len(),
    ensures
        moved_items::<T>(list, items).len() == items.len(),
        moved_items::<T>(list, items).contains(moved_item::<T>(list, items[index])),
{
    broadcast use vstd::seq_lib::group_to_multiset_ensures;

    let moved = Seq::new(items.len(), |i: int| moved_item::<T>(list, items[i]));
    let after = moved_items::<T>(list, items);
    ranked_is_a_sorted_permutation::<T>(moved);
    assert(moved.contains(moved[index]));
    assert(after.to_multiset().count(moved[index]) > 0);
}

/// What lies in a pause stays in it: it is as far behind the end of the scene before the pause as it was, and as long,
/// whichever scene now stands there.
pub proof fn what_lies_in_a_pause_stays_in_it(
    m: VideoProjectManifestModel,
    scene_id: Seq<char>,
    to: int,
    slot: int,
    range: TimeRange,
)
    requires
        reorder_fault(m, scene_id, to) is None,
        distinct(names::<ReviewedScene>(m.reviewed_scenes)),
        0 <= to,
        0 <= slot < m.reviewed_scenes.len() - 1,
        range.start_us.0 < range.end_us.0,
        m.reviewed_scenes[slot].timeline_start_us.0 + m.reviewed_scenes[slot].timeline_duration_us.0 <= range.start_us.0,
        range.end_us.0 <= m.reviewed_scenes[slot + 1].timeline_start_us.0,
        translation_fault(regions(m, scene_place(m, scene_id)->0, to), range) is None,
    ensures
        ({
            let from = scene_place(m, scene_id)->0;
            let before = m.reviewed_scenes[slot];
            let after = reorder_result(m, scene_id, to).reviewed_scenes[slot];
            let moved = translated(regions(m, from, to), range);
            &&& moved.start_us.0 - (after.timeline_start_us.0 + after.timeline_duration_us.0) == range.start_us.0 - (
            before.timeline_start_us.0 + before.timeline_duration_us.0)
            &&& moved.end_us.0 - moved.start_us.0 == range.end_us.0 - range.start_us.0
        }),
{
    let from = scene_place(m, scene_id)->0;
    let scenes = m.reviewed_scenes;
    lemma_place_from::<ReviewedScene>(scenes, scene_id, 0);
    let list = regions(m, from, to);
    each_scene_starts_in_its_slot(scenes, from, to, slot);
    lemma_slot_on_clock(scenes, from, to, 0, slot);
    lemma_scene_span(scenes, 0, slot);
    lemma_scene_span(scenes, 0, slot + 1);
    let place = lemma_pause_of(scenes, from, to, 0, slot);
    let middle = regions_from(scenes, from, to, 0);
    assert(list[lead_in(scenes).len() + place] == middle[place]);
    lemma_pause_on_clock(scenes, from, to, 0, slot);
    lemma_one_home(list, range, 0, lead_in(scenes).len() + place);
}

proof fn lemma_pause_of(scenes: Seq<ReviewedSceneModel>, from: int, to: int, first: int, slot: int) -> (place: int)
    requires
        0 <= first <= slot < scenes.len() - 1,
        pause_after(scenes, slot) > 0,
    ensures
        0 <= place < regions_from(scenes, from, to, first).len(),
        regions_from(scenes, from, to, first)[place] == region(
            range_between(scenes[slot].span().end(), scenes[slot + 1].span().start()),
            pause_delta(scenes, from, to, slot),
        ),
    decreases slot - first,
{
    if first < slot {
        let place = lemma_pause_of(scenes, from, to, first + 1, slot);
        let rest = regions_from(scenes, from, to, first + 1);
        let all = regions_from(scenes, from, to, first);
        let more = all.len() - rest.len();
        assert(all[place + more] == rest[place]);
        place + more
    } else {
        1
    }
}

proof fn lemma_pause_on_clock(scenes: Seq<ReviewedSceneModel>, from: int, to: int, first: int, slot: int)
    requires
        0 <= first <= slot < scenes.len() - 1,
        regions_fault_from(scenes, from, to, first) is None,
        pause_after(scenes, slot) > 0,
    ensures
        on_clock(pause_delta(scenes, from, to, slot)),
    decreases slot - first,
{
    if first < slot {
        lemma_pause_on_clock(scenes, from, to, first + 1, slot);
    }
}

} // verus!
