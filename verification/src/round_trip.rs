//! The law that ties split and merge together: what a split divides, a merge restores.

use crate::edit_shared::{lemma_anchor_in_tracks, lemma_caption_division, scene_place, source_anchor, split_id};
use crate::manifest::{
    CaptionCue, CaptionCueModel, LayoutElement, LayoutElementModel, ReviewedScene, ReviewedSceneModel, TimelineClip,
    TimelineClipModel, TimelineGap, TimelineGapModel, TimelineTrackModel, VideoProjectManifest,
    VideoProjectManifestModel, VisualLayer,
};
use crate::manifest_rules::{
    artifacts_fault_from, captions_fault_from, clips_of_a_track_stay_apart, element_scenes_fault_from,
    identifiers_are_distinct, narrations_fault_from,
};
use crate::merge::{
    copies_fault_from, is_copy_id, join_fault_from, layout_join_fault, merge_fault, merge_result, merged_from,
    merge_at, merge_items_fault, merged_layers, merged_track, merged_tracks, none_joined, partner, partner_from,
    siblings_at, siblings_fault, ties_from, tracks_join_fault_from, tracks_tie_from, whole_scene, without_copies_from,
    Joinable, SiblingsModel,
};
use crate::model::{holds, lemma_place_from, names, place_of, Named};
use crate::ownership::{
    editable_fault, lemma_scene_span, owned_clips_fault_from, owned_fault_from, scene_order_fault_from,
    scene_spans_fault_from, SceneOwned,
};
use crate::rules::distinct;
use crate::split::{
    clip_ids_from, cut_caption, divide_fault_from, divided_from, divided_tracks, division_fault, has_dependents,
    left_half, right_half, scene_cut, split_at, split_fault, split_items_fault, split_layers, split_result,
    split_scene_fault, straddles, taken_after, tracks_divide_fault_from, Divisible, SceneCutModel,
};
use crate::time::{on_clock, range_fault, Microseconds, TimeRange, Validate};
use vstd::prelude::*;

verus! {

/// Where the pieces of an item stand among the divided items.
pub open spec fn piece_place<T: Divisible>(cut: SceneCutModel, items: Seq<T::V>, index: int) -> int {
    divided_from::<T>(cut, items, 0).len() - divided_from::<T>(cut, items, index).len()
}

/// The pieces of an item stand where its place says, and the rest follows them.
proof fn lemma_pieces_stand<T: Divisible>(cut: SceneCutModel, items: Seq<T::V>, index: int)
    requires
        0 <= index <= items.len(),
    ensures
        0 <= piece_place::<T>(cut, items, index),
        divided_from::<T>(cut, items, 0).skip(piece_place::<T>(cut, items, index)) =~= divided_from::<T>(
            cut,
            items,
            index,
        ),
        index < items.len() ==> {
            let place = piece_place::<T>(cut, items, index);
            let pieces = T::pieces(cut, items[index]);
            let divided = divided_from::<T>(cut, items, 0);
            &&& place < divided.len()
            &&& divided[place] == pieces.0
            &&& pieces.1 is None ==> piece_place::<T>(cut, items, index + 1) == place + 1
            &&& pieces.1 is Some ==> place + 1 < divided.len() && divided[place + 1] == pieces.1->0
                && piece_place::<T>(cut, items, index + 1) == place + 2
        },
    decreases index,
{
    let divided = divided_from::<T>(cut, items, 0);
    if index > 0 {
        lemma_pieces_stand::<T>(cut, items, index - 1);
        let before = piece_place::<T>(cut, items, index - 1);
        let step = piece_place::<T>(cut, items, index) - before;
        assert(divided.skip(before) =~= divided_from::<T>(cut, items, index - 1));
        assert(divided.skip(before + step) =~= divided.skip(before).skip(step));
        let pieces = T::pieces(cut, items[index - 1]);
        let rest = divided_from::<T>(cut, items, index);
        match pieces.1 {
            Some(right) => {
                assert((seq![pieces.0, right] + rest).skip(2) =~= rest);
            },
            None => {
                assert((seq![pieces.0] + rest).skip(1) =~= rest);
            },
        }
    }
    if index < items.len() {
        let place = piece_place::<T>(cut, items, index);
        let tail = divided.skip(place);
        assert(tail[0] == divided[place]);
        if T::pieces(cut, items[index]).1 is Some {
            assert(tail[1] == divided[place + 1]);
        }
    }
}

/// Every divided item is a piece of an item.
proof fn lemma_piece_of<T: Divisible>(cut: SceneCutModel, items: Seq<T::V>, from: int, place: int) -> (index: int)
    requires
        0 <= from <= items.len(),
        piece_place::<T>(cut, items, from) <= place < divided_from::<T>(cut, items, 0).len(),
    ensures
        from <= index < items.len(),
        place == piece_place::<T>(cut, items, index) || (place == piece_place::<T>(cut, items, index) + 1
            && T::pieces(cut, items[index]).1 is Some),
    decreases items.len() - from,
{
    lemma_pieces_stand::<T>(cut, items, from);
    if from == items.len() {
        assert(false);
        from
    } else if place < piece_place::<T>(cut, items, from + 1) {
        from
    } else {
        lemma_piece_of::<T>(cut, items, from + 1, place)
    }
}

/// The names of divided items are distinct where the names of the items are and no derived name was
/// taken.
proof fn lemma_divided_names<T: Divisible>(
    cut: SceneCutModel,
    items: Seq<T::V>,
    index: int,
    taken: Set<Seq<char>>,
)
    requires
        0 <= index <= items.len(),
        distinct(names::<T>(items)),
        forall|i: int| 0 <= i < items.len() ==> taken.contains(T::name_of(#[trigger] items[i])),
        forall|i: int|
            0 <= i < items.len() ==> T::name_of(T::pieces(cut, #[trigger] items[i]).0) == T::name_of(items[i]),
        divide_fault_from::<T>(cut, items, index, taken) is None,
    ensures
        distinct(names::<T>(divided_from::<T>(cut, items, index))),
        forall|j: int|
            0 <= j < divided_from::<T>(cut, items, index).len() ==> {
                let name = T::name_of(#[trigger] divided_from::<T>(cut, items, index)[j]);
                !taken.contains(name) || exists|i: int| index <= i < items.len() && name == T::name_of(items[i])
            },
    decreases items.len() - index,
{
    if index < items.len() {
        let pieces = T::pieces(cut, items[index]);
        let whole = divided_from::<T>(cut, items, index);
        let rest = divided_from::<T>(cut, items, index + 1);
        let seen = match pieces.1 {
            Some(right) => taken.insert(T::name_of(right)),
            None => taken,
        };
        let lead = match pieces.1 {
            Some(right) => seq![pieces.0, right],
            None => seq![pieces.0],
        };
        lemma_divided_names::<T>(cut, items, index + 1, seen);
        assert(whole =~= lead + rest);
        let own = T::name_of(items[index]);
        assert(taken.contains(own));
        assert forall|j: int| 0 <= j < rest.len() implies T::name_of(#[trigger] rest[j]) != own && (pieces.1
            is Some ==> T::name_of(rest[j]) != T::name_of(pieces.1->0)) by {
            let name = T::name_of(rest[j]);
            if seen.contains(name) {
                let i = choose|i: int| index + 1 <= i < items.len() && name == T::name_of(items[i]);
                assert(names::<T>(items)[i] != names::<T>(items)[index]);
                assert(taken.contains(T::name_of(items[i])));
            }
        }
        assert forall|a: int, b: int| 0 <= a < b < whole.len() implies #[trigger] names::<T>(whole)[a]
            != #[trigger] names::<T>(whole)[b] by {
            if a >= lead.len() {
                assert(names::<T>(rest)[a - lead.len()] != names::<T>(rest)[b - lead.len()]);
            } else if b >= lead.len() {
                assert(whole[b] == rest[b - lead.len()]);
            }
        }
        assert forall|j: int| 0 <= j < whole.len() implies {
            let name = T::name_of(#[trigger] whole[j]);
            !taken.contains(name) || exists|i: int| index <= i < items.len() && name == T::name_of(items[i])
        } by {
            if j >= lead.len() {
                let name = T::name_of(rest[j - lead.len()]);
                assert(whole[j] == rest[j - lead.len()]);
                if taken.contains(name) {
                    let i = choose|i: int| index + 1 <= i < items.len() && name == T::name_of(items[i]);
                    assert(index <= i < items.len() && name == T::name_of(items[i]));
                }
            } else if j == 0 {
                assert(T::name_of(whole[0]) == T::name_of(items[index]));
            }
        }
    }
}

/// Whether a merge restores an item from its pieces.
pub open spec fn comes_back<T: Divisible + Joinable>(cut: SceneCutModel, pair: SiblingsModel, item: T::V) -> bool {
    let pieces = T::pieces(cut, item);
    &&& T::name_of(pieces.0) == T::name_of(item)
    &&& T::item_fault(pieces.0) is None
    &&& match pieces.1 {
        Some(right) => {
            &&& T::ends_at(pieces.0) == cut.at.0
            &&& T::name_of(right) == split_id(T::kind(), T::name_of(item), cut.at.0 as int)
            &&& T::starts_at(right) == cut.at.0
            &&& T::pair_fault(pair, pieces.0, right) is None
            &&& T::joined(pieces.0, right) == item
        },
        None => T::kept(pair, pieces.0) == item,
    }
}

/// Whether no item that ends at the cut, undivided, looks like the left half of another.
pub open spec fn no_false_halves<T: Divisible + Joinable>(cut: SceneCutModel, items: Seq<T::V>) -> bool {
    forall|i: int, j: int|
        0 <= i < items.len() && 0 <= j < divided_from::<T>(cut, items, 0).len() && T::pieces(
            cut,
            #[trigger] items[i],
        ).1 is None && T::ends_at(T::pieces(cut, items[i]).0) == cut.at.0 && T::starts_at(
            #[trigger] divided_from::<T>(cut, items, 0)[j],
        ) == cut.at.0 ==> T::name_of(divided_from::<T>(cut, items, 0)[j]) != split_id(
            T::kind(),
            T::name_of(items[i]),
            cut.at.0 as int,
        )
}

proof fn lemma_partner_at<T: Joinable>(
    items: Seq<T::V>,
    id: Seq<char>,
    boundary: int,
    joined: Seq<bool>,
    from: int,
    place: int,
)
    requires
        0 <= from <= place < items.len(),
        distinct(names::<T>(items)),
        !joined[place],
        T::name_of(items[place]) == id,
        T::starts_at(items[place]) == boundary,
    ensures
        partner_from::<T>(items, id, boundary, joined, from) == Some(place),
    decreases place - from,
{
    if from < place {
        assert(names::<T>(items)[from] != names::<T>(items)[place]);
        lemma_partner_at::<T>(items, id, boundary, joined, from + 1, place);
    }
}

proof fn lemma_no_partner<T: Joinable>(items: Seq<T::V>, id: Seq<char>, boundary: int, joined: Seq<bool>, from: int)
    requires
        0 <= from <= items.len(),
        forall|j: int|
            0 <= j < items.len() && T::starts_at(#[trigger] items[j]) == boundary ==> T::name_of(items[j]) != id,
    ensures
        partner_from::<T>(items, id, boundary, joined, from) is None,
    decreases items.len() - from,
{
    if from < items.len() {
        lemma_no_partner::<T>(items, id, boundary, joined, from + 1);
    }
}

/// Joining divided items gives the items back.
proof fn lemma_join_restores<T: Divisible + Joinable>(
    cut: SceneCutModel,
    pair: SiblingsModel,
    items: Seq<T::V>,
    index: int,
    joined: Seq<bool>,
)
    requires
        0 <= index <= items.len(),
        pair.boundary == cut.at,
        joined.len() == divided_from::<T>(cut, items, 0).len(),
        forall|q: int| piece_place::<T>(cut, items, index) <= q < joined.len() ==> !joined[q],
        distinct(names::<T>(divided_from::<T>(cut, items, 0))),
        forall|i: int| 0 <= i < items.len() ==> comes_back::<T>(cut, pair, #[trigger] items[i]),
        no_false_halves::<T>(cut, items),
    ensures
        merged_from::<T>(
            pair,
            divided_from::<T>(cut, items, 0),
            joined,
            piece_place::<T>(cut, items, index),
        ) =~= items.skip(index),
        join_fault_from::<T>(
            pair,
            divided_from::<T>(cut, items, 0),
            joined,
            piece_place::<T>(cut, items, index),
        ) is None,
        forall|i: int|
            index <= i < items.len() && T::pieces(cut, #[trigger] items[i]).1 is Some && T::ties(
                pair,
                T::pieces(cut, items[i]).0,
                T::pieces(cut, items[i]).1->0,
            ) ==> ties_from::<T>(
                pair,
                divided_from::<T>(cut, items, 0),
                joined,
                piece_place::<T>(cut, items, index),
            ),
    decreases items.len() - index,
{
    let divided = divided_from::<T>(cut, items, 0);
    let place = piece_place::<T>(cut, items, index);
    lemma_pieces_stand::<T>(cut, items, index);
    if index < items.len() {
        let pieces = T::pieces(cut, items[index]);
        assert(comes_back::<T>(cut, pair, items[index]));
        assert(!joined[place]);
        assert(items.skip(index) =~= seq![items[index]] + items.skip(index + 1));
        match pieces.1 {
            Some(right) => {
                lemma_partner_at::<T>(
                    divided,
                    T::name_of(right),
                    cut.at.0 as int,
                    joined,
                    0,
                    place + 1,
                );
                assert(partner::<T>(pair, divided, joined, place) == Some(place + 1));
                let next = joined.update(place + 1, true);
                assert(next[place + 1]);
                lemma_join_restores::<T>(cut, pair, items, index + 1, next);
                assert(merged_from::<T>(pair, divided, next, place + 1) == merged_from::<T>(
                    pair,
                    divided,
                    next,
                    place + 2,
                ));
                assert(join_fault_from::<T>(pair, divided, next, place + 1) == join_fault_from::<T>(
                    pair,
                    divided,
                    next,
                    place + 2,
                ));
                assert(ties_from::<T>(pair, divided, next, place + 1) == ties_from::<T>(
                    pair,
                    divided,
                    next,
                    place + 2,
                ));
            },
            None => {
                if T::ends_at(pieces.0) == cut.at.0 {
                    lemma_no_partner::<T>(
                        divided,
                        split_id(T::kind(), T::name_of(items[index]), cut.at.0 as int),
                        cut.at.0 as int,
                        joined,
                        0,
                    );
                }
                assert(partner::<T>(pair, divided, joined, place) is None);
                lemma_join_restores::<T>(cut, pair, items, index + 1, joined);
            },
        }
    }
}


// ---------------------------------------------------------------------------------------------
// Each kind of item
// ---------------------------------------------------------------------------------------------
/// Whether two scenes are the halves that a cut makes.
pub open spec fn halves_of(cut: SceneCutModel, pair: SiblingsModel) -> bool {
    &&& pair.boundary == cut.at
    &&& pair.first.id == cut.scene_id
    &&& pair.second.id == cut.right_id
}

/// Whether an item that the cut divides belongs to the cut scene, or to none.
pub open spec fn owned_where_divided(cut: SceneCutModel, owner: Option<Seq<char>>, span: TimeRange) -> bool {
    &&& owner != Some(cut.right_id)
    &&& straddles(cut, span) ==> owner is None || owner == Some(cut.scene_id)
}

proof fn lemma_clip_comes_back(cut: SceneCutModel, pair: SiblingsModel, clip: TimelineClipModel)
    requires
        halves_of(cut, pair),
        division_fault::<TimelineClip>(cut, clip) is None,
        owned_where_divided(cut, clip.scene_id, clip.span()),
    ensures
        comes_back::<TimelineClip>(cut, pair, clip),
{
}

proof fn lemma_gap_comes_back(cut: SceneCutModel, pair: SiblingsModel, gap: TimelineGapModel)
    requires
        halves_of(cut, pair),
        division_fault::<TimelineGap>(cut, gap) is None,
    ensures
        comes_back::<TimelineGap>(cut, pair, gap),
{
}

proof fn lemma_caption_comes_back(cut: SceneCutModel, pair: SiblingsModel, caption: CaptionCueModel)
    requires
        halves_of(cut, pair),
        division_fault::<CaptionCue>(cut, caption) is None,
        CaptionCue::fault_of(caption) is None,
        owned_where_divided(cut, caption.scene_id, caption.range),
    ensures
        comes_back::<CaptionCue>(cut, pair, caption),
{
    if straddles(cut, caption.range) {
        lemma_caption_division(cut.transcript, caption, cut.at.0 as int, cut.source_at.0 as int, true);
        let place = cut_caption(cut, caption)->Ok_0;
        assert(caption.text.take(place) + caption.text.skip(place) =~= caption.text);
    }
}

/// A merge takes the copies of layout elements away that a split made.
proof fn lemma_layout_restores(cut: SceneCutModel, pair: SiblingsModel, elements: Seq<LayoutElementModel>)
    requires
        halves_of(cut, pair),
        cut.scene_id != cut.right_id,
        forall|i: int| 0 <= i < elements.len() ==> (#[trigger] elements[i]).scene_id != Some(cut.right_id),
        distinct(names::<LayoutElement>(divided_from::<LayoutElement>(cut, elements, 0))),
    ensures
        layout_join_fault(pair, divided_from::<LayoutElement>(cut, elements, 0)) is None,
        without_copies_from(pair, divided_from::<LayoutElement>(cut, elements, 0), 0) =~= elements,
{
    let divided = divided_from::<LayoutElement>(cut, elements, 0);
    lemma_copies_found(cut, pair, elements, 0);
    assert forall|j: int| 0 <= j < divided.len() && (#[trigger] divided[j]).scene_id == Some(
        pair.second.id,
    ) implies is_copy_id(pair, divided, divided.len() as int, divided[j].id) by {
        let k = lemma_piece_of::<LayoutElement>(cut, elements, 0, j);
        lemma_pieces_stand::<LayoutElement>(cut, elements, k);
        assert(elements[k].scene_id != Some(cut.right_id));
        let left = piece_place::<LayoutElement>(cut, elements, k);
        assert(divided[left].scene_id == Some(pair.first.id));
    }
    lemma_copies_leave(cut, pair, elements, 0);
    assert(elements.skip(0) =~= elements);
}

proof fn lemma_copies_found(cut: SceneCutModel, pair: SiblingsModel, elements: Seq<LayoutElementModel>, from: int)
    requires
        halves_of(cut, pair),
        cut.scene_id != cut.right_id,
        0 <= from <= divided_from::<LayoutElement>(cut, elements, 0).len(),
        forall|i: int| 0 <= i < elements.len() ==> (#[trigger] elements[i]).scene_id != Some(cut.right_id),
        distinct(names::<LayoutElement>(divided_from::<LayoutElement>(cut, elements, 0))),
    ensures
        copies_fault_from(pair, divided_from::<LayoutElement>(cut, elements, 0), from) is None,
    decreases divided_from::<LayoutElement>(cut, elements, 0).len() - from,
{
    let divided = divided_from::<LayoutElement>(cut, elements, 0);
    if from < divided.len() {
        if divided[from].scene_id == Some(pair.first.id) {
            let k = lemma_piece_of::<LayoutElement>(cut, elements, 0, from);
            lemma_pieces_stand::<LayoutElement>(cut, elements, k);
            let left = piece_place::<LayoutElement>(cut, elements, k);
            let id = split_id("layout"@, divided[from].id, pair.boundary.0 as int);
            lemma_place_from::<LayoutElement>(divided, id, 0);
            assert(divided[left + 1].id == id);
            let found = place_of::<LayoutElement>(divided, id)->0;
            if found != left + 1 {
                if found < left + 1 {
                    assert(names::<LayoutElement>(divided)[found] != names::<LayoutElement>(divided)[left + 1]);
                } else {
                    assert(names::<LayoutElement>(divided)[left + 1] != names::<LayoutElement>(divided)[found]);
                }
            }
        }
        lemma_copies_found(cut, pair, elements, from + 1);
    }
}

proof fn lemma_copies_leave(cut: SceneCutModel, pair: SiblingsModel, elements: Seq<LayoutElementModel>, index: int)
    requires
        halves_of(cut, pair),
        cut.scene_id != cut.right_id,
        0 <= index <= elements.len(),
        forall|i: int| 0 <= i < elements.len() ==> (#[trigger] elements[i]).scene_id != Some(cut.right_id),
        distinct(names::<LayoutElement>(divided_from::<LayoutElement>(cut, elements, 0))),
    ensures
        without_copies_from(
            pair,
            divided_from::<LayoutElement>(cut, elements, 0),
            piece_place::<LayoutElement>(cut, elements, index),
        ) =~= elements.skip(index),
    decreases elements.len() - index,
{
    let divided = divided_from::<LayoutElement>(cut, elements, 0);
    lemma_pieces_stand::<LayoutElement>(cut, elements, index);
    if index < elements.len() {
        let place = piece_place::<LayoutElement>(cut, elements, index);
        let count = divided.len() as int;
        lemma_copies_leave(cut, pair, elements, index + 1);
        assert(elements.skip(index) =~= seq![elements[index]] + elements.skip(index + 1));
        if is_copy_id(pair, divided, count, divided[place].id) {
            let i = choose|i: int|
                0 <= i < count && i < divided.len() && (#[trigger] divided[i]).scene_id == Some(pair.first.id)
                    && divided[place].id == split_id("layout"@, divided[i].id, pair.boundary.0 as int);
            let k = lemma_piece_of::<LayoutElement>(cut, elements, 0, i);
            lemma_pieces_stand::<LayoutElement>(cut, elements, k);
            assert(elements[k].scene_id != Some(cut.right_id));
            assert(divided[i + 1].id == divided[place].id);
            if i + 1 < place {
                assert(names::<LayoutElement>(divided)[i + 1] != names::<LayoutElement>(divided)[place]);
            } else if i + 1 > place {
                assert(names::<LayoutElement>(divided)[place] != names::<LayoutElement>(divided)[i + 1]);
            }
            assert(divided[place].scene_id == Some(cut.right_id));
            assert(false);
        }
        if elements[index].scene_id == Some(cut.scene_id) {
            assert(divided[place].scene_id == Some(pair.first.id));
            assert(is_copy_id(pair, divided, count, divided[place + 1].id));
            assert(without_copies_from(pair, divided, place + 1) == without_copies_from(
                pair,
                divided,
                place + 2,
            ));
        }
    }
}


// ---------------------------------------------------------------------------------------------
// Who owns what
// ---------------------------------------------------------------------------------------------
proof fn lemma_scenes_apart(scenes: Seq<ReviewedSceneModel>, left: int, right: int)
    requires
        scene_spans_fault_from(scenes, 0) is None,
        scene_order_fault_from(scenes, 1) is None,
        0 <= left < right < scenes.len(),
    ensures
        scenes[left].span().end() <= scenes[right].span().start(),
    decreases right - left,
{
    lemma_seam(scenes, 1, right);
    if left < right - 1 {
        lemma_scenes_apart(scenes, left, right - 1);
        lemma_scene_span(scenes, 0, right - 1);
    }
}

proof fn lemma_seam(scenes: Seq<ReviewedSceneModel>, from: int, index: int)
    requires
        scene_order_fault_from(scenes, from) is None,
        1 <= from <= index < scenes.len(),
    ensures
        scenes[index].span().start() >= scenes[index - 1].span().end(),
    decreases index - from,
{
    if from < index {
        lemma_seam(scenes, from + 1, index);
    }
}

proof fn lemma_owned<T: SceneOwned>(scenes: Seq<ReviewedSceneModel>, items: Seq<T::V>, from: int, index: int)
    requires
        0 <= from <= index < items.len(),
        owned_fault_from::<T>(scenes, items, from) is None,
    ensures
        crate::ownership::owned_fault::<T>(scenes, items[index]) is None,
    decreases index - from,
{
    if from < index {
        lemma_owned::<T>(scenes, items, from + 1, index);
    }
}

proof fn lemma_owned_clips(scenes: Seq<ReviewedSceneModel>, tracks: Seq<TimelineTrackModel>, from: int, track: int)
    requires
        0 <= from <= track < tracks.len(),
        owned_clips_fault_from(scenes, tracks, from) is None,
    ensures
        owned_fault_from::<TimelineClip>(scenes, tracks[track].clips, 0) is None,
    decreases track - from,
{
    if from < track {
        lemma_owned_clips(scenes, tracks, from + 1, track);
    }
}

/// An item that stands inside a scene and belongs to one belongs to that one.
proof fn lemma_owner<T: SceneOwned>(
    scenes: Seq<ReviewedSceneModel>,
    place: int,
    cut: SceneCutModel,
    item: T::V,
)
    requires
        scene_spans_fault_from(scenes, 0) is None,
        scene_order_fault_from(scenes, 1) is None,
        0 <= place < scenes.len(),
        cut.scene == scenes[place].span(),
        cut.scene_id == scenes[place].id,
        !holds::<ReviewedScene>(scenes, cut.right_id),
        crate::ownership::owned_fault::<T>(scenes, item) is None,
        T::standing(item).valid(),
    ensures
        owned_where_divided(cut, T::owner(item), T::standing(item)),
{
    if let Some(owner) = T::owner(item) {
        lemma_place_from::<ReviewedScene>(scenes, owner, 0);
        let home = place_of::<ReviewedScene>(scenes, owner)->0;
        if straddles(cut, T::standing(item)) {
            if home < place {
                lemma_scenes_apart(scenes, home, place);
            } else if place < home {
                lemma_scenes_apart(scenes, place, home);
            }
        }
    }
}

proof fn lemma_references(m: VideoProjectManifestModel, id: Seq<char>)
    requires
        VideoProjectManifest::fault_of(m) is None,
        !holds::<ReviewedScene>(m.reviewed_scenes, id),
    ensures
        !has_dependents(m, id),
        forall|i: int|
            0 <= i < m.layout.elements.len() ==> (#[trigger] m.layout.elements[i]).scene_id != Some(id),
{
    assert forall|i: int| 0 <= i < m.layout.elements.len() implies (#[trigger] m.layout.elements[i]).scene_id
        != Some(id) by {
        lemma_element_scene(m, 0, i);
    }
    assert forall|i: int| 0 <= i < m.narration_bindings.len() implies (#[trigger] m.narration_bindings[i]).scene_id
        != Some(id) by {
        lemma_binding_scene(m, 0, i);
    }
    assert forall|i: int| 0 <= i < m.render_artifacts.len() implies (#[trigger] m.render_artifacts[i]).scene_id
        != Some(id) by {
        lemma_artifact_scene(m, 0, i);
    }
}

proof fn lemma_element_scene(m: VideoProjectManifestModel, from: int, index: int)
    requires
        0 <= from <= index < m.layout.elements.len(),
        element_scenes_fault_from(m, from) is None,
    ensures
        m.layout.elements[index].scene_id matches Some(id) ==> holds::<ReviewedScene>(m.reviewed_scenes, id),
    decreases index - from,
{
    if from < index {
        lemma_element_scene(m, from + 1, index);
    }
}

proof fn lemma_binding_scene(m: VideoProjectManifestModel, from: int, index: int)
    requires
        0 <= from <= index < m.narration_bindings.len(),
        narrations_fault_from(m, from) is None,
    ensures
        m.narration_bindings[index].scene_id matches Some(id) ==> holds::<ReviewedScene>(m.reviewed_scenes, id),
    decreases index - from,
{
    if from < index {
        lemma_binding_scene(m, from + 1, index);
    }
}

proof fn lemma_artifact_scene(m: VideoProjectManifestModel, from: int, index: int)
    requires
        0 <= from <= index < m.render_artifacts.len(),
        artifacts_fault_from(m, from) is None,
    ensures
        m.render_artifacts[index].scene_id matches Some(id) ==> holds::<ReviewedScene>(m.reviewed_scenes, id),
    decreases index - from,
{
    if from < index {
        lemma_artifact_scene(m, from + 1, index);
    }
}

proof fn lemma_caption(m: VideoProjectManifestModel, from: int, index: int)
    requires
        0 <= from <= index < m.captions.len(),
        captions_fault_from(m, from) is None,
    ensures
        CaptionCue::fault_of(m.captions[index]) is None,
    decreases index - from,
{
    if from < index {
        lemma_caption(m, from + 1, index);
    }
}

proof fn lemma_divided<T: Divisible>(
    cut: SceneCutModel,
    items: Seq<T::V>,
    from: int,
    taken: Set<Seq<char>>,
    index: int,
)
    requires
        0 <= from <= index < items.len(),
        divide_fault_from::<T>(cut, items, from, taken) is None,
    ensures
        division_fault::<T>(cut, items[index]) is None,
    decreases index - from,
{
    if from < index {
        let seen = match T::pieces(cut, items[from]).1 {
            Some(right) => taken.insert(T::name_of(right)),
            None => taken,
        };
        lemma_divided::<T>(cut, items, from + 1, seen, index);
    }
}

proof fn lemma_taken_grows<T: Divisible>(cut: SceneCutModel, items: Seq<T::V>, from: int, taken: Set<Seq<char>>)
    requires
        0 <= from <= items.len(),
    ensures
        taken.subset_of(taken_after::<T>(cut, items, from, taken)),
    decreases items.len() - from,
{
    if from < items.len() {
        let seen = match T::pieces(cut, items[from]).1 {
            Some(right) => taken.insert(T::name_of(right)),
            None => taken,
        };
        lemma_taken_grows::<T>(cut, items, from + 1, seen);
    }
}

proof fn lemma_clip_ids(tracks: Seq<TimelineTrackModel>, from: int, track: int, clip: int)
    requires
        0 <= from <= track < tracks.len(),
        0 <= clip < tracks[track].clips.len(),
    ensures
        clip_ids_from(tracks, from).contains(tracks[track].clips[clip].id),
    decreases track - from,
{
    if from < track {
        lemma_clip_ids(tracks, from + 1, track, clip);
    } else {
        assert(names::<TimelineClip>(tracks[track].clips)[clip] == tracks[track].clips[clip].id);
        assert(names::<TimelineClip>(tracks[track].clips).contains(tracks[track].clips[clip].id));
    }
}

/// Every track was divided while the identifiers of all clips were taken.
proof fn lemma_track_divided(
    cut: SceneCutModel,
    tracks: Seq<TimelineTrackModel>,
    from: int,
    taken: Set<Seq<char>>,
    track: int,
) -> (seen: Set<Seq<char>>)
    requires
        0 <= from <= track < tracks.len(),
        tracks_divide_fault_from(cut, tracks, from, taken) is None,
    ensures
        taken.subset_of(seen),
        divide_fault_from::<TimelineClip>(cut, tracks[track].clips, 0, seen) is None,
    decreases track - from,
{
    if from < track {
        lemma_taken_grows::<TimelineClip>(cut, tracks[from].clips, 0, taken);
        lemma_track_divided(
            cut,
            tracks,
            from + 1,
            taken_after::<TimelineClip>(cut, tracks[from].clips, 0, taken),
            track,
        )
    } else {
        taken
    }
}


// ---------------------------------------------------------------------------------------------
// The law
// ---------------------------------------------------------------------------------------------
/// The cut that a split of a project makes.
pub open spec fn cut_of(m: VideoProjectManifestModel, scene_id: Seq<char>, at: Microseconds) -> SceneCutModel {
    scene_cut(m, m.reviewed_scenes[scene_place(m, scene_id)->0], at)
}

/// Whether no item that ends at the cut, undivided, looks like the left half of another: the split
/// made none of those pairs, and a merge could not tell.
pub open spec fn nothing_looks_divided(m: VideoProjectManifestModel, cut: SceneCutModel) -> bool {
    &&& forall|t: int| 0 <= t < m.tracks.len() ==> no_false_halves::<TimelineClip>(cut, #[trigger] m.tracks[t].clips)
    &&& no_false_halves::<TimelineGap>(cut, m.gaps)
    &&& no_false_halves::<CaptionCue>(cut, m.captions)
}

proof fn lemma_tracks_restore(
    m: VideoProjectManifestModel,
    place: int,
    cut: SceneCutModel,
    pair: SiblingsModel,
    track: int,
)
    requires
        VideoProjectManifest::fault_of(m) is None,
        editable_fault(m) is None,
        0 <= place < m.reviewed_scenes.len(),
        cut.scene == m.reviewed_scenes[place].span(),
        cut.scene_id == m.reviewed_scenes[place].id,
        !holds::<ReviewedScene>(m.reviewed_scenes, cut.right_id),
        halves_of(cut, pair),
        tracks_divide_fault_from(cut, m.tracks, 0, clip_ids_from(m.tracks, 0)) is None,
        0 <= track < m.tracks.len(),
        no_false_halves::<TimelineClip>(cut, m.tracks[track].clips),
    ensures
        ({
            let clips = m.tracks[track].clips;
            let divided = divided_from::<TimelineClip>(cut, clips, 0);
            let fresh = none_joined(divided.len());
            &&& merged_from::<TimelineClip>(pair, divided, fresh, 0) == clips
            &&& join_fault_from::<TimelineClip>(pair, divided, fresh, 0) is None
            &&& forall|i: int|
                0 <= i < clips.len() && TimelineClip::pieces(cut, #[trigger] clips[i]).1 is Some
                    && TimelineClip::ties(
                    pair,
                    TimelineClip::pieces(cut, clips[i]).0,
                    TimelineClip::pieces(cut, clips[i]).1->0,
                ) ==> ties_from::<TimelineClip>(pair, divided, fresh, 0)
        }),
{
    let clips = m.tracks[track].clips;
    let divided = divided_from::<TimelineClip>(cut, clips, 0);
    let seen = lemma_track_divided(cut, m.tracks, 0, clip_ids_from(m.tracks, 0), track);
    assert forall|i: int| 0 <= i < clips.len() implies comes_back::<TimelineClip>(cut, pair, #[trigger] clips[i]) by {
        clips_of_a_track_stay_apart(m, track, i);
        lemma_divided::<TimelineClip>(cut, clips, 0, seen, i);
        lemma_owned_clips(m.reviewed_scenes, m.tracks, 0, track);
        lemma_owned::<TimelineClip>(m.reviewed_scenes, clips, 0, i);
        lemma_owner::<TimelineClip>(m.reviewed_scenes, place, cut, clips[i]);
        lemma_clip_comes_back(cut, pair, clips[i]);
    }
    assert forall|i: int| 0 <= i < clips.len() implies seen.contains(
        TimelineClip::name_of(#[trigger] clips[i]),
    ) by {
        lemma_clip_ids(m.tracks, 0, track, i);
    }
    assert forall|a: int, b: int| 0 <= a < b < clips.len() implies #[trigger] names::<TimelineClip>(clips)[a]
        != #[trigger] names::<TimelineClip>(clips)[b] by {
        clips_of_a_track_stay_apart(m, track, b);
        assert(clips[a].id != clips[b].id);
    }
    lemma_divided_names::<TimelineClip>(cut, clips, 0, seen);
    lemma_join_restores::<TimelineClip>(cut, pair, clips, 0, none_joined(divided.len()));
    assert(clips.skip(0) =~= clips);
}

proof fn lemma_gaps_restore(m: VideoProjectManifestModel, cut: SceneCutModel, pair: SiblingsModel)
    requires
        VideoProjectManifest::fault_of(m) is None,
        halves_of(cut, pair),
        divide_fault_from::<TimelineGap>(cut, m.gaps, 0, names::<TimelineGap>(m.gaps).to_set()) is None,
        no_false_halves::<TimelineGap>(cut, m.gaps),
    ensures
        ({
            let divided = divided_from::<TimelineGap>(cut, m.gaps, 0);
            let fresh = none_joined(divided.len());
            &&& merged_from::<TimelineGap>(pair, divided, fresh, 0) == m.gaps
            &&& join_fault_from::<TimelineGap>(pair, divided, fresh, 0) is None
        }),
{
    let taken = names::<TimelineGap>(m.gaps).to_set();
    let divided = divided_from::<TimelineGap>(cut, m.gaps, 0);
    assert forall|i: int| 0 <= i < m.gaps.len() implies comes_back::<TimelineGap>(cut, pair, #[trigger] m.gaps[i])
        && taken.contains(TimelineGap::name_of(m.gaps[i])) by {
        lemma_divided::<TimelineGap>(cut, m.gaps, 0, taken, i);
        lemma_gap_comes_back(cut, pair, m.gaps[i]);
        assert(names::<TimelineGap>(m.gaps)[i] == TimelineGap::name_of(m.gaps[i]));
    }
    identifiers_are_distinct(m);
    lemma_divided_names::<TimelineGap>(cut, m.gaps, 0, taken);
    lemma_join_restores::<TimelineGap>(cut, pair, m.gaps, 0, none_joined(divided.len()));
    assert(m.gaps.skip(0) =~= m.gaps);
}

proof fn lemma_captions_restore(
    m: VideoProjectManifestModel,
    place: int,
    cut: SceneCutModel,
    pair: SiblingsModel,
)
    requires
        VideoProjectManifest::fault_of(m) is None,
        editable_fault(m) is None,
        0 <= place < m.reviewed_scenes.len(),
        cut.scene == m.reviewed_scenes[place].span(),
        cut.scene_id == m.reviewed_scenes[place].id,
        !holds::<ReviewedScene>(m.reviewed_scenes, cut.right_id),
        halves_of(cut, pair),
        divide_fault_from::<CaptionCue>(cut, m.captions, 0, names::<CaptionCue>(m.captions).to_set()) is None,
        no_false_halves::<CaptionCue>(cut, m.captions),
    ensures
        ({
            let divided = divided_from::<CaptionCue>(cut, m.captions, 0);
            let fresh = none_joined(divided.len());
            &&& merged_from::<CaptionCue>(pair, divided, fresh, 0) == m.captions
            &&& join_fault_from::<CaptionCue>(pair, divided, fresh, 0) is None
        }),
{
    let taken = names::<CaptionCue>(m.captions).to_set();
    let divided = divided_from::<CaptionCue>(cut, m.captions, 0);
    assert forall|i: int| 0 <= i < m.captions.len() implies comes_back::<CaptionCue>(
        cut,
        pair,
        #[trigger] m.captions[i],
    ) && taken.contains(CaptionCue::name_of(m.captions[i])) by {
        lemma_divided::<CaptionCue>(cut, m.captions, 0, taken, i);
        lemma_caption(m, 0, i);
        lemma_owned::<CaptionCue>(m.reviewed_scenes, m.captions, 0, i);
        lemma_owner::<CaptionCue>(m.reviewed_scenes, place, cut, m.captions[i]);
        lemma_caption_comes_back(cut, pair, m.captions[i]);
        assert(names::<CaptionCue>(m.captions)[i] == CaptionCue::name_of(m.captions[i]));
    }
    identifiers_are_distinct(m);
    lemma_divided_names::<CaptionCue>(cut, m.captions, 0, taken);
    lemma_join_restores::<CaptionCue>(cut, pair, m.captions, 0, none_joined(divided.len()));
    assert(m.captions.skip(0) =~= m.captions);
}

proof fn lemma_no_track_refuses(pair: SiblingsModel, tracks: Seq<TimelineTrackModel>, from: int)
    requires
        0 <= from <= tracks.len(),
        forall|t: int|
            0 <= t < tracks.len() ==> join_fault_from::<TimelineClip>(
                pair,
                #[trigger] tracks[t].clips,
                none_joined(tracks[t].clips.len()),
                0,
            ) is None,
    ensures
        tracks_join_fault_from(pair, tracks, from) is None,
    decreases tracks.len() - from,
{
    if from < tracks.len() {
        assert(join_fault_from::<TimelineClip>(
            pair,
            tracks[from].clips,
            none_joined(tracks[from].clips.len()),
            0,
        ) is None);
        lemma_no_track_refuses(pair, tracks, from + 1);
    }
}

proof fn lemma_a_track_ties(pair: SiblingsModel, tracks: Seq<TimelineTrackModel>, from: int, track: int)
    requires
        0 <= from <= track < tracks.len(),
        ties_from::<TimelineClip>(pair, tracks[track].clips, none_joined(tracks[track].clips.len()), 0),
    ensures
        tracks_tie_from(pair, tracks, from),
    decreases track - from,
{
    if from < track {
        lemma_a_track_ties(pair, tracks, from + 1, track);
    }
}

/// Two scenes that stand for one are found where it stood.
proof fn lemma_two_for_one(
    scenes: Seq<ReviewedSceneModel>,
    place: int,
    first: ReviewedSceneModel,
    second: ReviewedSceneModel,
)
    requires
        place_of::<ReviewedScene>(scenes, first.id) == Some(place),
        !holds::<ReviewedScene>(scenes, second.id),
    ensures
        ({
            let next = scenes.take(place) + seq![first, second] + scenes.skip(place + 1);
            &&& 0 <= place < scenes.len()
            &&& scenes[place].id == first.id
            &&& first.id != second.id
            &&& next.len() == scenes.len() + 1
            &&& next[place] == first
            &&& next[place + 1] == second
            &&& place_of::<ReviewedScene>(next, first.id) == Some(place)
            &&& place_of::<ReviewedScene>(next, second.id) == Some(place + 1)
        }),
{
    lemma_place_from::<ReviewedScene>(scenes, first.id, 0);
    lemma_place_from::<ReviewedScene>(scenes, second.id, 0);
    let next = scenes.take(place) + seq![first, second] + scenes.skip(place + 1);
    assert(next[place] == first);
    assert(next[place + 1] == second);
    assert forall|i: int| 0 <= i < place implies #[trigger] next[i] == scenes[i] by {
    }
    lemma_place_from::<ReviewedScene>(next, first.id, 0);
    lemma_place_from::<ReviewedScene>(next, second.id, 0);
}

/// The two scenes after a split stand where the one stood, and are recognised as its halves.
proof fn lemma_siblings(m: VideoProjectManifestModel, scene_id: Seq<char>, at: Microseconds)
    requires
        split_fault(m, scene_id, at) is None,
    ensures
        ({
            let after = split_result(m, scene_id, at);
            let place = scene_place(m, scene_id)->0;
            let cut = cut_of(m, scene_id, at);
            let pair = siblings_at(after, place);
            &&& 0 <= place < m.reviewed_scenes.len()
            &&& m.reviewed_scenes[place].id == scene_id
            &&& after.reviewed_scenes.len() == m.reviewed_scenes.len() + 1
            &&& scene_place(after, scene_id) == Some(place)
            &&& scene_place(after, cut.right_id) == Some(place + 1)
            &&& pair.first == left_half(m.reviewed_scenes[place], cut)
            &&& pair.second == right_half(m.reviewed_scenes[place], cut)
            &&& halves_of(cut, pair)
            &&& cut.right_id != scene_id
            &&& !holds::<ReviewedScene>(m.reviewed_scenes, cut.right_id)
        }),
{
    let scenes = m.reviewed_scenes;
    lemma_place_from::<ReviewedScene>(scenes, scene_id, 0);
    let place = scene_place(m, scene_id)->0;
    let scene = scenes[place];
    let cut = cut_of(m, scene_id, at);
    assert(split_scene_fault(m, scene, at) is None);
    lemma_two_for_one(scenes, place, left_half(scene, cut), right_half(scene, cut));
}

proof fn lemma_layout_part(m: VideoProjectManifestModel, cut: SceneCutModel, pair: SiblingsModel)
    requires
        VideoProjectManifest::fault_of(m) is None,
        halves_of(cut, pair),
        cut.scene_id != cut.right_id,
        !holds::<ReviewedScene>(m.reviewed_scenes, cut.right_id),
        divide_fault_from::<LayoutElement>(
            cut,
            m.layout.elements,
            0,
            names::<LayoutElement>(m.layout.elements).to_set(),
        ) is None,
    ensures
        layout_join_fault(pair, divided_from::<LayoutElement>(cut, m.layout.elements, 0)) is None,
        without_copies_from(pair, divided_from::<LayoutElement>(cut, m.layout.elements, 0), 0)
            == m.layout.elements,
{
    lemma_references(m, cut.right_id);
    identifiers_are_distinct(m);
    let element_ids = names::<LayoutElement>(m.layout.elements).to_set();
    assert forall|i: int| 0 <= i < m.layout.elements.len() implies element_ids.contains(
        LayoutElement::name_of(#[trigger] m.layout.elements[i]),
    ) by {
        assert(names::<LayoutElement>(m.layout.elements)[i] == LayoutElement::name_of(m.layout.elements[i]));
    }
    lemma_divided_names::<LayoutElement>(cut, m.layout.elements, 0, element_ids);
    lemma_layout_restores(cut, pair, m.layout.elements);
}

proof fn lemma_tracks_part(
    m: VideoProjectManifestModel,
    place: int,
    cut: SceneCutModel,
    pair: SiblingsModel,
)
    requires
        VideoProjectManifest::fault_of(m) is None,
        editable_fault(m) is None,
        0 <= place < m.reviewed_scenes.len(),
        cut.scene == m.reviewed_scenes[place].span(),
        cut.scene_id == m.reviewed_scenes[place].id,
        !holds::<ReviewedScene>(m.reviewed_scenes, cut.right_id),
        halves_of(cut, pair),
        tracks_divide_fault_from(cut, m.tracks, 0, clip_ids_from(m.tracks, 0)) is None,
        forall|t: int|
            0 <= t < m.tracks.len() ==> no_false_halves::<TimelineClip>(cut, #[trigger] m.tracks[t].clips),
    ensures
        merged_tracks(pair, divided_tracks(cut, m.tracks)) == m.tracks,
        tracks_join_fault_from(pair, divided_tracks(cut, m.tracks), 0) is None,
{
    let divided = divided_tracks(cut, m.tracks);
    assert forall|t: int| 0 <= t < m.tracks.len() implies join_fault_from::<TimelineClip>(
        pair,
        #[trigger] divided[t].clips,
        none_joined(divided[t].clips.len()),
        0,
    ) is None && merged_track(pair, divided[t]) == m.tracks[t] by {
        assert(no_false_halves::<TimelineClip>(cut, m.tracks[t].clips));
        lemma_tracks_restore(m, place, cut, pair, t);
    }
    lemma_no_track_refuses(pair, divided, 0);
    assert forall|t: int| 0 <= t < m.tracks.len() implies merged_tracks(pair, divided)[t] == #[trigger] m.tracks[t] by {
        let clips = divided[t].clips;
        assert(merged_track(pair, divided[t]) == m.tracks[t]);
    }
    assert(merged_tracks(pair, divided) =~= m.tracks);
}

/// The pieces of the anchor tie the halves to their source.
proof fn lemma_anchor_part(
    m: VideoProjectManifestModel,
    place: int,
    cut: SceneCutModel,
    pair: SiblingsModel,
    at: Microseconds,
)
    requires
        VideoProjectManifest::fault_of(m) is None,
        editable_fault(m) is None,
        0 <= place < m.reviewed_scenes.len(),
        split_scene_fault(m, m.reviewed_scenes[place], at) is None,
        cut == scene_cut(m, m.reviewed_scenes[place], at),
        pair.first == left_half(m.reviewed_scenes[place], cut),
        pair.second == right_half(m.reviewed_scenes[place], cut),
        pair.boundary == cut.at,
        tracks_divide_fault_from(cut, m.tracks, 0, clip_ids_from(m.tracks, 0)) is None,
        forall|t: int|
            0 <= t < m.tracks.len() ==> no_false_halves::<TimelineClip>(cut, #[trigger] m.tracks[t].clips),
    ensures
        tracks_tie_from(pair, divided_tracks(cut, m.tracks), 0),
{
    let scene = m.reviewed_scenes[place];
    let (t, c) = lemma_anchor_in_tracks(scene, m.tracks, 0, None);
    let anchor = m.tracks[t].clips[c];
    assert(source_anchor(m, scene) == Some(anchor));
    assert(no_false_halves::<TimelineClip>(cut, m.tracks[t].clips));
    lemma_tracks_restore(m, place, cut, pair, t);
    assert(straddles(cut, anchor.span()));
    let pieces = TimelineClip::pieces(cut, anchor);
    assert(pieces.0.span() == pair.first.span());
    assert(pieces.1->0.span() == pair.second.span());
    assert(TimelineClip::ties(pair, pieces.0, pieces.1->0));
    lemma_a_track_ties(pair, divided_tracks(cut, m.tracks), 0, t);
}

proof fn lemma_layers_part(m: VideoProjectManifestModel, cut: SceneCutModel, pair: SiblingsModel)
    requires
        editable_fault(m) is None,
        halves_of(cut, pair),
        !holds::<ReviewedScene>(m.reviewed_scenes, cut.right_id),
    ensures
        merged_layers(pair, split_layers(cut, m.visual_layers)) == m.visual_layers,
{
    let layers = split_layers(cut, m.visual_layers);
    assert forall|i: int| 0 <= i < m.visual_layers.len() implies merged_layers(pair, layers)[i]
        == #[trigger] m.visual_layers[i] by {
        lemma_owned::<VisualLayer>(m.reviewed_scenes, m.visual_layers, 0, i);
    }
    assert(merged_layers(pair, layers) =~= m.visual_layers);
}

/// The halves of a scene are recognised as such, and make the scene again.
proof fn lemma_scene_part(
    m: VideoProjectManifestModel,
    after: VideoProjectManifestModel,
    scene: ReviewedSceneModel,
    at: Microseconds,
    pair: SiblingsModel,
)
    requires
        split_scene_fault(m, scene, at) is None,
        !has_dependents(after, scene.id),
        !has_dependents(after, scene_cut(m, scene, at).right_id),
        pair.first == left_half(scene, scene_cut(m, scene, at)),
        pair.second == right_half(scene, scene_cut(m, scene, at)),
        pair.boundary == at,
    ensures
        siblings_fault(after, pair) is None,
        pair.first.span_refusal() is None,
        pair.second.span_refusal() is None,
        pair.first.span().end() == pair.second.span().start(),
        range_fault(pair.first.source_range->0.start(), pair.second.source_range->0.end()) is None,
        on_clock(pair.first.timeline_duration_us.0 + pair.second.timeline_duration_us.0),
        whole_scene(pair) == scene,
{
}

proof fn lemma_merge_accepts(after: VideoProjectManifestModel, first_id: Seq<char>, second_id: Seq<char>, place: int)
    requires
        scene_place(after, first_id) == Some(place),
        scene_place(after, second_id) == Some(place + 1),
        siblings_fault(after, siblings_at(after, place)) is None,
        siblings_at(after, place).first.span_refusal() is None,
        siblings_at(after, place).second.span_refusal() is None,
        siblings_at(after, place).first.span().end() == siblings_at(after, place).second.span().start(),
        merge_items_fault(after, siblings_at(after, place)) is None,
    ensures
        merge_fault(after, first_id, second_id) is None,
{
}

proof fn lemma_whole_again(m: VideoProjectManifestModel, place: int, cut: SceneCutModel)
    requires
        0 <= place < m.reviewed_scenes.len(),
        ({
            let after = split_at(m, place, cut);
            let pair = siblings_at(after, place);
            &&& whole_scene(pair) == m.reviewed_scenes[place]
            &&& without_copies_from(pair, after.layout.elements, 0) == m.layout.elements
            &&& merged_tracks(pair, after.tracks) == m.tracks
            &&& merged_from::<TimelineGap>(pair, after.gaps, none_joined(after.gaps.len()), 0) == m.gaps
            &&& merged_from::<CaptionCue>(pair, after.captions, none_joined(after.captions.len()), 0)
                == m.captions
            &&& merged_layers(pair, after.visual_layers) == m.visual_layers
        }),
    ensures
        merge_at(split_at(m, place, cut), place) == m,
{
    let after = split_at(m, place, cut);
    let merged = merge_at(after, place);
    assert(merged.reviewed_scenes =~= m.reviewed_scenes);
    assert(merged.layout == m.layout);
}

/// The two halves of [`split_then_merge_restores`], for the scene at a place.
proof fn lemma_restores_at(
    m: VideoProjectManifestModel,
    place: int,
    at: Microseconds,
    cut: SceneCutModel,
    pair: SiblingsModel,
)
    requires
        VideoProjectManifest::fault_of(m) is None,
        editable_fault(m) is None,
        0 <= place < m.reviewed_scenes.len(),
        cut == scene_cut(m, m.reviewed_scenes[place], at),
        split_scene_fault(m, m.reviewed_scenes[place], at) is None,
        split_items_fault(m, cut) is None,
        nothing_looks_divided(m, cut),
        pair == siblings_at(split_at(m, place, cut), place),
        pair.first == left_half(m.reviewed_scenes[place], cut),
        pair.second == right_half(m.reviewed_scenes[place], cut),
        halves_of(cut, pair),
        cut.scene_id != cut.right_id,
        !holds::<ReviewedScene>(m.reviewed_scenes, cut.right_id),
    ensures
        siblings_fault(split_at(m, place, cut), pair) is None,
        pair.first.span_refusal() is None,
        pair.second.span_refusal() is None,
        pair.first.span().end() == pair.second.span().start(),
        merge_items_fault(split_at(m, place, cut), pair) is None,
        merge_at(split_at(m, place, cut), place) == m,
{
    let scene = m.reviewed_scenes[place];
    let after = split_at(m, place, cut);
    lemma_references(m, cut.right_id);
    assert(has_dependents(after, scene.id) == has_dependents(m, scene.id));
    assert(has_dependents(after, cut.right_id) == has_dependents(m, cut.right_id));
    lemma_layout_part(m, cut, pair);
    lemma_tracks_part(m, place, cut, pair);
    lemma_anchor_part(m, place, cut, pair, at);
    lemma_gaps_restore(m, cut, pair);
    lemma_captions_restore(m, place, cut, pair);
    lemma_layers_part(m, cut, pair);
    lemma_scene_part(m, after, scene, at, pair);
    lemma_whole_again(m, place, cut);
}

/// What a split divides, a merge restores. In a project that obeys the rules and whose scenes own
/// their items, a scene that could be split can be merged with the scene that the split made, and
/// the project is then what it was before the split.
pub proof fn split_then_merge_restores(m: VideoProjectManifestModel, scene_id: Seq<char>, at: Microseconds)
    requires
        VideoProjectManifest::fault_of(m) is None,
        editable_fault(m) is None,
        split_fault(m, scene_id, at) is None,
        nothing_looks_divided(m, cut_of(m, scene_id, at)),
    ensures
        merge_fault(
            split_result(m, scene_id, at),
            scene_id,
            split_id("scene"@, scene_id, at.0 as int),
        ) is None,
        merge_result(
            split_result(m, scene_id, at),
            scene_id,
            split_id("scene"@, scene_id, at.0 as int),
        ) == m,
{
    lemma_siblings(m, scene_id, at);
    let place = scene_place(m, scene_id)->0;
    let cut = cut_of(m, scene_id, at);
    let after = split_at(m, place, cut);
    lemma_restores_at(m, place, at, cut, siblings_at(after, place));
    lemma_merge_accepts(after, scene_id, cut.right_id, place);
}

} // verus!
