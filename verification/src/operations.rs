//! Edits of the performance: visuals, beats, pronunciation and drafts.

use crate::error::{fault_at, or_else, refusal, refuse, unless, Fault, VideoError, VideoErrorCode, VideoResult};
use crate::lexicon::{
    a_character_rule_leaves_others_alone, effective, fingerprint, fingerprint_for_character, is_used_from,
    select_used_rules, used_in, used_rules,
};
use crate::manifest::{
    BeatSource, CastMember, DialogueTurn, DialogueTurnModel, LexiconEntry, LexiconEntryModel, LexiconScope, NarrationBinding,
    NarrationBindingModel, NormalizedRect, TakeFidelity, TurnBeat, TurnBeatModel, VideoProjectManifest,
    VideoProjectManifestModel, VisualFit, VisualLayer, VisualLayerModel, VisualMotion,
};
use crate::manifest_rules::is_text;
use crate::model::{
    a_last_item_may_go, all_are_kept, find, find_place, has_name, holds, kept, kept_from, other_than, place_of, put,
    put_named, remove_named, replace_at, what_goes_may_go_first, what_is_found_bears_the_name,
    what_is_kept_keeps_its_order, what_is_kept_stays, what_is_put_is_found, with_last, Model, Named,
};
use crate::order::{text_before, text_less};
use crate::rules::{identifier_fault, optional_identifier_fault, validate_identifier, validate_optional_identifier};
use crate::text::{text_concat3, text_eq};
use crate::time::{Microseconds, TimeRange, Validate};
use vstd::prelude::*;

verus! {

/// The refusal of a name that nothing has.
pub open spec fn absent(lead: Seq<char>, id: Seq<char>, tail: Seq<char>, field: Seq<char>) -> Fault {
    fault_at(VideoErrorCode::MissingReference, lead + id + tail, field)
}

pub fn refuse_named(code: VideoErrorCode, lead: &str, id: &str, tail: &str, field: &str) -> (error: VideoError)
    ensures
        error.deep_view() == fault_at(code, lead@ + id@ + tail@, field@),
{
    let message: String = text_concat3(lead, id, tail);
    refuse(code, message.as_str(), field)
}

// ---------------------------------------------------------------------------------------------
// Visual layers
// ---------------------------------------------------------------------------------------------
impl Validate for VisualLayer {
    open spec fn fault_of(model: VisualLayerModel) -> Option<Fault> {
        or_else(
            identifier_fault(model.id, "visual_layers.id"@),
            or_else(
                identifier_fault(model.asset_id, "visual_layers.asset_id"@),
                or_else(
                    optional_identifier_fault(model.scene_id, "visual_layers.scene_id"@),
                    TimeRange::fault_of(model.range),
                ),
            ),
        )
    }

    fn validate(&self) -> (result: VideoResult<()>) {
        validate_identifier(self.id.as_str(), "visual_layers.id")?;
        validate_identifier(self.asset_id.as_str(), "visual_layers.asset_id")?;
        validate_optional_identifier(&self.scene_id, "visual_layers.scene_id")?;
        self.range.validate()
    }
}

/// What an edit gives a visual layer: everything but its name and its picture.
#[derive(Clone, Debug, PartialEq, Eq)]
pub struct VisualPlacement {
    pub scene_id: Option<String>,
    pub range: TimeRange,
    pub fit: VisualFit,
    pub crop: Option<NormalizedRect>,
    pub z_index: i16,
    pub motion: VisualMotion,
    pub transition_in_us: Microseconds,
    pub transition_out_us: Microseconds,
}

/// What a [`VisualPlacement`] holds, as mathematical values.
pub struct VisualPlacementModel {
    pub scene_id: Option<Seq<char>>,
    pub range: TimeRange,
    pub fit: VisualFit,
    pub crop: Option<NormalizedRect>,
    pub z_index: i16,
    pub motion: VisualMotion,
    pub transition_in_us: Microseconds,
    pub transition_out_us: Microseconds,
}

impl DeepView for VisualPlacement {
    type V = VisualPlacementModel;

    open spec fn deep_view(&self) -> VisualPlacementModel {
        VisualPlacementModel {
            scene_id: self.scene_id.deep_view(),
            range: self.range,
            fit: self.fit,
            crop: self.crop.deep_view(),
            z_index: self.z_index,
            motion: self.motion,
            transition_in_us: self.transition_in_us,
            transition_out_us: self.transition_out_us,
        }
    }
}

pub open spec fn placed_layer(layer: VisualLayerModel, placement: VisualPlacementModel) -> VisualLayerModel {
    VisualLayerModel {
        scene_id: placement.scene_id,
        range: placement.range,
        fit: placement.fit,
        crop: placement.crop,
        z_index: placement.z_index,
        motion: placement.motion,
        transition_in_us: placement.transition_in_us,
        transition_out_us: placement.transition_out_us,
        ..layer
    }
}

pub open spec fn update_layer_fault(m: VideoProjectManifestModel, layer_id: Seq<char>, placement: VisualPlacementModel) -> Option<
    Fault,
> {
    match find::<VisualLayer>(m.visual_layers, layer_id) {
        Some(layer) => VisualLayer::fault_of(placed_layer(layer, placement)),
        None => Some(absent("visual layer "@, layer_id, " does not exist"@, "operations.layer_id"@)),
    }
}

pub open spec fn update_layer_result(m: VideoProjectManifestModel, layer_id: Seq<char>, placement: VisualPlacementModel) -> VideoProjectManifestModel {
    let place = place_of::<VisualLayer>(m.visual_layers, layer_id)->0;
    VideoProjectManifestModel {
        visual_layers: m.visual_layers.update(place, placed_layer(m.visual_layers[place], placement)),
        ..m
    }
}

/// Repositions or animates a managed visual without replacing its bytes.
pub fn update_visual_layer(manifest: &VideoProjectManifest, layer_id: &str, placement: &VisualPlacement) -> (result: VideoResult<
    VideoProjectManifest,
>)
    ensures
        refusal(result) == update_layer_fault(manifest.deep_view(), layer_id@, placement.deep_view()),
        result matches Ok(edited) ==> edited.deep_view() == update_layer_result(
            manifest.deep_view(),
            layer_id@,
            placement.deep_view(),
        ),
{
    match find_place(&manifest.visual_layers, layer_id) {
        Some(place) => {
            let layer: &VisualLayer = &manifest.visual_layers[place];
            assert(manifest.visual_layers.deep_view()[place as int] == layer.deep_view());
            let placed = VisualLayer {
                scene_id: placement.scene_id.duplicate(),
                range: placement.range,
                fit: placement.fit,
                crop: placement.crop,
                z_index: placement.z_index,
                motion: placement.motion,
                transition_in_us: placement.transition_in_us,
                transition_out_us: placement.transition_out_us,
                ..layer.duplicate()
            };
            placed.validate()?;
            let visual_layers: Vec<VisualLayer> = replace_at(&manifest.visual_layers, place, placed);
            Ok(VideoProjectManifest { visual_layers, ..manifest.duplicate() })
        },
        None => Err(
            refuse_named(
                VideoErrorCode::MissingReference,
                "visual layer ",
                layer_id,
                " does not exist",
                "operations.layer_id",
            ),
        ),
    }
}

// ---------------------------------------------------------------------------------------------
// Beats
// ---------------------------------------------------------------------------------------------
/// A beat before a turn either holds or overlaps, never both.
impl Validate for TurnBeat {
    open spec fn fault_of(model: TurnBeatModel) -> Option<Fault> {
        or_else(
            identifier_fault(model.turn_id, "turn_beats.turn_id"@),
            or_else(
                unless(
                    model.lead_in_us.0 >= 0 && model.overlap_us.0 >= 0,
                    fault_at(
                        VideoErrorCode::InvalidPerformance,
                        "a beat cannot be shorter than nothing"@,
                        "turn_beats"@,
                    ),
                ),
                unless(
                    model.lead_in_us.0 == 0 || model.overlap_us.0 == 0,
                    fault_at(
                        VideoErrorCode::InvalidPerformance,
                        "a beat cannot both hold and overlap"@,
                        "turn_beats"@,
                    ),
                ),
            ),
        )
    }

    fn validate(&self) -> (result: VideoResult<()>) {
        validate_identifier(self.turn_id.as_str(), "turn_beats.turn_id")?;
        if self.lead_in_us.0 < 0 || self.overlap_us.0 < 0 {
            return Err(
                refuse(
                    VideoErrorCode::InvalidPerformance,
                    "a beat cannot be shorter than nothing",
                    "turn_beats",
                ),
            );
        }
        if self.lead_in_us.0 != 0 && self.overlap_us.0 != 0 {
            return Err(
                refuse(
                    VideoErrorCode::InvalidPerformance,
                    "a beat cannot both hold and overlap",
                    "turn_beats",
                ),
            );
        }
        Ok(())
    }
}

pub open spec fn missing_turn_fault(turn_id: Seq<char>) -> Fault {
    absent("dialogue turn "@, turn_id, " does not exist"@, "operations.turn_id"@)
}

pub open spec fn explicit_beat(turn_id: Seq<char>, lead_in_us: Microseconds, overlap_us: Microseconds) -> TurnBeatModel {
    TurnBeatModel { turn_id, lead_in_us, overlap_us, source: BeatSource::Explicit }
}

pub open spec fn set_beat_fault(
    m: VideoProjectManifestModel,
    turn_id: Seq<char>,
    lead_in_us: Microseconds,
    overlap_us: Microseconds,
) -> Option<Fault> {
    or_else(
        unless(holds::<DialogueTurn>(m.dialogue, turn_id), missing_turn_fault(turn_id)),
        TurnBeat::fault_of(explicit_beat(turn_id, lead_in_us, overlap_us)),
    )
}

pub open spec fn set_beat_result(
    m: VideoProjectManifestModel,
    turn_id: Seq<char>,
    lead_in_us: Microseconds,
    overlap_us: Microseconds,
) -> VideoProjectManifestModel {
    VideoProjectManifestModel {
        turn_beats: put::<TurnBeat>(m.turn_beats, explicit_beat(turn_id, lead_in_us, overlap_us)),
        ..m
    }
}

/// Holds or tightens the beat before one turn. Marking it explicit is what makes it survive.
pub fn set_turn_beat(
    manifest: &VideoProjectManifest,
    turn_id: &str,
    lead_in_us: Microseconds,
    overlap_us: Microseconds,
) -> (result: VideoResult<VideoProjectManifest>)
    ensures
        refusal(result) == set_beat_fault(manifest.deep_view(), turn_id@, lead_in_us, overlap_us),
        result matches Ok(edited) ==> edited.deep_view() == set_beat_result(
            manifest.deep_view(),
            turn_id@,
            lead_in_us,
            overlap_us,
        ),
{
    if !has_name(&manifest.dialogue, turn_id) {
        return Err(
            refuse_named(
                VideoErrorCode::MissingReference,
                "dialogue turn ",
                turn_id,
                " does not exist",
                "operations.turn_id",
            ),
        );
    }
    let beat = TurnBeat {
        turn_id: turn_id.to_owned(),
        lead_in_us,
        overlap_us,
        source: BeatSource::Explicit,
    };
    beat.validate()?;
    let turn_beats: Vec<TurnBeat> = put_named(&manifest.turn_beats, beat);
    Ok(VideoProjectManifest { turn_beats, ..manifest.duplicate() })
}

/// Whether a writer decided the beat before a turn.
pub open spec fn is_held(beats: Seq<TurnBeatModel>, turn_id: Seq<char>) -> bool {
    exists|i: int|
        0 <= i < beats.len() && (#[trigger] beats[i]).turn_id == turn_id && beats[i].source
            == BeatSource::Explicit
}

pub open spec fn clear_beat_fault(m: VideoProjectManifestModel, turn_id: Seq<char>, derived: Seq<TurnBeatModel>) -> Option<
    Fault,
> {
    match place_of::<DialogueTurn>(m.dialogue, turn_id) {
        Some(position) => or_else(
            unless(
                is_held(m.turn_beats, turn_id),
                fault_at(
                    VideoErrorCode::InvalidPerformance,
                    "dialogue turn "@ + turn_id + " already uses its derived beat"@,
                    "operations.turn_id"@,
                ),
            ),
            unless(
                position < derived.len(),
                fault_at(
                    VideoErrorCode::InvalidPerformance,
                    "the derived beat for this turn could not be recomputed"@,
                    "operations.turn_id"@,
                ),
            ),
        ),
        None => Some(missing_turn_fault(turn_id)),
    }
}

pub open spec fn clear_beat_result(m: VideoProjectManifestModel, turn_id: Seq<char>, derived: Seq<TurnBeatModel>) -> VideoProjectManifestModel {
    let restored = derived[place_of::<DialogueTurn>(m.dialogue, turn_id)->0];
    VideoProjectManifestModel {
        turn_beats: match place_of::<TurnBeat>(m.turn_beats, turn_id) {
            Some(place) => m.turn_beats.update(place, restored),
            None => m.turn_beats.push(restored),
        },
        ..m
    }
}

fn is_beat_held(beats: &Vec<TurnBeat>, turn_id: &str) -> (result: bool)
    ensures
        result == is_held(beats.deep_view(), turn_id@),
{
    let ghost model = beats.deep_view();
    let mut index: usize = 0;
    while index < beats.len()
        invariant
            index <= beats.len(),
            model == beats.deep_view(),
            forall|i: int|
                0 <= i < index ==> !((#[trigger] model[i]).turn_id == turn_id@ && model[i].source
                    == BeatSource::Explicit),
        decreases beats.len() - index,
    {
        assert(model[index as int] == beats[index as int].deep_view());
        if text_eq(beats[index].turn_id.as_str(), turn_id) && beats[index].source == BeatSource::Explicit {
            return true;
        }
        index += 1;
    }
    false
}

/// Returns one turn to the beat that the script implies. `derived` holds those beats, turn by turn.
pub fn clear_turn_beat(manifest: &VideoProjectManifest, turn_id: &str, derived: &Vec<TurnBeat>) -> (result: VideoResult<
    VideoProjectManifest,
>)
    ensures
        refusal(result) == clear_beat_fault(manifest.deep_view(), turn_id@, derived.deep_view()),
        result matches Ok(edited) ==> edited.deep_view() == clear_beat_result(
            manifest.deep_view(),
            turn_id@,
            derived.deep_view(),
        ),
{
    match find_place(&manifest.dialogue, turn_id) {
        Some(position) => {
            if !is_beat_held(&manifest.turn_beats, turn_id) {
                return Err(
                    refuse_named(
                        VideoErrorCode::InvalidPerformance,
                        "dialogue turn ",
                        turn_id,
                        " already uses its derived beat",
                        "operations.turn_id",
                    ),
                );
            }
            if position >= derived.len() {
                return Err(
                    refuse(
                        VideoErrorCode::InvalidPerformance,
                        "the derived beat for this turn could not be recomputed",
                        "operations.turn_id",
                    ),
                );
            }
            assert(derived.deep_view()[position as int] == derived[position as int].deep_view());
            let restored: TurnBeat = derived[position].duplicate();
            let turn_beats: Vec<TurnBeat> = match find_place(&manifest.turn_beats, turn_id) {
                Some(place) => replace_at(&manifest.turn_beats, place, restored),
                None => with_last(&manifest.turn_beats, restored),
            };
            Ok(VideoProjectManifest { turn_beats, ..manifest.duplicate() })
        },
        None => Err(
            refuse_named(
                VideoErrorCode::MissingReference,
                "dialogue turn ",
                turn_id,
                " does not exist",
                "operations.turn_id",
            ),
        ),
    }
}

// ---------------------------------------------------------------------------------------------
// Pronunciation
// ---------------------------------------------------------------------------------------------
/// Who says a turn; of turns that share an identifier the last counts.
pub open spec fn character_of_turn(dialogue: Seq<DialogueTurnModel>, turn_id: Seq<char>, count: int) -> Option<Seq<char>>
    decreases count,
{
    if count <= 0 {
        None
    } else if dialogue[count - 1].id == turn_id {
        Some(dialogue[count - 1].character_id)
    } else {
        character_of_turn(dialogue, turn_id, count - 1)
    }
}

/// The fingerprint that a take of a character should carry.
pub open spec fn expected_fingerprint(m: VideoProjectManifestModel, character_id: Seq<char>) -> Option<Seq<char>> {
    if holds::<CastMember>(m.cast, character_id) {
        fingerprint(effective(m.lexicon, character_id))
    } else {
        None
    }
}

/// The fingerprint of a character's rules that some line of the project uses.
pub open spec fn used_fingerprint(m: VideoProjectManifestModel, lexicon: Seq<LexiconEntryModel>, character_id: Seq<char>) -> Option<
    Seq<char>,
> {
    if holds::<CastMember>(m.cast, character_id) {
        fingerprint(effective(used_rules(lexicon, m.dialogue), character_id))
    } else {
        None
    }
}

/// Whether a take still says what the rules say after they have changed. It does where its character's
/// rules that some line of the project uses are as they were, and where it was made under the rules as
/// they now are. A take of a scene is governed by no character's rules.
pub open spec fn is_current_take(before: Seq<LexiconEntryModel>, m: VideoProjectManifestModel, binding: NarrationBindingModel) -> bool {
    match binding.turn_id {
        Some(turn_id) => match character_of_turn(m.dialogue, turn_id, m.dialogue.len() as int) {
            Some(character_id) => {
                ||| expected_fingerprint(m, character_id) == binding.lexicon_fingerprint
                ||| used_fingerprint(m, before, character_id) == used_fingerprint(m, m.lexicon, character_id)
            },
            None => true,
        },
        None => true,
    }
}

pub open spec fn current_takes(before: Seq<LexiconEntryModel>, m: VideoProjectManifestModel) -> spec_fn(
    NarrationBindingModel,
) -> bool {
    |binding: NarrationBindingModel| is_current_take(before, m, binding)
}

/// The project without the takes whose character's rules have changed from what they were before.
pub open spec fn without_stale_takes(before: Seq<LexiconEntryModel>, m: VideoProjectManifestModel) -> VideoProjectManifestModel {
    VideoProjectManifestModel { narration_bindings: kept(m.narration_bindings, current_takes(before, m)), ..m }
}

fn find_character_of_turn(dialogue: &Vec<DialogueTurn>, turn_id: &str) -> (result: Option<String>)
    ensures
        result.deep_view() == character_of_turn(dialogue.deep_view(), turn_id@, dialogue.len() as int),
{
    let ghost model = dialogue.deep_view();
    let mut index: usize = dialogue.len();
    while index > 0
        invariant
            index <= dialogue.len(),
            model == dialogue.deep_view(),
            character_of_turn(model, turn_id@, dialogue.len() as int) == character_of_turn(
                model,
                turn_id@,
                index as int,
            ),
        decreases index,
    {
        assert(model[index - 1] == dialogue[index - 1].deep_view());
        if text_eq(dialogue[index - 1].id.as_str(), turn_id) {
            return Some(dialogue[index - 1].character_id.clone());
        }
        index -= 1;
    }
    None
}

/// The rules that some line of a project uses, before and after they changed.
struct UsedRules {
    before: Vec<LexiconEntry>,
    after: Vec<LexiconEntry>,
}

fn is_take_current(manifest: &VideoProjectManifest, used: &UsedRules, binding: &NarrationBinding, Ghost(before): Ghost<
    Seq<LexiconEntryModel>,
>) -> (result: bool)
    requires
        used.before.deep_view() == used_rules(before, manifest.deep_view().dialogue),
        used.after.deep_view() == used_rules(manifest.deep_view().lexicon, manifest.deep_view().dialogue),
    ensures
        result == is_current_take(before, manifest.deep_view(), binding.deep_view()),
{
    match &binding.turn_id {
        Some(turn_id) => match find_character_of_turn(&manifest.dialogue, turn_id.as_str()) {
            Some(character_id) => {
                if !has_name(&manifest.cast, character_id.as_str()) {
                    return true;
                }
                let expected: Option<String> = fingerprint_for_character(
                    manifest.lexicon.as_slice(),
                    character_id.as_str(),
                );
                if expected.same(&binding.lexicon_fingerprint) {
                    return true;
                }
                let was: Option<String> = fingerprint_for_character(
                    used.before.as_slice(),
                    character_id.as_str(),
                );
                let is: Option<String> = fingerprint_for_character(used.after.as_slice(), character_id.as_str());
                was.same(&is)
            },
            None => true,
        },
        None => true,
    }
}

/// Drops only the takes whose character's rules actually changed.
///
/// A rule scoped to one character cannot stale another character's lines, and a rule that no line uses
/// changes nothing that is said, so nothing is re-read for it.
fn drop_takes_with_stale_pronunciation(before: &Vec<LexiconEntry>, manifest: VideoProjectManifest) -> (result:
    VideoProjectManifest)
    ensures
        result.deep_view() == without_stale_takes(before.deep_view(), manifest.deep_view()),
{
    let ghost m = manifest.deep_view();
    let ghost was = before.deep_view();
    let ghost model = m.narration_bindings;
    let ghost keep = current_takes(was, m);
    let used = UsedRules {
        before: select_used_rules(before, &manifest.dialogue),
        after: select_used_rules(&manifest.lexicon, &manifest.dialogue),
    };
    let mut left: Vec<NarrationBinding> = Vec::new();
    let mut index: usize = 0;
    assert(left.deep_view() + kept(model, keep) =~= kept(model, keep));
    while index < manifest.narration_bindings.len()
        invariant
            index <= manifest.narration_bindings.len(),
            m == manifest.deep_view(),
            model == m.narration_bindings,
            keep == current_takes(was, m),
            used.before.deep_view() == used_rules(was, m.dialogue),
            used.after.deep_view() == used_rules(m.lexicon, m.dialogue),
            left.deep_view() + kept_from(model, keep, index as int) == kept(model, keep),
        decreases manifest.narration_bindings.len() - index,
    {
        let binding: &NarrationBinding = &manifest.narration_bindings[index];
        let ghost own = model[index as int];
        assert(own == binding.deep_view());
        if is_take_current(&manifest, &used, binding, Ghost(was)) {
            let ghost earlier = left.deep_view();
            let ghost rest = kept_from(model, keep, index + 1);
            left.push(binding.duplicate());
            assert(left.deep_view() =~= earlier.push(own));
            assert(left.deep_view() + rest =~= earlier + (seq![own] + rest));
        }
        index += 1;
    }
    assert(left.deep_view() =~= kept(model, keep));
    VideoProjectManifest { narration_bindings: left, ..manifest }
}

pub open spec fn set_entry_result(m: VideoProjectManifestModel, entry: LexiconEntryModel) -> VideoProjectManifestModel {
    without_stale_takes(
        m.lexicon,
        VideoProjectManifestModel { lexicon: put::<LexiconEntry>(m.lexicon, entry), ..m },
    )
}

/// Adds or replaces one pronunciation rule.
pub fn set_lexicon_entry(manifest: &VideoProjectManifest, entry: &LexiconEntry) -> (result: VideoResult<
    VideoProjectManifest,
>)
    ensures
        refusal(result) == LexiconEntry::fault_of(entry.deep_view()),
        result matches Ok(edited) ==> edited.deep_view() == set_entry_result(
            manifest.deep_view(),
            entry.deep_view(),
        ),
{
    entry.validate()?;
    let lexicon: Vec<LexiconEntry> = put_named(&manifest.lexicon, entry.duplicate());
    Ok(
        drop_takes_with_stale_pronunciation(
            &manifest.lexicon,
            VideoProjectManifest { lexicon, ..manifest.duplicate() },
        ),
    )
}

pub open spec fn remove_entry_fault(m: VideoProjectManifestModel, entry_id: Seq<char>) -> Option<Fault> {
    unless(
        holds::<LexiconEntry>(m.lexicon, entry_id),
        absent("pronunciation rule "@, entry_id, " does not exist"@, "operations.entry_id"@),
    )
}

pub open spec fn remove_entry_result(m: VideoProjectManifestModel, entry_id: Seq<char>) -> VideoProjectManifestModel {
    without_stale_takes(
        m.lexicon,
        VideoProjectManifestModel {
            lexicon: kept(m.lexicon, other_than::<LexiconEntry>(entry_id)),
            ..m
        },
    )
}

/// Removes one pronunciation rule, dropping the takes it governed.
pub fn remove_lexicon_entry(manifest: &VideoProjectManifest, entry_id: &str) -> (result: VideoResult<
    VideoProjectManifest,
>)
    ensures
        refusal(result) == remove_entry_fault(manifest.deep_view(), entry_id@),
        result matches Ok(edited) ==> edited.deep_view() == remove_entry_result(manifest.deep_view(), entry_id@),
{
    if !has_name(&manifest.lexicon, entry_id) {
        return Err(
            refuse_named(
                VideoErrorCode::MissingReference,
                "pronunciation rule ",
                entry_id,
                " does not exist",
                "operations.entry_id",
            ),
        );
    }
    let lexicon: Vec<LexiconEntry> = remove_named(&manifest.lexicon, entry_id);
    Ok(
        drop_takes_with_stale_pronunciation(
            &manifest.lexicon,
            VideoProjectManifest { lexicon, ..manifest.duplicate() },
        ),
    )
}

// ---------------------------------------------------------------------------------------------
// Drafts
// ---------------------------------------------------------------------------------------------
/// Whether a take is a stand-in for a turn.
pub open spec fn is_draft_of(binding: NarrationBindingModel, turn_id: Seq<char>) -> bool {
    binding.turn_id == Some(turn_id) && binding.fidelity == TakeFidelity::Draft
}

/// Whether a turn has a stand-in take.
pub open spec fn has_draft(m: VideoProjectManifestModel, turn_id: Seq<char>) -> bool {
    exists|i: int| 0 <= i < m.narration_bindings.len() && is_draft_of(#[trigger] m.narration_bindings[i], turn_id)
}

/// The turns from a place on that have a stand-in take, one for each such take.
pub open spec fn draft_turns_from(bindings: Seq<NarrationBindingModel>, index: int) -> Seq<Seq<char>>
    decreases bindings.len() - index,
{
    if index < 0 || index >= bindings.len() {
        Seq::empty()
    } else if bindings[index].fidelity == TakeFidelity::Draft && bindings[index].turn_id is Some {
        seq![bindings[index].turn_id->0] + draft_turns_from(bindings, index + 1)
    } else {
        draft_turns_from(bindings, index + 1)
    }
}

impl VideoProjectManifest {
    /// The turns whose take is still a stand-in.
    pub fn draft_turn_ids(&self) -> (ids: Vec<String>)
        ensures
            ids.deep_view() == draft_turns_from(self.deep_view().narration_bindings, 0),
    {
        let ghost model = self.deep_view().narration_bindings;
        let mut ids: Vec<String> = Vec::new();
        let mut index: usize = 0;
        assert(ids.deep_view() + draft_turns_from(model, 0) =~= draft_turns_from(model, 0));
        while index < self.narration_bindings.len()
            invariant
                index <= self.narration_bindings.len(),
                model == self.deep_view().narration_bindings,
                ids.deep_view() + draft_turns_from(model, index as int) == draft_turns_from(model, 0),
            decreases self.narration_bindings.len() - index,
        {
            let binding: &NarrationBinding = &self.narration_bindings[index];
            assert(model[index as int] == binding.deep_view());
            if binding.fidelity == TakeFidelity::Draft {
                if let Some(turn_id) = &binding.turn_id {
                    let ghost before = ids.deep_view();
                    let ghost rest = draft_turns_from(model, index + 1);
                    ids.push(turn_id.clone());
                    assert(ids.deep_view() =~= before.push(turn_id@));
                    assert(ids.deep_view() + rest =~= before + (seq![turn_id@] + rest));
                }
            }
            index += 1;
        }
        assert(ids.deep_view() =~= draft_turns_from(model, 0));
        ids
    }
}

fn has_draft_take(manifest: &VideoProjectManifest, turn_id: &str) -> (result: bool)
    ensures
        result == has_draft(manifest.deep_view(), turn_id@),
{
    let ghost model = manifest.deep_view().narration_bindings;
    let mut index: usize = 0;
    while index < manifest.narration_bindings.len()
        invariant
            index <= manifest.narration_bindings.len(),
            model == manifest.deep_view().narration_bindings,
            forall|i: int| 0 <= i < index ==> !is_draft_of(#[trigger] model[i], turn_id@),
        decreases manifest.narration_bindings.len() - index,
    {
        let binding: &NarrationBinding = &manifest.narration_bindings[index];
        assert(model[index as int] == binding.deep_view());
        if binding.fidelity == TakeFidelity::Draft && is_text(&binding.turn_id, turn_id) {
            return true;
        }
        index += 1;
    }
    false
}

pub open spec fn undrafted_fault(id: Seq<char>) -> Fault {
    fault_at(
        VideoErrorCode::InvalidPerformance,
        "dialogue turn "@ + id + " does not have a draft take to promote"@,
        "operations.turn_ids"@,
    )
}

/// The first in order, among the wanted turns before a place, that has no stand-in take.
pub open spec fn first_undrafted(m: VideoProjectManifestModel, wanted: Seq<Seq<char>>, count: int) -> Option<Seq<char>>
    decreases count,
{
    if count <= 0 {
        None
    } else {
        let id = wanted[count - 1];
        match first_undrafted(m, wanted, count - 1) {
            Some(best) => if !has_draft(m, id) && text_less(id, best) {
                Some(id)
            } else {
                Some(best)
            },
            None => if has_draft(m, id) {
                None
            } else {
                Some(id)
            },
        }
    }
}

pub open spec fn promote_fault(m: VideoProjectManifestModel, wanted: Seq<Seq<char>>) -> Option<Fault> {
    match first_undrafted(m, wanted, wanted.len() as int) {
        Some(id) => Some(undrafted_fault(id)),
        None => None,
    }
}

/// What keeps every take of a turn that is not wanted.
pub open spec fn takes_of_others(wanted: Seq<Seq<char>>) -> spec_fn(NarrationBindingModel) -> bool {
    |binding: NarrationBindingModel| !(binding.turn_id is Some && wanted.contains(binding.turn_id->0))
}

pub open spec fn promote_result(m: VideoProjectManifestModel, wanted: Seq<Seq<char>>) -> VideoProjectManifestModel {
    VideoProjectManifestModel { narration_bindings: kept(m.narration_bindings, takes_of_others(wanted)), ..m }
}

pub fn is_wanted(wanted: &Vec<String>, id: &str) -> (result: bool)
    ensures
        result == wanted.deep_view().contains(id@),
{
    let ghost model = wanted.deep_view();
    let mut index: usize = 0;
    while index < wanted.len()
        invariant
            index <= wanted.len(),
            model == wanted.deep_view(),
            forall|i: int| 0 <= i < index ==> model[i] != id@,
        decreases wanted.len() - index,
    {
        assert(model[index as int] == wanted[index as int]@);
        if text_eq(wanted[index].as_str(), id) {
            return true;
        }
        index += 1;
    }
    false
}

/// Marks draft lines for re-reading at final fidelity by dropping their stand-in takes. Only the
/// named turns lose their takes, so promoting one line never re-reads the rest of the episode.
pub fn promote_turns_to_final(manifest: &VideoProjectManifest, turn_ids: &Vec<String>) -> (result: VideoResult<
    VideoProjectManifest,
>)
    ensures
        refusal(result) == promote_fault(manifest.deep_view(), turn_ids.deep_view()),
        result matches Ok(edited) ==> edited.deep_view() == promote_result(
            manifest.deep_view(),
            turn_ids.deep_view(),
        ),
{
    let ghost m = manifest.deep_view();
    let ghost wanted = turn_ids.deep_view();
    let mut first: Option<String> = None;
    let mut place: usize = 0;
    while place < turn_ids.len()
        invariant
            place <= turn_ids.len(),
            m == manifest.deep_view(),
            wanted == turn_ids.deep_view(),
            first.deep_view() == first_undrafted(m, wanted, place as int),
        decreases turn_ids.len() - place,
    {
        let id: &String = &turn_ids[place];
        assert(wanted[place as int] == id@);
        if !has_draft_take(manifest, id.as_str()) {
            let earlier: bool = match &first {
                Some(best) => text_before(id.as_str(), best.as_str()),
                None => true,
            };
            if earlier {
                first = Some(id.clone());
            }
        }
        place += 1;
    }
    if let Some(id) = &first {
        return Err(
            refuse_named(
                VideoErrorCode::InvalidPerformance,
                "dialogue turn ",
                id.as_str(),
                " does not have a draft take to promote",
                "operations.turn_ids",
            ),
        );
    }
    let ghost model = m.narration_bindings;
    let ghost keep = takes_of_others(wanted);
    let mut left: Vec<NarrationBinding> = Vec::new();
    let mut index: usize = 0;
    assert(left.deep_view() + kept(model, keep) =~= kept(model, keep));
    while index < manifest.narration_bindings.len()
        invariant
            index <= manifest.narration_bindings.len(),
            model == manifest.deep_view().narration_bindings,
            wanted == turn_ids.deep_view(),
            keep == takes_of_others(wanted),
            left.deep_view() + kept_from(model, keep, index as int) == kept(model, keep),
        decreases manifest.narration_bindings.len() - index,
    {
        let binding: &NarrationBinding = &manifest.narration_bindings[index];
        let ghost own = model[index as int];
        assert(own == binding.deep_view());
        let dropped: bool = match &binding.turn_id {
            Some(turn_id) => is_wanted(turn_ids, turn_id.as_str()),
            None => false,
        };
        if !dropped {
            let ghost before = left.deep_view();
            let ghost rest = kept_from(model, keep, index + 1);
            left.push(binding.duplicate());
            assert(left.deep_view() =~= before.push(own));
            assert(left.deep_view() + rest =~= before + (seq![own] + rest));
        }
        index += 1;
    }
    assert(left.deep_view() =~= kept(model, keep));
    Ok(VideoProjectManifest { narration_bindings: left, ..manifest.duplicate() })
}

// ---------------------------------------------------------------------------------------------
// What is not read again
// ---------------------------------------------------------------------------------------------
/// A new rule for one character drops no take of another.
pub proof fn a_character_rule_keeps_the_takes_of_others(
    m: VideoProjectManifestModel,
    entry: LexiconEntryModel,
    index: int,
)
    requires
        !holds::<LexiconEntry>(m.lexicon, entry.id),
        entry.scope == LexiconScope::Character,
        0 <= index < m.narration_bindings.len(),
        m.narration_bindings[index].turn_id is Some,
        character_of_turn(m.dialogue, m.narration_bindings[index].turn_id->0, m.dialogue.len() as int)
            != entry.character_id,
    ensures
        set_entry_result(m, entry).narration_bindings.contains(m.narration_bindings[index]),
{
    let after = VideoProjectManifestModel { lexicon: put::<LexiconEntry>(m.lexicon, entry), ..m };
    let binding = m.narration_bindings[index];
    let keep = used_in(m.dialogue);
    assert(after.lexicon == m.lexicon.push(entry));
    match character_of_turn(m.dialogue, binding.turn_id->0, m.dialogue.len() as int) {
        Some(character_id) => {
            if keep(entry) {
                lemma_last_is_kept(m.lexicon, entry, keep, 0);
                a_character_rule_leaves_others_alone(used_rules(m.lexicon, m.dialogue), entry, character_id);
            } else {
                a_last_item_may_go(m.lexicon, entry, keep, 0);
            }
        },
        None => {},
    }
    assert(is_current_take(m.lexicon, after, binding));
    what_is_kept_stays(m.narration_bindings, current_takes(m.lexicon, after), 0, index);
}

proof fn lemma_last_is_kept(
    lexicon: Seq<LexiconEntryModel>,
    entry: LexiconEntryModel,
    keep: spec_fn(LexiconEntryModel) -> bool,
    index: int,
)
    requires
        0 <= index <= lexicon.len(),
        keep(entry),
    ensures
        kept_from(lexicon.push(entry), keep, index) == kept_from(lexicon, keep, index).push(entry),
    decreases lexicon.len() - index,
{
    if index < lexicon.len() {
        lemma_last_is_kept(lexicon, entry, keep, index + 1);
        let rest = kept_from(lexicon, keep, index + 1);
        assert(seq![lexicon[index]] + rest.push(entry) =~= (seq![lexicon[index]] + rest).push(entry));
    } else {
        assert(kept_from(lexicon.push(entry), keep, index + 1) =~= Seq::empty());
        assert(seq![entry] + Seq::<LexiconEntryModel>::empty() =~= Seq::<LexiconEntryModel>::empty().push(entry));
    }
}

/// A new rule that no line uses causes nothing to be read again.
pub proof fn an_unused_rule_drops_no_take(m: VideoProjectManifestModel, entry: LexiconEntryModel)
    requires
        !holds::<LexiconEntry>(m.lexicon, entry.id),
        !is_used_from(entry, m.dialogue, 0),
    ensures
        set_entry_result(m, entry).narration_bindings == m.narration_bindings,
{
    let after = VideoProjectManifestModel { lexicon: put::<LexiconEntry>(m.lexicon, entry), ..m };
    assert(after.lexicon == m.lexicon.push(entry));
    a_last_item_may_go(m.lexicon, entry, used_in(m.dialogue), 0);
    lemma_same_use_drops_no_take(m, after);
}

/// Removing rules that no line uses causes nothing to be read again.
pub proof fn removing_an_unused_rule_drops_no_take(m: VideoProjectManifestModel, entry_id: Seq<char>)
    requires
        forall|i: int|
            0 <= i < m.lexicon.len() && (#[trigger] m.lexicon[i]).id == entry_id ==> !is_used_from(
                m.lexicon[i],
                m.dialogue,
                0,
            ),
    ensures
        remove_entry_result(m, entry_id).narration_bindings == m.narration_bindings,
{
    let left = kept(m.lexicon, other_than::<LexiconEntry>(entry_id));
    let after = VideoProjectManifestModel { lexicon: left, ..m };
    what_goes_may_go_first(m.lexicon, other_than::<LexiconEntry>(entry_id), used_in(m.dialogue), 0);
    lemma_same_use_drops_no_take(m, after);
}

proof fn lemma_same_use_drops_no_take(m: VideoProjectManifestModel, after: VideoProjectManifestModel)
    requires
        after == (VideoProjectManifestModel { lexicon: after.lexicon, ..m }),
        used_rules(m.lexicon, m.dialogue) == used_rules(after.lexicon, m.dialogue),
    ensures
        without_stale_takes(m.lexicon, after).narration_bindings == m.narration_bindings,
{
    let keep = current_takes(m.lexicon, after);
    assert forall|i: int| 0 <= i < m.narration_bindings.len() implies keep(#[trigger] m.narration_bindings[i]) by {
        assert(is_current_take(m.lexicon, after, m.narration_bindings[i]));
    }
    all_are_kept(m.narration_bindings, keep, 0);
    assert(m.narration_bindings.skip(0) =~= m.narration_bindings);
}

/// Promoting some lines drops no take of another line.
pub proof fn promoting_a_line_keeps_the_others(m: VideoProjectManifestModel, wanted: Seq<Seq<char>>, index: int)
    requires
        0 <= index < m.narration_bindings.len(),
        m.narration_bindings[index].turn_id matches Some(turn_id) ==> !wanted.contains(turn_id),
    ensures
        promote_result(m, wanted).narration_bindings.contains(m.narration_bindings[index]),
{
    what_is_kept_stays(m.narration_bindings, takes_of_others(wanted), 0, index);
}

/// A promoted line loses its stand-in take, and may be promoted only where it has one: once some lines are promoted
/// no take of theirs is left, and each of them had a draft.
pub proof fn a_promoted_line_is_read_again(m: VideoProjectManifestModel, wanted: Seq<Seq<char>>, turn: int)
    requires
        promote_fault(m, wanted) is None,
        0 <= turn < wanted.len(),
    ensures
        forall|i: int|
            0 <= i < promote_result(m, wanted).narration_bindings.len() ==> (#[trigger] promote_result(
                m,
                wanted,
            ).narration_bindings[i]).turn_id != Some(wanted[turn]),
        exists|i: int|
            0 <= i < m.narration_bindings.len() && (#[trigger] m.narration_bindings[i]).turn_id == Some(wanted[turn])
                && m.narration_bindings[i].fidelity == TakeFidelity::Draft,
        promote_result(m, wanted).tracks == m.tracks,
        promote_result(m, wanted).dialogue == m.dialogue,
{
    let keep = takes_of_others(wanted);
    let places = what_is_kept_keeps_its_order(m.narration_bindings, keep);
    assert forall|i: int| 0 <= i < promote_result(m, wanted).narration_bindings.len() implies (#[trigger] promote_result(
        m,
        wanted,
    ).narration_bindings[i]).turn_id != Some(wanted[turn]) by {
        assert(keep(m.narration_bindings[places[i]]));
    }
    lemma_all_drafted(m, wanted, wanted.len() as int, turn);
    let i = choose|i: int| 0 <= i < m.narration_bindings.len() && is_draft_of(#[trigger] m.narration_bindings[i], wanted[turn]);
    assert(m.narration_bindings[i].turn_id == Some(wanted[turn]));
}

proof fn lemma_all_drafted(m: VideoProjectManifestModel, wanted: Seq<Seq<char>>, count: int, turn: int)
    requires
        0 <= turn < count <= wanted.len(),
        first_undrafted(m, wanted, count) is None,
    ensures
        has_draft(m, wanted[turn]),
    decreases count,
{
    if turn < count - 1 {
        lemma_all_drafted(m, wanted, count - 1, turn);
    }
}

/// A take outlives a change of the rules only where it may: it is governed by no character of the script, it was made
/// under the rules as they now are, or nothing of what its character's lines use has changed.
pub proof fn a_take_outlives_only_its_own_rules(m: VideoProjectManifestModel, entry: LexiconEntryModel, index: int)
    requires
        0 <= index < set_entry_result(m, entry).narration_bindings.len(),
    ensures
        ({
            let after = set_entry_result(m, entry);
            let take = after.narration_bindings[index];
            let who = character_of_turn(m.dialogue, take.turn_id->0, m.dialogue.len() as int);
            &&& m.narration_bindings.contains(take)
            &&& find::<LexiconEntry>(after.lexicon, entry.id) == Some(entry)
            &&& take.turn_id is Some && who is Some && find::<CastMember>(m.cast, who->0) is Some ==> {
                ||| fingerprint(effective(after.lexicon, who->0)) == take.lexicon_fingerprint
                ||| fingerprint(effective(used_rules(m.lexicon, m.dialogue), who->0)) == fingerprint(
                    effective(used_rules(after.lexicon, m.dialogue), who->0),
                )
            }
        }),
{
    let changed = VideoProjectManifestModel { lexicon: put::<LexiconEntry>(m.lexicon, entry), ..m };
    let keep = current_takes(m.lexicon, changed);
    let places = what_is_kept_keeps_its_order(m.narration_bindings, keep);
    let take = m.narration_bindings[places[index]];
    assert(keep(take));
    assert(m.narration_bindings.contains(take));
    assert(LexiconEntry::name_of(entry) == entry.id);
    what_is_put_is_found::<LexiconEntry>(m.lexicon, entry);
}

/// A beat that was set is the writer's, before that turn and no other. Clearing it gives the turn its derived beat
/// back, and leaves the beats of other turns alone.
pub proof fn a_set_beat_is_held_until_it_is_cleared(
    m: VideoProjectManifestModel,
    turn_id: Seq<char>,
    lead_in_us: Microseconds,
    overlap_us: Microseconds,
    derived: Seq<TurnBeatModel>,
)
    requires
        set_beat_fault(m, turn_id, lead_in_us, overlap_us) is None,
        derived.len() == m.dialogue.len(),
        forall|i: int| 0 <= i < derived.len() ==> (#[trigger] derived[i]).turn_id == m.dialogue[i].id,
    ensures
        ({
            let held = set_beat_result(m, turn_id, lead_in_us, overlap_us);
            let beat = find::<TurnBeat>(held.turn_beats, turn_id);
            let cleared = clear_beat_result(held, turn_id, derived);
            let restored = find::<TurnBeat>(cleared.turn_beats, turn_id);
            &&& beat is Some
            &&& beat->0.lead_in_us == lead_in_us
            &&& beat->0.overlap_us == overlap_us
            &&& beat->0.source == BeatSource::Explicit
            &&& forall|other: Seq<char>|
                other != turn_id ==> #[trigger] find::<TurnBeat>(held.turn_beats, other) == find::<TurnBeat>(
                    m.turn_beats,
                    other,
                )
            &&& clear_beat_fault(held, turn_id, derived) is None
            &&& restored is Some
            &&& derived.contains(restored->0)
            &&& restored->0.turn_id == turn_id
            &&& forall|other: Seq<char>|
                other != turn_id ==> #[trigger] find::<TurnBeat>(cleared.turn_beats, other) == find::<TurnBeat>(
                    m.turn_beats,
                    other,
                )
            &&& cleared.dialogue == m.dialogue
            &&& cleared.narration_bindings == m.narration_bindings
        }),
{
    let beat = explicit_beat(turn_id, lead_in_us, overlap_us);
    assert(TurnBeat::name_of(beat) == turn_id);
    what_is_put_is_found::<TurnBeat>(m.turn_beats, beat);
    let held = set_beat_result(m, turn_id, lead_in_us, overlap_us);
    what_is_found_bears_the_name::<TurnBeat>(held.turn_beats, turn_id);
    what_is_found_bears_the_name::<DialogueTurn>(m.dialogue, turn_id);
    let position = place_of::<DialogueTurn>(m.dialogue, turn_id)->0;
    let restored = derived[position];
    assert(DialogueTurn::name_of(m.dialogue[position]) == turn_id);
    assert(restored.turn_id == turn_id);
    assert(TurnBeat::name_of(restored) == turn_id);
    let place = place_of::<TurnBeat>(held.turn_beats, turn_id)->0;
    assert(held.turn_beats[place] == beat);
    assert(is_held(held.turn_beats, turn_id));
    let cleared = clear_beat_result(held, turn_id, derived);
    assert(cleared.turn_beats == put::<TurnBeat>(held.turn_beats, restored));
    what_is_put_is_found::<TurnBeat>(held.turn_beats, restored);
}

/// A visual layer that is placed anew shows the same picture where, when and how it was asked to; no other layer
/// changes.
pub proof fn a_placed_layer_keeps_its_picture(
    m: VideoProjectManifestModel,
    layer_id: Seq<char>,
    placement: VisualPlacementModel,
)
    requires
        update_layer_fault(m, layer_id, placement) is None,
    ensures
        ({
            let after = update_layer_result(m, layer_id, placement);
            let before = find::<VisualLayer>(m.visual_layers, layer_id);
            let layer = find::<VisualLayer>(after.visual_layers, layer_id);
            &&& before is Some && layer is Some
            &&& layer->0.id == layer_id
            &&& layer->0.asset_id == before->0.asset_id
            &&& layer->0.range == placement.range
            &&& layer->0.scene_id == placement.scene_id
            &&& layer->0.fit == placement.fit
            &&& layer->0.crop == placement.crop
            &&& layer->0.z_index == placement.z_index
            &&& layer->0.motion == placement.motion
            &&& layer->0.transition_in_us == placement.transition_in_us
            &&& layer->0.transition_out_us == placement.transition_out_us
            &&& after.visual_layers.len() == m.visual_layers.len()
            &&& forall|other: Seq<char>|
                other != layer_id ==> #[trigger] find::<VisualLayer>(after.visual_layers, other) == find::<VisualLayer>(
                    m.visual_layers,
                    other,
                )
        }),
{
    what_is_found_bears_the_name::<VisualLayer>(m.visual_layers, layer_id);
    let place = place_of::<VisualLayer>(m.visual_layers, layer_id)->0;
    let layer = placed_layer(m.visual_layers[place], placement);
    assert(VisualLayer::name_of(layer) == layer_id);
    assert(update_layer_result(m, layer_id, placement).visual_layers == put::<VisualLayer>(m.visual_layers, layer));
    what_is_put_is_found::<VisualLayer>(m.visual_layers, layer);
}

/// The turns that still stand in with a draft are those of the draft takes, in the order of the takes.
pub proof fn drafts_are_listed(bindings: Seq<NarrationBindingModel>, from: int)
    requires
        0 <= from <= bindings.len(),
    ensures
        forall|id: Seq<char>| #[trigger]
            draft_turns_from(bindings, from).contains(id) <==> exists|i: int|
                from <= i < bindings.len() && (#[trigger] bindings[i]).turn_id == Some(id) && bindings[i].fidelity
                    == TakeFidelity::Draft,
    decreases bindings.len() - from,
{
    if from < bindings.len() {
        drafts_are_listed(bindings, from + 1);
        let rest = draft_turns_from(bindings, from + 1);
        let all = draft_turns_from(bindings, from);
        assert forall|id: Seq<char>| #[trigger] all.contains(id) <==> exists|i: int|
            from <= i < bindings.len() && (#[trigger] bindings[i]).turn_id == Some(id) && bindings[i].fidelity
                == TakeFidelity::Draft by {
            let more = all.len() - rest.len();
            if all.contains(id) {
                let k = choose|k: int| 0 <= k < all.len() && all[k] == id;
                if k >= more {
                    assert(rest[k - more] == id);
                    assert(rest.contains(id));
                } else {
                    assert(bindings[from].turn_id == Some(id));
                }
            }
            if exists|i: int|
                from <= i < bindings.len() && (#[trigger] bindings[i]).turn_id == Some(id) && bindings[i].fidelity
                    == TakeFidelity::Draft {
                let i = choose|i: int|
                    from <= i < bindings.len() && (#[trigger] bindings[i]).turn_id == Some(id) && bindings[i].fidelity
                        == TakeFidelity::Draft;
                if i == from {
                    assert(all[0] == id);
                } else {
                    assert(rest.contains(id));
                    let k = choose|k: int| 0 <= k < rest.len() && rest[k] == id;
                    assert(all[k + more] == id);
                }
            }
        }
    }
}

} // verus!
