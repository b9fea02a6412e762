//! Pure, deterministic edits of a project's timeline.
//!
//! Nothing here takes a lock, reads a stored version, advances the revision, appends history or
//! writes a file. The program around it binds `base_version_id` to the current record and commits
//! the returned project with the receipt.

use crate::error::{fault_at, or_else, refusal, refuse, unless, Fault, VideoErrorCode, VideoResult};
use crate::manifest::{
    LexiconEntry, LexiconEntryModel, MusicCue, MusicCueModel, RevisionStage, SoundLayer, SoundLayerModel, TurnBeat,
    TurnBeatModel, VideoProjectManifest, VideoProjectManifestModel,
};
use crate::merge::{merge_fault, merge_result, merge_scenes};
use crate::model::Model;
use crate::operations::{
    clear_beat_fault, clear_beat_result, clear_turn_beat, promote_fault, promote_result, promote_turns_to_final,
    remove_entry_fault, remove_entry_result, remove_lexicon_entry, set_beat_fault, set_beat_result, set_entry_result,
    set_lexicon_entry, set_turn_beat, update_layer_fault, update_layer_result, update_visual_layer, VisualPlacement,
    VisualPlacementModel,
};
use crate::ownership::{editable_fault, validate_editable_scene_references};
use crate::reorder::{reorder_fault, reorder_result, reorder_scene};
use crate::rules::{identifier_fault, optional_identifier_fault, validate_identifier, validate_optional_identifier};
use crate::score::{
    place_cue_fault, place_cue_result, place_music_cue, register_fault, register_result, register_sound_asset,
    remove_asset_fault, remove_asset_result, remove_cue_fault, remove_cue_result, remove_music_cue,
    remove_sound_asset, remove_sound_fault, remove_sound_layer, remove_sound_result, set_cue_fault, set_cue_result,
    set_music_cue, set_sound_fault, set_sound_layer, set_sound_result, BedDucking,
};
use crate::split::{split_fault, split_result, split_scene};
use crate::stages::{are_stale, invalidated_stages_for_manifest_changes, PathStages, PathStagesModel};
use crate::text::{decimal, decimal_text, text_concat3, text_eq};
use crate::time::{Microseconds, TimeRange, Validate};
use crate::trim::{trim_fault, trim_result, trim_scene};
use vstd::prelude::*;

verus! {

pub const MAX_TIMELINE_EDIT_OPERATIONS: usize = 100;

/// One step of an edit.
#[derive(Clone, Debug, PartialEq, Eq)]
pub enum VideoTimelineOperation {
    SplitScene { scene_id: String, at_timeline_us: Microseconds },
    TrimScene { scene_id: String, source_start_us: Microseconds, source_end_us: Microseconds },
    ReorderScene { scene_id: String, to_index: usize },
    /// Exact inverse of a deterministic split. Arbitrary adjacent scenes are not mergeable.
    MergeScenes { first_scene_id: String, second_scene_id: String },
    /// Overrides the silence, or the overlap, before one dialogue turn. An explicit beat is the
    /// writer's decision and survives every later edit that leaves this turn's words alone.
    SetTurnBeat { turn_id: String, lead_in_us: Microseconds, overlap_us: Microseconds },
    /// Returns one turn to the beat derived from the script.
    ClearTurnBeat { turn_id: String },
    /// Adds or replaces one pronunciation rule. Takes produced under the rules this changes are
    /// dropped, so the affected lines are re-read and no other line is disturbed.
    SetLexiconEntry { entry: LexiconEntry },
    /// Removes one pronunciation rule, dropping the takes it governed.
    RemoveLexiconEntry { entry_id: String },
    /// Adds or replaces one music cue. A bed placed on a track is given its ducking envelope.
    SetMusicCue { cue: MusicCue },
    /// Removes one music cue and the mix track it owned.
    RemoveMusicCue { cue_id: String },
    /// Places generated music on the timeline for a planned cue.
    PlaceMusicCue { cue_id: String, source_asset_id: String },
    /// Registers already-imported managed media as a tagged sound-design asset.
    RegisterSoundAsset { asset_id: String, source_asset_id: String, name: String, tags: Vec<String> },
    /// Removes one sound-design asset and every placement that used it.
    RemoveSoundAsset { asset_id: String },
    /// Marks draft lines for re-reading at final fidelity by dropping their stand-in takes.
    PromoteTurnsToFinal { turn_ids: Vec<String> },
    /// Adds or replaces one sound-design placement.
    SetSoundLayer { layer: SoundLayer },
    /// Removes one sound-design placement.
    RemoveSoundLayer { layer_id: String },
    /// Repositions or animates an existing managed visual without replacing its immutable bytes.
    UpdateVisualLayer { layer_id: String, placement: VisualPlacement },
}

/// What a [`VideoTimelineOperation`] holds, as mathematical values.
pub enum OperationModel {
    SplitScene { scene_id: Seq<char>, at_timeline_us: Microseconds },
    TrimScene { scene_id: Seq<char>, source_start_us: Microseconds, source_end_us: Microseconds },
    ReorderScene { scene_id: Seq<char>, to_index: int },
    MergeScenes { first_scene_id: Seq<char>, second_scene_id: Seq<char> },
    SetTurnBeat { turn_id: Seq<char>, lead_in_us: Microseconds, overlap_us: Microseconds },
    ClearTurnBeat { turn_id: Seq<char> },
    SetLexiconEntry { entry: LexiconEntryModel },
    RemoveLexiconEntry { entry_id: Seq<char> },
    SetMusicCue { cue: MusicCueModel },
    RemoveMusicCue { cue_id: Seq<char> },
    PlaceMusicCue { cue_id: Seq<char>, source_asset_id: Seq<char> },
    RegisterSoundAsset {
        asset_id: Seq<char>,
        source_asset_id: Seq<char>,
        name: Seq<char>,
        tags: Seq<Seq<char>>,
    },
    RemoveSoundAsset { asset_id: Seq<char> },
    PromoteTurnsToFinal { turn_ids: Seq<Seq<char>> },
    SetSoundLayer { layer: SoundLayerModel },
    RemoveSoundLayer { layer_id: Seq<char> },
    UpdateVisualLayer { layer_id: Seq<char>, placement: VisualPlacementModel },
}

impl DeepView for VideoTimelineOperation {
    type V = OperationModel;

    open spec fn deep_view(&self) -> OperationModel {
        match self {
            VideoTimelineOperation::SplitScene { scene_id, at_timeline_us } => OperationModel::SplitScene {
                scene_id: scene_id@,
                at_timeline_us: *at_timeline_us,
            },
            VideoTimelineOperation::TrimScene { scene_id, source_start_us, source_end_us } => OperationModel::TrimScene {
                scene_id: scene_id@,
                source_start_us: *source_start_us,
                source_end_us: *source_end_us,
            },
            VideoTimelineOperation::ReorderScene { scene_id, to_index } => OperationModel::ReorderScene {
                scene_id: scene_id@,
                to_index: *to_index as int,
            },
            VideoTimelineOperation::MergeScenes { first_scene_id, second_scene_id } => OperationModel::MergeScenes {
                first_scene_id: first_scene_id@,
                second_scene_id: second_scene_id@,
            },
            VideoTimelineOperation::SetTurnBeat { turn_id, lead_in_us, overlap_us } => OperationModel::SetTurnBeat {
                turn_id: turn_id@,
                lead_in_us: *lead_in_us,
                overlap_us: *overlap_us,
            },
            VideoTimelineOperation::ClearTurnBeat { turn_id } => OperationModel::ClearTurnBeat {
                turn_id: turn_id@,
            },
            VideoTimelineOperation::SetLexiconEntry { entry } => OperationModel::SetLexiconEntry {
                entry: entry.deep_view(),
            },
            VideoTimelineOperation::RemoveLexiconEntry { entry_id } => OperationModel::RemoveLexiconEntry {
                entry_id: entry_id@,
            },
            VideoTimelineOperation::SetMusicCue { cue } => OperationModel::SetMusicCue { cue: cue.deep_view() },
            VideoTimelineOperation::RemoveMusicCue { cue_id } => OperationModel::RemoveMusicCue {
                cue_id: cue_id@,
            },
            VideoTimelineOperation::PlaceMusicCue { cue_id, source_asset_id } => OperationModel::PlaceMusicCue {
                cue_id: cue_id@,
                source_asset_id: source_asset_id@,
            },
            VideoTimelineOperation::RegisterSoundAsset { asset_id, source_asset_id, name, tags } => OperationModel::RegisterSoundAsset {
                asset_id: asset_id@,
                source_asset_id: source_asset_id@,
                name: name@,
                tags: tags.deep_view(),
            },
            VideoTimelineOperation::RemoveSoundAsset { asset_id } => OperationModel::RemoveSoundAsset {
                asset_id: asset_id@,
            },
            VideoTimelineOperation::PromoteTurnsToFinal { turn_ids } => OperationModel::PromoteTurnsToFinal {
                turn_ids: turn_ids.deep_view(),
            },
            VideoTimelineOperation::SetSoundLayer { layer } => OperationModel::SetSoundLayer {
                layer: layer.deep_view(),
            },
            VideoTimelineOperation::RemoveSoundLayer { layer_id } => OperationModel::RemoveSoundLayer {
                layer_id: layer_id@,
            },
            VideoTimelineOperation::UpdateVisualLayer { layer_id, placement } => OperationModel::UpdateVisualLayer {
                layer_id: layer_id@,
                placement: placement.deep_view(),
            },
        }
    }
}

/// An ordered batch of steps, and the version of the project that it is meant for.
#[derive(Clone, Debug, PartialEq, Eq)]
pub struct VideoTimelineEditRequest {
    pub project_id: String,
    pub expected_revision: u64,
    /// Opaque stored version. It is echoed; the program around the library compares it.
    pub base_version_id: String,
    /// Idempotency key for the complete ordered operation batch.
    pub operation_id: String,
    pub operations: Vec<VideoTimelineOperation>,
}

/// What a [`VideoTimelineEditRequest`] holds, as mathematical values.
pub struct EditRequestModel {
    pub project_id: Seq<char>,
    pub expected_revision: u64,
    pub base_version_id: Seq<char>,
    pub operation_id: Seq<char>,
    pub operations: Seq<OperationModel>,
}

impl DeepView for VideoTimelineEditRequest {
    type V = EditRequestModel;

    open spec fn deep_view(&self) -> EditRequestModel {
        EditRequestModel {
            project_id: self.project_id@,
            expected_revision: self.expected_revision,
            base_version_id: self.base_version_id@,
            operation_id: self.operation_id@,
            operations: self.operations.deep_view(),
        }
    }
}

/// What an edit needs from outside the project: the beats that the script implies, turn by turn, how
/// a bed gives way to speech, and the stages that a change to each part makes stale.
#[derive(Clone, Debug, PartialEq, Eq)]
pub struct EditingDefaults {
    pub derived_beats: Vec<TurnBeat>,
    pub bed: BedDucking,
    pub stages: Vec<PathStages>,
}

/// What [`EditingDefaults`] hold, as mathematical values.
pub struct EditingDefaultsModel {
    pub derived_beats: Seq<TurnBeatModel>,
    pub bed: BedDucking,
    pub stages: Seq<PathStagesModel>,
}

impl DeepView for EditingDefaults {
    type V = EditingDefaultsModel;

    open spec fn deep_view(&self) -> EditingDefaultsModel {
        EditingDefaultsModel {
            derived_beats: self.derived_beats.deep_view(),
            bed: self.bed,
            stages: self.stages.deep_view(),
        }
    }
}

// ---------------------------------------------------------------------------------------------
// The rules on a request
// ---------------------------------------------------------------------------------------------
pub open spec fn turn_ids_fault_from(turn_ids: Seq<Seq<char>>, index: int) -> Option<Fault>
    decreases turn_ids.len() - index,
{
    if index < 0 || index >= turn_ids.len() {
        None
    } else {
        or_else(
            identifier_fault(turn_ids[index], "operations.turn_ids"@),
            turn_ids_fault_from(turn_ids, index + 1),
        )
    }
}

/// The rules on what a step names, whatever the project holds.
pub open spec fn operation_fault(operation: OperationModel) -> Option<Fault> {
    match operation {
        OperationModel::SplitScene { scene_id, .. } => identifier_fault(scene_id, "operations.scene_id"@),
        OperationModel::TrimScene { scene_id, .. } => identifier_fault(scene_id, "operations.scene_id"@),
        OperationModel::ReorderScene { scene_id, .. } => identifier_fault(scene_id, "operations.scene_id"@),
        OperationModel::MergeScenes { first_scene_id, second_scene_id } => or_else(
            identifier_fault(first_scene_id, "operations.first_scene_id"@),
            identifier_fault(second_scene_id, "operations.second_scene_id"@),
        ),
        OperationModel::SetTurnBeat { turn_id, .. } => identifier_fault(turn_id, "operations.turn_id"@),
        OperationModel::ClearTurnBeat { turn_id } => identifier_fault(turn_id, "operations.turn_id"@),
        OperationModel::SetLexiconEntry { entry } => LexiconEntry::fault_of(entry),
        OperationModel::RemoveLexiconEntry { entry_id } => identifier_fault(entry_id, "operations.entry_id"@),
        OperationModel::SetMusicCue { cue } => MusicCue::fault_of(cue),
        OperationModel::RemoveMusicCue { cue_id } => identifier_fault(cue_id, "operations.cue_id"@),
        OperationModel::PlaceMusicCue { cue_id, source_asset_id } => or_else(
            identifier_fault(cue_id, "operations.cue_id"@),
            identifier_fault(source_asset_id, "operations.source_asset_id"@),
        ),
        OperationModel::RegisterSoundAsset { asset_id, source_asset_id, .. } => or_else(
            identifier_fault(asset_id, "operations.asset_id"@),
            identifier_fault(source_asset_id, "operations.source_asset_id"@),
        ),
        OperationModel::RemoveSoundAsset { asset_id } => identifier_fault(asset_id, "operations.asset_id"@),
        OperationModel::PromoteTurnsToFinal { turn_ids } => or_else(
            unless(
                turn_ids.len() > 0,
                fault_at(
                    VideoErrorCode::InvalidPerformance,
                    "name at least one draft line to re-read"@,
                    "operations.turn_ids"@,
                ),
            ),
            turn_ids_fault_from(turn_ids, 0),
        ),
        OperationModel::SetSoundLayer { layer } => SoundLayer::fault_of(layer),
        OperationModel::RemoveSoundLayer { layer_id } => identifier_fault(layer_id, "operations.layer_id"@),
        OperationModel::UpdateVisualLayer { layer_id, placement } => or_else(
            identifier_fault(layer_id, "operations.layer_id"@),
            optional_identifier_fault(placement.scene_id, "operations.scene_id"@),
        ),
    }
}

pub open spec fn operations_fault_from(operations: Seq<OperationModel>, index: int) -> Option<Fault>
    decreases operations.len() - index,
{
    if index < 0 || index >= operations.len() {
        None
    } else {
        or_else(operation_fault(operations[index]), operations_fault_from(operations, index + 1))
    }
}

/// The rules on a request that concern the version it is meant for and how much it asks.
pub open spec fn target_fault(m: VideoProjectManifestModel, request: EditRequestModel) -> Option<Fault> {
    or_else(
        unless(
            request.project_id == m.project_id,
            fault_at(
                VideoErrorCode::MissingReference,
                "timeline edit targets a different project"@,
                "project_id"@,
            ),
        ),
        or_else(
            unless(
                request.expected_revision == m.revision,
                fault_at(
                    VideoErrorCode::InvalidRevision,
                    "timeline edit expects revision "@ + decimal(request.expected_revision as nat)
                        + ", but the manifest is at "@ + decimal(m.revision as nat),
                    "expected_revision"@,
                ),
            ),
            unless(
                1 <= request.operations.len() <= MAX_TIMELINE_EDIT_OPERATIONS,
                fault_at(
                    VideoErrorCode::InvalidScene,
                    "timeline edit requires 1..="@ + decimal(MAX_TIMELINE_EDIT_OPERATIONS as nat)
                        + " operations"@,
                    "operations"@,
                ),
            ),
        ),
    )
}

/// Why a request is refused before any step is taken.
pub open spec fn request_fault(m: VideoProjectManifestModel, request: EditRequestModel) -> Option<Fault> {
    or_else(
        identifier_fault(request.project_id, "project_id"@),
        or_else(
            identifier_fault(request.base_version_id, "base_version_id"@),
            or_else(
                identifier_fault(request.operation_id, "operation_id"@),
                or_else(target_fault(m, request), operations_fault_from(request.operations, 0)),
            ),
        ),
    )
}

fn check_turn_ids(turn_ids: &Vec<String>) -> (result: VideoResult<()>)
    ensures
        refusal(result) == turn_ids_fault_from(turn_ids.deep_view(), 0),
{
    let ghost model = turn_ids.deep_view();
    let mut index: usize = 0;
    while index < turn_ids.len()
        invariant
            index <= turn_ids.len(),
            model == turn_ids.deep_view(),
            turn_ids_fault_from(model, 0) == turn_ids_fault_from(model, index as int),
        decreases turn_ids.len() - index,
    {
        assert(model[index as int] == turn_ids[index as int]@);
        validate_identifier(turn_ids[index].as_str(), "operations.turn_ids")?;
        index += 1;
    }
    Ok(())
}

fn check_operation(operation: &VideoTimelineOperation) -> (result: VideoResult<()>)
    ensures
        refusal(result) == operation_fault(operation.deep_view()),
{
    match operation {
        VideoTimelineOperation::SplitScene { scene_id, .. } => validate_identifier(
            scene_id.as_str(),
            "operations.scene_id",
        ),
        VideoTimelineOperation::TrimScene { scene_id, .. } => validate_identifier(
            scene_id.as_str(),
            "operations.scene_id",
        ),
        VideoTimelineOperation::ReorderScene { scene_id, .. } => validate_identifier(
            scene_id.as_str(),
            "operations.scene_id",
        ),
        VideoTimelineOperation::MergeScenes { first_scene_id, second_scene_id } => {
            validate_identifier(first_scene_id.as_str(), "operations.first_scene_id")?;
            validate_identifier(second_scene_id.as_str(), "operations.second_scene_id")
        },
        VideoTimelineOperation::SetTurnBeat { turn_id, .. } => validate_identifier(
            turn_id.as_str(),
            "operations.turn_id",
        ),
        VideoTimelineOperation::ClearTurnBeat { turn_id } => validate_identifier(
            turn_id.as_str(),
            "operations.turn_id",
        ),
        VideoTimelineOperation::SetLexiconEntry { entry } => entry.validate(),
        VideoTimelineOperation::RemoveLexiconEntry { entry_id } => validate_identifier(
            entry_id.as_str(),
            "operations.entry_id",
        ),
        VideoTimelineOperation::SetMusicCue { cue } => cue.validate(),
        VideoTimelineOperation::RemoveMusicCue { cue_id } => validate_identifier(
            cue_id.as_str(),
            "operations.cue_id",
        ),
        VideoTimelineOperation::PlaceMusicCue { cue_id, source_asset_id } => {
            validate_identifier(cue_id.as_str(), "operations.cue_id")?;
            validate_identifier(source_asset_id.as_str(), "operations.source_asset_id")
        },
        VideoTimelineOperation::RegisterSoundAsset { asset_id, source_asset_id, .. } => {
            validate_identifier(asset_id.as_str(), "operations.asset_id")?;
            validate_identifier(source_asset_id.as_str(), "operations.source_asset_id")
        },
        VideoTimelineOperation::RemoveSoundAsset { asset_id } => validate_identifier(
            asset_id.as_str(),
            "operations.asset_id",
        ),
        VideoTimelineOperation::PromoteTurnsToFinal { turn_ids } => {
            if turn_ids.len() == 0 {
                return Err(
                    refuse(
                        VideoErrorCode::InvalidPerformance,
                        "name at least one draft line to re-read",
                        "operations.turn_ids",
                    ),
                );
            }
            check_turn_ids(turn_ids)
        },
        VideoTimelineOperation::SetSoundLayer { layer } => layer.validate(),
        VideoTimelineOperation::RemoveSoundLayer { layer_id } => validate_identifier(
            layer_id.as_str(),
            "operations.layer_id",
        ),
        VideoTimelineOperation::UpdateVisualLayer { layer_id, placement } => {
            validate_identifier(layer_id.as_str(), "operations.layer_id")?;
            validate_optional_identifier(&placement.scene_id, "operations.scene_id")
        },
    }
}

fn check_target(manifest: &VideoProjectManifest, request: &VideoTimelineEditRequest) -> (result: VideoResult<()>)
    ensures
        refusal(result) == target_fault(manifest.deep_view(), request.deep_view()),
{
    if !text_eq(request.project_id.as_str(), manifest.project_id.as_str()) {
        return Err(
            refuse(
                VideoErrorCode::MissingReference,
                "timeline edit targets a different project",
                "project_id",
            ),
        );
    }
    if request.expected_revision != manifest.revision {
        let mut message: String = String::from_str("timeline edit expects revision ");
        let expected: String = decimal_text(request.expected_revision);
        let current: String = decimal_text(manifest.revision);
        message.append(expected.as_str());
        message.append(", but the manifest is at ");
        message.append(current.as_str());
        return Err(refuse(VideoErrorCode::InvalidRevision, message.as_str(), "expected_revision"));
    }
    if request.operations.len() == 0 || request.operations.len() > MAX_TIMELINE_EDIT_OPERATIONS {
        let limit: String = decimal_text(MAX_TIMELINE_EDIT_OPERATIONS as u64);
        let message: String = text_concat3("timeline edit requires 1..=", limit.as_str(), " operations");
        return Err(refuse(VideoErrorCode::InvalidScene, message.as_str(), "operations"));
    }
    Ok(())
}

/// Checks a request before any step is taken.
pub fn validate_request(manifest: &VideoProjectManifest, request: &VideoTimelineEditRequest) -> (result: VideoResult<()>)
    ensures
        refusal(result) == request_fault(manifest.deep_view(), request.deep_view()),
{
    let ghost r = request.deep_view();
    validate_identifier(request.project_id.as_str(), "project_id")?;
    validate_identifier(request.base_version_id.as_str(), "base_version_id")?;
    validate_identifier(request.operation_id.as_str(), "operation_id")?;
    check_target(manifest, request)?;
    let ghost m = manifest.deep_view();
    let mut index: usize = 0;
    while index < request.operations.len()
        invariant
            index <= request.operations.len(),
            r == request.deep_view(),
            m == manifest.deep_view(),
            request_fault(m, r) == operations_fault_from(r.operations, index as int),
        decreases request.operations.len() - index,
    {
        assert(r.operations[index as int] == request.operations[index as int].deep_view());
        check_operation(&request.operations[index])?;
        index += 1;
    }
    Ok(())
}

// ---------------------------------------------------------------------------------------------
// Steps
// ---------------------------------------------------------------------------------------------
/// Why a step cannot be taken.
pub open spec fn step_fault(m: VideoProjectManifestModel, operation: OperationModel, defaults: EditingDefaultsModel) -> Option<
    Fault,
> {
    match operation {
        OperationModel::SplitScene { scene_id, at_timeline_us } => split_fault(m, scene_id, at_timeline_us),
        OperationModel::TrimScene { scene_id, source_start_us, source_end_us } => trim_fault(
            m,
            scene_id,
            TimeRange { start_us: source_start_us, end_us: source_end_us },
        ),
        OperationModel::ReorderScene { scene_id, to_index } => reorder_fault(m, scene_id, to_index),
        OperationModel::MergeScenes { first_scene_id, second_scene_id } => merge_fault(
            m,
            first_scene_id,
            second_scene_id,
        ),
        OperationModel::SetTurnBeat { turn_id, lead_in_us, overlap_us } => set_beat_fault(
            m,
            turn_id,
            lead_in_us,
            overlap_us,
        ),
        OperationModel::ClearTurnBeat { turn_id } => clear_beat_fault(m, turn_id, defaults.derived_beats),
        OperationModel::SetLexiconEntry { entry } => LexiconEntry::fault_of(entry),
        OperationModel::RemoveLexiconEntry { entry_id } => remove_entry_fault(m, entry_id),
        OperationModel::SetMusicCue { cue } => set_cue_fault(m, cue),
        OperationModel::RemoveMusicCue { cue_id } => remove_cue_fault(m, cue_id),
        OperationModel::PlaceMusicCue { cue_id, source_asset_id } => place_cue_fault(m, cue_id, source_asset_id),
        OperationModel::RegisterSoundAsset { asset_id, source_asset_id, name, tags } => register_fault(
            m,
            asset_id,
            source_asset_id,
            name,
            tags,
        ),
        OperationModel::RemoveSoundAsset { asset_id } => remove_asset_fault(m, asset_id),
        OperationModel::PromoteTurnsToFinal { turn_ids } => promote_fault(m, turn_ids),
        OperationModel::SetSoundLayer { layer } => set_sound_fault(m, layer),
        OperationModel::RemoveSoundLayer { layer_id } => remove_sound_fault(m, layer_id),
        OperationModel::UpdateVisualLayer { layer_id, placement } => update_layer_fault(m, layer_id, placement),
    }
}

/// The project after a step.
pub open spec fn step_result(m: VideoProjectManifestModel, operation: OperationModel, defaults: EditingDefaultsModel) -> VideoProjectManifestModel {
    match operation {
        OperationModel::SplitScene { scene_id, at_timeline_us } => split_result(m, scene_id, at_timeline_us),
        OperationModel::TrimScene { scene_id, source_start_us, source_end_us } => trim_result(
            m,
            scene_id,
            TimeRange { start_us: source_start_us, end_us: source_end_us },
        ),
        OperationModel::ReorderScene { scene_id, to_index } => reorder_result(m, scene_id, to_index),
        OperationModel::MergeScenes { first_scene_id, second_scene_id } => merge_result(
            m,
            first_scene_id,
            second_scene_id,
        ),
        OperationModel::SetTurnBeat { turn_id, lead_in_us, overlap_us } => set_beat_result(
            m,
            turn_id,
            lead_in_us,
            overlap_us,
        ),
        OperationModel::ClearTurnBeat { turn_id } => clear_beat_result(m, turn_id, defaults.derived_beats),
        OperationModel::SetLexiconEntry { entry } => set_entry_result(m, entry),
        OperationModel::RemoveLexiconEntry { entry_id } => remove_entry_result(m, entry_id),
        OperationModel::SetMusicCue { cue } => set_cue_result(m, cue, defaults.bed),
        OperationModel::RemoveMusicCue { cue_id } => remove_cue_result(m, cue_id),
        OperationModel::PlaceMusicCue { cue_id, source_asset_id } => place_cue_result(
            m,
            cue_id,
            source_asset_id,
            defaults.bed,
        ),
        OperationModel::RegisterSoundAsset { asset_id, source_asset_id, name, tags } => register_result(
            m,
            asset_id,
            source_asset_id,
            name,
            tags,
        ),
        OperationModel::RemoveSoundAsset { asset_id } => remove_asset_result(m, asset_id),
        OperationModel::PromoteTurnsToFinal { turn_ids } => promote_result(m, turn_ids),
        OperationModel::SetSoundLayer { layer } => set_sound_result(m, layer),
        OperationModel::RemoveSoundLayer { layer_id } => remove_sound_result(m, layer_id),
        OperationModel::UpdateVisualLayer { layer_id, placement } => update_layer_result(m, layer_id, placement),
    }
}

fn take_step(manifest: &VideoProjectManifest, operation: &VideoTimelineOperation, defaults: &EditingDefaults) -> (result: VideoResult<
    VideoProjectManifest,
>)
    ensures
        refusal(result) == step_fault(manifest.deep_view(), operation.deep_view(), defaults.deep_view()),
        result matches Ok(edited) ==> edited.deep_view() == step_result(
            manifest.deep_view(),
            operation.deep_view(),
            defaults.deep_view(),
        ),
{
    match operation {
        VideoTimelineOperation::SplitScene { scene_id, at_timeline_us } => split_scene(
            manifest,
            scene_id.as_str(),
            *at_timeline_us,
        ),
        VideoTimelineOperation::TrimScene { scene_id, source_start_us, source_end_us } => trim_scene(
            manifest,
            scene_id.as_str(),
            *source_start_us,
            *source_end_us,
        ),
        VideoTimelineOperation::ReorderScene { scene_id, to_index } => reorder_scene(
            manifest,
            scene_id.as_str(),
            *to_index,
        ),
        VideoTimelineOperation::MergeScenes { first_scene_id, second_scene_id } => merge_scenes(
            manifest,
            first_scene_id.as_str(),
            second_scene_id.as_str(),
        ),
        VideoTimelineOperation::SetTurnBeat { turn_id, lead_in_us, overlap_us } => set_turn_beat(
            manifest,
            turn_id.as_str(),
            *lead_in_us,
            *overlap_us,
        ),
        VideoTimelineOperation::ClearTurnBeat { turn_id } => clear_turn_beat(
            manifest,
            turn_id.as_str(),
            &defaults.derived_beats,
        ),
        VideoTimelineOperation::SetLexiconEntry { entry } => set_lexicon_entry(manifest, entry),
        VideoTimelineOperation::RemoveLexiconEntry { entry_id } => remove_lexicon_entry(
            manifest,
            entry_id.as_str(),
        ),
        VideoTimelineOperation::SetMusicCue { cue } => set_music_cue(manifest, cue, defaults.bed),
        VideoTimelineOperation::RemoveMusicCue { cue_id } => remove_music_cue(manifest, cue_id.as_str()),
        VideoTimelineOperation::PlaceMusicCue { cue_id, source_asset_id } => place_music_cue(
            manifest,
            cue_id.as_str(),
            source_asset_id.as_str(),
            defaults.bed,
        ),
        VideoTimelineOperation::RegisterSoundAsset { asset_id, source_asset_id, name, tags } => register_sound_asset(
            manifest,
            asset_id.as_str(),
            source_asset_id.as_str(),
            name.as_str(),
            tags,
        ),
        VideoTimelineOperation::RemoveSoundAsset { asset_id } => remove_sound_asset(
            manifest,
            asset_id.as_str(),
        ),
        VideoTimelineOperation::PromoteTurnsToFinal { turn_ids } => promote_turns_to_final(manifest, turn_ids),
        VideoTimelineOperation::SetSoundLayer { layer } => set_sound_layer(manifest, layer),
        VideoTimelineOperation::RemoveSoundLayer { layer_id } => remove_sound_layer(
            manifest,
            layer_id.as_str(),
        ),
        VideoTimelineOperation::UpdateVisualLayer { layer_id, placement } => update_visual_layer(
            manifest,
            layer_id.as_str(),
            placement,
        ),
    }
}

/// The first refusal met in taking the steps from one on. After each step the project has to be
/// editable and to obey every rule.
pub open spec fn steps_fault_from(
    m: VideoProjectManifestModel,
    operations: Seq<OperationModel>,
    defaults: EditingDefaultsModel,
    index: int,
) -> Option<Fault>
    decreases operations.len() - index,
{
    if index < 0 || index >= operations.len() {
        None
    } else {
        let next = step_result(m, operations[index], defaults);
        or_else(
            step_fault(m, operations[index], defaults),
            or_else(
                editable_fault(next),
                or_else(
                    VideoProjectManifest::fault_of(next),
                    steps_fault_from(next, operations, defaults, index + 1),
                ),
            ),
        )
    }
}

/// The project after the steps from one on.
pub open spec fn after_steps_from(
    m: VideoProjectManifestModel,
    operations: Seq<OperationModel>,
    defaults: EditingDefaultsModel,
    index: int,
) -> VideoProjectManifestModel
    decreases operations.len() - index,
{
    if index < 0 || index >= operations.len() {
        m
    } else {
        after_steps_from(step_result(m, operations[index], defaults), operations, defaults, index + 1)
    }
}

// ---------------------------------------------------------------------------------------------
// What changed
// ---------------------------------------------------------------------------------------------
/// The paths so far, and one more if that part changed.
pub open spec fn with_path(paths: Seq<Seq<char>>, changed: bool, path: Seq<char>) -> Seq<Seq<char>> {
    if changed {
        paths.push(path)
    } else {
        paths
    }
}

/// The parts of a project that an edit or a script can change and did, as paths in alphabetical
/// order.
pub open spec fn changed_paths(before: VideoProjectManifestModel, after: VideoProjectManifestModel) -> Seq<Seq<char>> {
    let paths = Seq::empty();
    let paths = with_path(paths, before.audio_mix.tracks != after.audio_mix.tracks, "/audio_mix/tracks"@);
    let paths = with_path(paths, before.captions != after.captions, "/captions"@);
    let paths = with_path(paths, before.cast != after.cast, "/cast"@);
    let paths = with_path(paths, before.dialogue != after.dialogue, "/dialogue"@);
    let paths = with_path(paths, before.gaps != after.gaps, "/gaps"@);
    let paths = with_path(paths, before.layout.elements != after.layout.elements, "/layout/elements"@);
    let paths = with_path(paths, before.lexicon != after.lexicon, "/lexicon"@);
    let paths = with_path(paths, before.music_cues != after.music_cues, "/music_cues"@);
    let paths = with_path(paths, before.narration_bindings != after.narration_bindings, "/narration_bindings"@);
    let paths = with_path(paths, before.reviewed_scenes != after.reviewed_scenes, "/reviewed_scenes"@);
    let paths = with_path(paths, before.sound_assets != after.sound_assets, "/sound_assets"@);
    let paths = with_path(paths, before.sound_layers != after.sound_layers, "/sound_layers"@);
    let paths = with_path(paths, before.timeline_duration_us != after.timeline_duration_us, "/timeline_duration_us"@);
    let paths = with_path(paths, before.tracks != after.tracks, "/tracks"@);
    let paths = with_path(paths, before.turn_beats != after.turn_beats, "/turn_beats"@);
    let paths = with_path(paths, before.visual_layers != after.visual_layers, "/visual_layers"@);
    paths
}

fn push_path(paths: &mut Vec<String>, same: bool, path: &str)
    ensures
        final(paths).deep_view() == with_path(old(paths).deep_view(), !same, path@),
{
    let ghost before = paths.deep_view();
    if !same {
        paths.push(path.to_owned());
        assert(paths.deep_view() =~= before.push(path@));
    }
}

/// The parts of a project that an edit changed.
pub fn manifest_changed_paths(before: &VideoProjectManifest, after: &VideoProjectManifest) -> (paths: Vec<String>)
    ensures
        paths.deep_view() == changed_paths(before.deep_view(), after.deep_view()),
{
    let mut paths: Vec<String> = Vec::new();
    assert(paths.deep_view() =~= Seq::empty());
    let same: bool = before.audio_mix.tracks.same(&after.audio_mix.tracks);
    push_path(&mut paths, same, "/audio_mix/tracks");
    let same: bool = before.captions.same(&after.captions);
    push_path(&mut paths, same, "/captions");
    let same: bool = before.cast.same(&after.cast);
    push_path(&mut paths, same, "/cast");
    let same: bool = before.dialogue.same(&after.dialogue);
    push_path(&mut paths, same, "/dialogue");
    let same: bool = before.gaps.same(&after.gaps);
    push_path(&mut paths, same, "/gaps");
    let same: bool = before.layout.elements.same(&after.layout.elements);
    push_path(&mut paths, same, "/layout/elements");
    let same: bool = before.lexicon.same(&after.lexicon);
    push_path(&mut paths, same, "/lexicon");
    let same: bool = before.music_cues.same(&after.music_cues);
    push_path(&mut paths, same, "/music_cues");
    let same: bool = before.narration_bindings.same(&after.narration_bindings);
    push_path(&mut paths, same, "/narration_bindings");
    let same: bool = before.reviewed_scenes.same(&after.reviewed_scenes);
    push_path(&mut paths, same, "/reviewed_scenes");
    let same: bool = before.sound_assets.same(&after.sound_assets);
    push_path(&mut paths, same, "/sound_assets");
    let same: bool = before.sound_layers.same(&after.sound_layers);
    push_path(&mut paths, same, "/sound_layers");
    let same: bool = before.timeline_duration_us.same(&after.timeline_duration_us);
    push_path(&mut paths, same, "/timeline_duration_us");
    let same: bool = before.tracks.same(&after.tracks);
    push_path(&mut paths, same, "/tracks");
    let same: bool = before.turn_beats.same(&after.turn_beats);
    push_path(&mut paths, same, "/turn_beats");
    let same: bool = before.visual_layers.same(&after.visual_layers);
    push_path(&mut paths, same, "/visual_layers");
    paths
}

// ---------------------------------------------------------------------------------------------
// The edit
// ---------------------------------------------------------------------------------------------
/// What an edit reports: the request it answers, echoed, and what it changed.
#[derive(Clone, Debug, PartialEq, Eq)]
pub struct VideoTimelineChangeReceipt {
    pub project_id: String,
    pub expected_revision: u64,
    pub base_version_id: String,
    pub operation_id: String,
    pub changed_paths: Vec<String>,
    pub invalidated_stages: Vec<RevisionStage>,
}

/// An edited project and its receipt.
#[derive(Clone, Debug, PartialEq, Eq)]
pub struct AppliedVideoTimelineEdit {
    pub manifest: VideoProjectManifest,
    pub receipt: VideoTimelineChangeReceipt,
}

/// Whether a receipt answers a request with what changed and what that makes stale.
pub open spec fn receipt_of(
    receipt: VideoTimelineChangeReceipt,
    request: EditRequestModel,
    paths: Seq<Seq<char>>,
    table: Seq<PathStagesModel>,
) -> bool {
    &&& receipt.project_id@ == request.project_id
    &&& receipt.expected_revision == request.expected_revision
    &&& receipt.base_version_id@ == request.base_version_id
    &&& receipt.operation_id@ == request.operation_id
    &&& receipt.changed_paths.deep_view() == paths
    &&& are_stale(receipt.invalidated_stages.deep_view(), table, paths)
}

/// Why an edit is refused.
pub open spec fn edit_fault(m: VideoProjectManifestModel, request: EditRequestModel, defaults: EditingDefaultsModel) -> Option<
    Fault,
> {
    or_else(
        VideoProjectManifest::fault_of(m),
        or_else(
            request_fault(m, request),
            or_else(
                editable_fault(m),
                or_else(
                    steps_fault_from(m, request.operations, defaults, 0),
                    unless(
                        changed_paths(m, after_steps_from(m, request.operations, defaults, 0)).len() > 0,
                        fault_at(
                            VideoErrorCode::InvalidRevision,
                            "the requested timeline edit produced no content change"@,
                            "operations"@,
                        ),
                    ),
                ),
            ),
        ),
    )
}

/// Applies an ordered batch against one already-loaded project.
///
/// The returned project retains the input's `revision`, `revision_history` and `updated_at`. Callers
/// must compare the stored version and commit.
pub fn apply_timeline_edit(
    manifest: &VideoProjectManifest,
    request: &VideoTimelineEditRequest,
    defaults: &EditingDefaults,
) -> (result: VideoResult<AppliedVideoTimelineEdit>)
    ensures
        refusal(result) == edit_fault(manifest.deep_view(), request.deep_view(), defaults.deep_view()),
        result matches Ok(applied) ==> {
            let after = after_steps_from(
                manifest.deep_view(),
                request.deep_view().operations,
                defaults.deep_view(),
                0,
            );
            &&& applied.manifest.deep_view() == after
            &&& receipt_of(
                applied.receipt,
                request.deep_view(),
                changed_paths(manifest.deep_view(), after),
                defaults.deep_view().stages,
            )
        },
{
    let ghost m = manifest.deep_view();
    let ghost r = request.deep_view();
    let ghost d = defaults.deep_view();
    manifest.validate_strict()?;
    validate_request(manifest, request)?;
    validate_editable_scene_references(manifest)?;
    let mut edited: VideoProjectManifest = manifest.duplicate();
    let mut index: usize = 0;
    while index < request.operations.len()
        invariant
            index <= request.operations.len(),
            m == manifest.deep_view(),
            r == request.deep_view(),
            d == defaults.deep_view(),
            VideoProjectManifest::fault_of(m) is None,
            request_fault(m, r) is None,
            editable_fault(m) is None,
            steps_fault_from(m, r.operations, d, 0) == steps_fault_from(
                edited.deep_view(),
                r.operations,
                d,
                index as int,
            ),
            after_steps_from(m, r.operations, d, 0) == after_steps_from(
                edited.deep_view(),
                r.operations,
                d,
                index as int,
            ),
        decreases request.operations.len() - index,
    {
        assert(r.operations[index as int] == request.operations[index as int].deep_view());
        let next: VideoProjectManifest = take_step(&edited, &request.operations[index], defaults)?;
        validate_editable_scene_references(&next)?;
        next.validate_strict()?;
        edited = next;
        index += 1;
    }
    let paths: Vec<String> = manifest_changed_paths(manifest, &edited);
    assert(paths.deep_view().len() == paths.len());
    if paths.len() == 0 {
        return Err(
            refuse(
                VideoErrorCode::InvalidRevision,
                "the requested timeline edit produced no content change",
                "operations",
            ),
        );
    }
    let invalidated_stages: Vec<RevisionStage> = invalidated_stages_for_manifest_changes(&paths, &defaults.stages);
    Ok(
        AppliedVideoTimelineEdit {
            manifest: edited,
            receipt: VideoTimelineChangeReceipt {
                project_id: request.project_id.clone(),
                expected_revision: request.expected_revision,
                base_version_id: request.base_version_id.clone(),
                operation_id: request.operation_id.clone(),
                changed_paths: paths,
                invalidated_stages,
            },
        },
    )
}

// ---------------------------------------------------------------------------------------------
// Laws
// ---------------------------------------------------------------------------------------------
/// Whether two projects agree in all that no edit may touch.
pub open spec fn same_but_for_edits(before: VideoProjectManifestModel, after: VideoProjectManifestModel) -> bool {
    after == (VideoProjectManifestModel {
        audio_mix: crate::manifest::AudioMixModel { tracks: after.audio_mix.tracks, ..before.audio_mix },
        captions: after.captions,
        gaps: after.gaps,
        layout: crate::manifest::LayoutPlanModel { elements: after.layout.elements, ..before.layout },
        lexicon: after.lexicon,
        music_cues: after.music_cues,
        narration_bindings: after.narration_bindings,
        reviewed_scenes: after.reviewed_scenes,
        sound_assets: after.sound_assets,
        sound_layers: after.sound_layers,
        timeline_duration_us: after.timeline_duration_us,
        tracks: after.tracks,
        turn_beats: after.turn_beats,
        visual_layers: after.visual_layers,
        ..before
    })
}

/// No step touches the revision, the history, the date of the last change, or anything else outside
/// the parts that the receipt can name.
pub proof fn a_step_keeps_commit_metadata(
    m: VideoProjectManifestModel,
    operation: OperationModel,
    defaults: EditingDefaultsModel,
)
    ensures
        same_but_for_edits(m, step_result(m, operation, defaults)),
        step_result(m, operation, defaults).revision == m.revision,
        step_result(m, operation, defaults).revision_history == m.revision_history,
        step_result(m, operation, defaults).updated_at == m.updated_at,
{
}

/// An edit keeps the revision, the history and the date of the last change: committing them is the
/// caller's.
pub proof fn an_edit_keeps_commit_metadata(
    m: VideoProjectManifestModel,
    operations: Seq<OperationModel>,
    defaults: EditingDefaultsModel,
    index: int,
)
    ensures
        same_but_for_edits(m, after_steps_from(m, operations, defaults, index)),
        after_steps_from(m, operations, defaults, index).revision == m.revision,
        after_steps_from(m, operations, defaults, index).revision_history == m.revision_history,
        after_steps_from(m, operations, defaults, index).updated_at == m.updated_at,
    decreases operations.len() - index,
{
    if 0 <= index < operations.len() {
        a_step_keeps_commit_metadata(m, operations[index], defaults);
        an_edit_keeps_commit_metadata(
            step_result(m, operations[index], defaults),
            operations,
            defaults,
            index + 1,
        );
    }
}

/// The project that an accepted edit returns obeys every rule and can be edited again.
pub proof fn an_edit_leaves_a_valid_project(
    m: VideoProjectManifestModel,
    operations: Seq<OperationModel>,
    defaults: EditingDefaultsModel,
    index: int,
)
    requires
        0 <= index,
        VideoProjectManifest::fault_of(m) is None,
        editable_fault(m) is None,
        steps_fault_from(m, operations, defaults, index) is None,
    ensures
        VideoProjectManifest::fault_of(after_steps_from(m, operations, defaults, index)) is None,
        editable_fault(after_steps_from(m, operations, defaults, index)) is None,
    decreases operations.len() - index,
{
    if index < operations.len() {
        an_edit_leaves_a_valid_project(
            step_result(m, operations[index], defaults),
            operations,
            defaults,
            index + 1,
        );
    }
}

/// A receipt without paths means that nothing changed, and the other way round.
pub proof fn no_paths_means_no_change(
    m: VideoProjectManifestModel,
    operations: Seq<OperationModel>,
    defaults: EditingDefaultsModel,
)
    ensures
        changed_paths(m, after_steps_from(m, operations, defaults, 0)).len() == 0 <==> after_steps_from(
            m,
            operations,
            defaults,
            0,
        ) == m,
{
    an_edit_keeps_commit_metadata(m, operations, defaults, 0);
    lemma_no_paths(m, after_steps_from(m, operations, defaults, 0));
}

proof fn lemma_with_path(paths: Seq<Seq<char>>, changed: bool, path: Seq<char>)
    ensures
        with_path(paths, changed, path).len() == 0 <==> paths.len() == 0 && !changed,
{
}

/// Projects that differ in nothing that a receipt can name are the same, and the other way round.
#[verifier::spinoff_prover]
pub proof fn lemma_no_paths(before: VideoProjectManifestModel, after: VideoProjectManifestModel)
    requires
        same_but_for_edits(before, after),
    ensures
        changed_paths(before, after).len() == 0 <==> after == before,
{
    let p0 = Seq::<Seq<char>>::empty();
    let p1 = with_path(p0, before.audio_mix.tracks != after.audio_mix.tracks, "/audio_mix/tracks"@);
    lemma_with_path(p0, before.audio_mix.tracks != after.audio_mix.tracks, "/audio_mix/tracks"@);
    let p2 = with_path(p1, before.captions != after.captions, "/captions"@);
    lemma_with_path(p1, before.captions != after.captions, "/captions"@);
    let p3 = with_path(p2, before.cast != after.cast, "/cast"@);
    lemma_with_path(p2, before.cast != after.cast, "/cast"@);
    let p4 = with_path(p3, before.dialogue != after.dialogue, "/dialogue"@);
    lemma_with_path(p3, before.dialogue != after.dialogue, "/dialogue"@);
    let p5 = with_path(p4, before.gaps != after.gaps, "/gaps"@);
    lemma_with_path(p4, before.gaps != after.gaps, "/gaps"@);
    let p6 = with_path(p5, before.layout.elements != after.layout.elements, "/layout/elements"@);
    lemma_with_path(p5, before.layout.elements != after.layout.elements, "/layout/elements"@);
    let p7 = with_path(p6, before.lexicon != after.lexicon, "/lexicon"@);
    lemma_with_path(p6, before.lexicon != after.lexicon, "/lexicon"@);
    let p8 = with_path(p7, before.music_cues != after.music_cues, "/music_cues"@);
    lemma_with_path(p7, before.music_cues != after.music_cues, "/music_cues"@);
    let p9 = with_path(p8, before.narration_bindings != after.narration_bindings, "/narration_bindings"@);
    lemma_with_path(p8, before.narration_bindings != after.narration_bindings, "/narration_bindings"@);
    let p10 = with_path(p9, before.reviewed_scenes != after.reviewed_scenes, "/reviewed_scenes"@);
    lemma_with_path(p9, before.reviewed_scenes != after.reviewed_scenes, "/reviewed_scenes"@);
    let p11 = with_path(p10, before.sound_assets != after.sound_assets, "/sound_assets"@);
    lemma_with_path(p10, before.sound_assets != after.sound_assets, "/sound_assets"@);
    let p12 = with_path(p11, before.sound_layers != after.sound_layers, "/sound_layers"@);
    lemma_with_path(p11, before.sound_layers != after.sound_layers, "/sound_layers"@);
    let p13 = with_path(p12, before.timeline_duration_us != after.timeline_duration_us, "/timeline_duration_us"@);
    lemma_with_path(p12, before.timeline_duration_us != after.timeline_duration_us, "/timeline_duration_us"@);
    let p14 = with_path(p13, before.tracks != after.tracks, "/tracks"@);
    lemma_with_path(p13, before.tracks != after.tracks, "/tracks"@);
    let p15 = with_path(p14, before.turn_beats != after.turn_beats, "/turn_beats"@);
    lemma_with_path(p14, before.turn_beats != after.turn_beats, "/turn_beats"@);
    let p16 = with_path(p15, before.visual_layers != after.visual_layers, "/visual_layers"@);
    lemma_with_path(p15, before.visual_layers != after.visual_layers, "/visual_layers"@);
    assert(changed_paths(before, after) == p16);
    if p16.len() == 0 {
        assert(after.audio_mix == before.audio_mix);
        assert(after.layout == before.layout);
    }
}

} // verus!
