//! The rules that a project obeys as a whole.

use crate::digest::{sha256_hex, sha256_hex_text};
use crate::error::{fault, fault_at, or_else, refusal, refuse, unless, Fault, VideoError, VideoErrorCode, VideoResult};
use crate::manifest::{
    AudioMix, AudioMixModel, AudioMixTrack, AudioMixTrackModel, CaptionCue, CaptionCueModel, ClipCandidate,
    ClipCandidateModel, LayoutElement, LayoutPlan, LayoutPlanModel, NarrationBinding, PublicationState,
    RenderArtifact, RenderArtifactModel, RenderArtifactRole, ReviewState, ReviewedScene, ReviewedSceneModel,
    RevisionRecord, RevisionRecordModel, RightsConfirmation, SoundLayer, SoundLayerModel, SoundPlacementKind,
    SourceAsset, SourceAssetKind, SourceAssetModel, TakeFidelity, TimelineClip, TimelineClipModel, TimelineGap,
    TimelineGapModel, TimelineTrack, TimelineTrackModel, TrackKind, TranscriptSegment, TranscriptVersion,
    VideoProjectManifest, VideoProjectManifestModel,
};
use crate::model::{collect_names, find, find_named, has_name, holds, names, what_is_found_bears_the_name};
use crate::order::{is_ranked, rank, ranked, ranked_is_a_sorted_permutation, Ranked};
use crate::rules::{
    distinct, duplicate_fault, duplicate_id_error, identifier_fault, nonempty_fault, timestamp_fault, unique_fault,
    unique_is_distinct, validate_identifier, validate_nonempty, validate_range_within, validate_timestamp_text,
    validate_unique_ids, within_fault,
};
use crate::text::{
    ascii_lowercase, decimal, decimal_text, has_prefix, text_concat, text_concat3, text_eq,
};
use crate::time::{addition_fault, on_clock, Microseconds, RationalFrameRate, TimeRange, Validate};
use crate::validate::{each_fault_from, id_set, validate_each, MAX_TIMELINE_DURATION_US};
use vstd::hash_set::StringHashSet;
use vstd::prelude::*;
use vstd::utf8::encode_utf8;

verus! {

pub const VIDEO_MANIFEST_SCHEMA_VERSION: u32 = 1;

/// The rules on the project's own identity, clock and dates.
pub open spec fn identity_fault(m: VideoProjectManifestModel) -> Option<Fault> {
    or_else(
        unless(
            m.schema_version == VIDEO_MANIFEST_SCHEMA_VERSION,
            fault_at(
                VideoErrorCode::UnsupportedSchema,
                "manifest schema "@ + decimal(m.schema_version as nat) + " is unsupported; expected "@ + decimal(
                    VIDEO_MANIFEST_SCHEMA_VERSION as nat,
                ),
                "schema_version"@,
            ),
        ),
        or_else(
            identifier_fault(m.project_id, "project_id"@),
            or_else(
                nonempty_fault(m.name, "name"@, 512),
                or_else(
                    RationalFrameRate::fault_of(m.frame_rate),
                    or_else(
                        unless(
                            1 <= m.timeline_duration_us.0 <= MAX_TIMELINE_DURATION_US,
                            fault_at(
                                VideoErrorCode::InvalidTimestamp,
                                "timeline_duration_us must be positive and no greater than 6 hours"@,
                                "timeline_duration_us"@,
                            ),
                        ),
                        or_else(
                            timestamp_fault(m.created_at, "created_at"@),
                            timestamp_fault(m.updated_at, "updated_at"@),
                        ),
                    ),
                ),
            ),
        ),
    )
}

fn check_identity(m: &VideoProjectManifest) -> (result: VideoResult<()>)
    ensures
        refusal(result) == identity_fault(m.deep_view()),
{
    if m.schema_version != VIDEO_MANIFEST_SCHEMA_VERSION {
        let found: String = decimal_text(m.schema_version as u64);
        let expected: String = decimal_text(VIDEO_MANIFEST_SCHEMA_VERSION as u64);
        let head: String = text_concat3(
            "manifest schema ",
            found.as_str(),
            " is unsupported; expected ",
        );
        let message: String = text_concat(head.as_str(), expected.as_str());
        return Err(refuse(VideoErrorCode::UnsupportedSchema, message.as_str(), "schema_version"));
    }
    validate_identifier(m.project_id.as_str(), "project_id")?;
    validate_nonempty(m.name.as_str(), "name", 512)?;
    m.frame_rate.validate()?;
    if m.timeline_duration_us.0 < 1 || m.timeline_duration_us.0 > MAX_TIMELINE_DURATION_US {
        return Err(
            refuse(
                VideoErrorCode::InvalidTimestamp,
                "timeline_duration_us must be positive and no greater than 6 hours",
                "timeline_duration_us",
            ),
        );
    }
    validate_timestamp_text(m.created_at.as_str(), "created_at")?;
    validate_timestamp_text(m.updated_at.as_str(), "updated_at")
}

/// The rule that no identifier of a kind stands twice.
pub open spec fn unique_ids_fault(m: VideoProjectManifestModel) -> Option<Fault> {
    or_else(
        unique_fault(names::<SourceAsset>(m.source_assets), "source_assets"@),
        or_else(
            unique_fault(names::<RightsConfirmation>(m.rights_confirmations), "rights_confirmations"@),
            or_else(
                unique_fault(names::<ClipCandidate>(m.candidates), "candidates"@),
                or_else(
                    unique_fault(names::<ReviewedScene>(m.reviewed_scenes), "reviewed_scenes"@),
                    or_else(
                        unique_fault(names::<TimelineTrack>(m.tracks), "tracks"@),
                        or_else(
                            unique_fault(names::<TimelineGap>(m.gaps), "gaps"@),
                            or_else(
                                unique_fault(names::<CaptionCue>(m.captions), "captions"@),
                                or_else(
                                    unique_fault(
                                        names::<RenderArtifact>(m.render_artifacts),
                                        "render_artifacts"@,
                                    ),
                                    or_else(
                                        unique_fault(
                                            names::<NarrationBinding>(m.narration_bindings),
                                            "narration_bindings"@,
                                        ),
                                        unique_fault(
                                            names::<RevisionRecord>(m.revision_history),
                                            "revision_history"@,
                                        ),
                                    ),
                                ),
                            ),
                        ),
                    ),
                ),
            ),
        ),
    )
}

fn check_unique_ids(m: &VideoProjectManifest) -> (result: VideoResult<()>)
    ensures
        refusal(result) == unique_ids_fault(m.deep_view()),
{
    validate_unique_ids(&collect_names(&m.source_assets), "source_assets")?;
    validate_unique_ids(&collect_names(&m.rights_confirmations), "rights_confirmations")?;
    validate_unique_ids(&collect_names(&m.candidates), "candidates")?;
    validate_unique_ids(&collect_names(&m.reviewed_scenes), "reviewed_scenes")?;
    validate_unique_ids(&collect_names(&m.tracks), "tracks")?;
    validate_unique_ids(&collect_names(&m.gaps), "gaps")?;
    validate_unique_ids(&collect_names(&m.captions), "captions")?;
    validate_unique_ids(&collect_names(&m.render_artifacts), "render_artifacts")?;
    validate_unique_ids(&collect_names(&m.narration_bindings), "narration_bindings")?;
    validate_unique_ids(&collect_names(&m.revision_history), "revision_history")
}

/// The rules on one source asset and the rights record it rests on.
pub open spec fn source_fault(m: VideoProjectManifestModel, asset: SourceAssetModel) -> Option<Fault> {
    or_else(
        SourceAsset::fault_of(asset),
        match asset.rights_confirmation_id {
            Some(rights_id) => match find::<RightsConfirmation>(m.rights_confirmations, rights_id) {
                Some(rights) => unless(
                    asset.kind != SourceAssetKind::ImportedLink || asset.provenance.original_uri == Some(
                        rights.source_uri,
                    ),
                    fault_at(
                        VideoErrorCode::InvalidRightsConfirmation,
                        "rights record is not bound to the imported source URI"@,
                        "source_assets.rights_confirmation_id"@,
                    ),
                ),
                None => Some(
                    fault(
                        VideoErrorCode::MissingReference,
                        "asset "@ + asset.id + " references missing rights record"@,
                    ),
                ),
            },
            None => None,
        },
    )
}

pub open spec fn sources_fault_from(m: VideoProjectManifestModel, index: int) -> Option<Fault>
    decreases m.source_assets.len() - index,
{
    if index < 0 || index >= m.source_assets.len() {
        None
    } else {
        or_else(source_fault(m, m.source_assets[index]), sources_fault_from(m, index + 1))
    }
}

/// Whether an optional text is there and is the given one.
pub fn is_text(value: &Option<String>, text: &str) -> (result: bool)
    ensures
        result == (value.deep_view() == Some(text@)),
{
    match value {
        Some(found) => text_eq(found.as_str(), text),
        None => false,
    }
}

fn check_source(m: &VideoProjectManifest, asset: &SourceAsset) -> (result: VideoResult<()>)
    ensures
        refusal(result) == source_fault(m.deep_view(), asset.deep_view()),
{
    asset.validate()?;
    if let Some(rights_id) = &asset.rights_confirmation_id {
        match find_named(&m.rights_confirmations, rights_id.as_str()) {
            Some(rights) => {
                if asset.kind == SourceAssetKind::ImportedLink && !is_text(
                    &asset.provenance.original_uri,
                    rights.source_uri.as_str(),
                ) {
                    return Err(
                        refuse(
                            VideoErrorCode::InvalidRightsConfirmation,
                            "rights record is not bound to the imported source URI",
                            "source_assets.rights_confirmation_id",
                        ),
                    );
                }
            },
            None => {
                let message: String = text_concat3(
                    "asset ",
                    asset.id.as_str(),
                    " references missing rights record",
                );
                return Err(VideoError::new(VideoErrorCode::MissingReference, message.as_str()));
            },
        }
    }
    Ok(())
}

fn check_sources(m: &VideoProjectManifest) -> (result: VideoResult<()>)
    ensures
        refusal(result) == sources_fault_from(m.deep_view(), 0),
{
    let ghost model = m.deep_view();
    let mut index: usize = 0;
    while index < m.source_assets.len()
        invariant
            index <= m.source_assets.len(),
            model == m.deep_view(),
            sources_fault_from(model, 0) == sources_fault_from(model, index as int),
        decreases m.source_assets.len() - index,
    {
        assert(model.source_assets[index as int] == m.source_assets[index as int].deep_view());
        check_source(m, &m.source_assets[index])?;
        index += 1;
    }
    Ok(())
}

/// The rules on the transcript and the source it transcribes.
pub open spec fn transcript_fault(m: VideoProjectManifestModel) -> Option<Fault> {
    match m.transcript {
        Some(transcript) => or_else(
            TranscriptVersion::fault_of(transcript),
            match find::<SourceAsset>(m.source_assets, transcript.source_asset_id) {
                Some(source) => unless(
                    transcript.source_clock_duration_us == source.probe.duration_us,
                    fault(
                        VideoErrorCode::DurationMismatch,
                        "transcript source clock must equal probed source duration"@,
                    ),
                ),
                None => Some(
                    fault(
                        VideoErrorCode::MissingReference,
                        "transcript references a missing source asset"@,
                    ),
                ),
            },
        ),
        None => None,
    }
}

fn check_transcript(m: &VideoProjectManifest) -> (result: VideoResult<()>)
    ensures
        refusal(result) == transcript_fault(m.deep_view()),
{
    if let Some(transcript) = &m.transcript {
        transcript.validate()?;
        match find_named(&m.source_assets, transcript.source_asset_id.as_str()) {
            Some(source) => {
                if transcript.source_clock_duration_us.0 != source.probe.duration_us.0 {
                    return Err(
                        VideoError::new(
                            VideoErrorCode::DurationMismatch,
                            "transcript source clock must equal probed source duration",
                        ),
                    );
                }
            },
            None => {
                return Err(
                    VideoError::new(
                        VideoErrorCode::MissingReference,
                        "transcript references a missing source asset",
                    ),
                );
            },
        }
    }
    Ok(())
}

/// The identifiers of the transcript's segments.
pub open spec fn segment_ids(m: VideoProjectManifestModel) -> Seq<Seq<char>> {
    match m.transcript {
        Some(transcript) => names::<TranscriptSegment>(transcript.segments),
        None => Seq::empty(),
    }
}

fn segment_id_set(m: &VideoProjectManifest) -> (set: StringHashSet)
    ensures
        forall|id: Seq<char>| #[trigger] set@.contains(id) <==> segment_ids(m.deep_view()).contains(id),
{
    match &m.transcript {
        Some(transcript) => id_set(&collect_names(&transcript.segments)),
        None => StringHashSet::new(),
    }
}

/// Whether every identifier of one list stands in another.
pub open spec fn all_known(known: Seq<Seq<char>>, wanted: Seq<Seq<char>>) -> bool {
    forall|i: int| 0 <= i < wanted.len() ==> known.contains(#[trigger] wanted[i])
}

fn are_known(known: &StringHashSet, wanted: &Vec<String>, Ghost(ids): Ghost<Seq<Seq<char>>>) -> (result: bool)
    requires
        forall|id: Seq<char>| #[trigger] known@.contains(id) <==> ids.contains(id),
    ensures
        result == all_known(ids, wanted.deep_view()),
{
    let ghost model = wanted.deep_view();
    let mut index: usize = 0;
    while index < wanted.len()
        invariant
            index <= wanted.len(),
            model == wanted.deep_view(),
            forall|id: Seq<char>| #[trigger] known@.contains(id) <==> ids.contains(id),
            forall|i: int| 0 <= i < index ==> ids.contains(#[trigger] model[i]),
        decreases wanted.len() - index,
    {
        assert(model[index as int] == wanted[index as int]@);
        if !known.contains(wanted[index].as_str()) {
            return false;
        }
        index += 1;
    }
    true
}

/// The rules on one clip candidate and what it refers to.
pub open spec fn candidate_fault(m: VideoProjectManifestModel, candidate: ClipCandidateModel) -> Option<Fault> {
    or_else(
        ClipCandidate::fault_of(candidate),
        match find::<SourceAsset>(m.source_assets, candidate.source_asset_id) {
            Some(source) => or_else(
                within_fault(
                    candidate.source_range,
                    source.probe.duration_us.0 as int,
                    VideoErrorCode::InvalidCandidate,
                    "candidates.source_range"@,
                ),
                unless(
                    all_known(segment_ids(m), candidate.transcript_segment_ids),
                    fault(
                        VideoErrorCode::MissingReference,
                        "candidate references a missing transcript segment"@,
                    ),
                ),
            ),
            None => Some(
                fault(
                    VideoErrorCode::MissingReference,
                    "candidate "@ + candidate.id + " references missing source"@,
                ),
            ),
        },
    )
}

pub open spec fn candidates_fault_from(m: VideoProjectManifestModel, index: int) -> Option<Fault>
    decreases m.candidates.len() - index,
{
    if index < 0 || index >= m.candidates.len() {
        None
    } else {
        or_else(candidate_fault(m, m.candidates[index]), candidates_fault_from(m, index + 1))
    }
}

fn check_candidate(
    m: &VideoProjectManifest,
    candidate: &ClipCandidate,
    segments: &StringHashSet,
) -> (result: VideoResult<()>)
    requires
        forall|id: Seq<char>| #[trigger] segments@.contains(id) <==> segment_ids(m.deep_view()).contains(id),
    ensures
        refusal(result) == candidate_fault(m.deep_view(), candidate.deep_view()),
{
    candidate.validate()?;
    match find_named(&m.source_assets, candidate.source_asset_id.as_str()) {
        Some(source) => {
            validate_range_within(
                candidate.source_range,
                source.probe.duration_us,
                VideoErrorCode::InvalidCandidate,
                "candidates.source_range",
            )?;
            if !are_known(segments, &candidate.transcript_segment_ids, Ghost(segment_ids(m.deep_view()))) {
                return Err(
                    VideoError::new(
                        VideoErrorCode::MissingReference,
                        "candidate references a missing transcript segment",
                    ),
                );
            }
            Ok(())
        },
        None => {
            let message: String = text_concat3(
                "candidate ",
                candidate.id.as_str(),
                " references missing source",
            );
            Err(VideoError::new(VideoErrorCode::MissingReference, message.as_str()))
        },
    }
}

fn check_candidates(m: &VideoProjectManifest, segments: &StringHashSet) -> (result: VideoResult<()>)
    requires
        forall|id: Seq<char>| #[trigger] segments@.contains(id) <==> segment_ids(m.deep_view()).contains(id),
    ensures
        refusal(result) == candidates_fault_from(m.deep_view(), 0),
{
    let ghost model = m.deep_view();
    let mut index: usize = 0;
    while index < m.candidates.len()
        invariant
            index <= m.candidates.len(),
            model == m.deep_view(),
            forall|id: Seq<char>| #[trigger] segments@.contains(id) <==> segment_ids(m.deep_view()).contains(id),
            candidates_fault_from(model, 0) == candidates_fault_from(model, index as int),
        decreases m.candidates.len() - index,
    {
        assert(model.candidates[index as int] == m.candidates[index as int].deep_view());
        check_candidate(m, &m.candidates[index], segments)?;
        index += 1;
    }
    Ok(())
}

/// The rules on one scene and what it refers to.
pub open spec fn scene_fault(m: VideoProjectManifestModel, scene: ReviewedSceneModel) -> Option<Fault> {
    or_else(
        ReviewedScene::fault_of(scene),
        or_else(
            unless(
                scene.candidate_id matches Some(id) ==> holds::<ClipCandidate>(m.candidates, id),
                fault(
                    VideoErrorCode::MissingReference,
                    "scene "@ + scene.id + " references missing candidate"@,
                ),
            ),
            or_else(
                match (scene.source_asset_id, scene.source_range) {
                    (Some(source_id), Some(range)) => match find::<SourceAsset>(m.source_assets, source_id) {
                        Some(source) => within_fault(
                            range,
                            source.probe.duration_us.0 as int,
                            VideoErrorCode::InvalidScene,
                            "reviewed_scenes.source_range"@,
                        ),
                        None => Some(
                            fault(
                                VideoErrorCode::MissingReference,
                                "scene "@ + scene.id + " references missing source"@,
                            ),
                        ),
                    },
                    _ => None,
                },
                or_else(
                    unless(
                        on_clock(scene.timeline_start_us.0 + scene.timeline_duration_us.0),
                        addition_fault(),
                    ),
                    unless(
                        scene.timeline_start_us.0 + scene.timeline_duration_us.0 <= m.timeline_duration_us.0,
                        fault(
                            VideoErrorCode::InvalidScene,
                            "scene extends beyond the manifest timeline"@,
                        ),
                    ),
                ),
            ),
        ),
    )
}

pub open spec fn scenes_fault_from(m: VideoProjectManifestModel, index: int) -> Option<Fault>
    decreases m.reviewed_scenes.len() - index,
{
    if index < 0 || index >= m.reviewed_scenes.len() {
        None
    } else {
        or_else(scene_fault(m, m.reviewed_scenes[index]), scenes_fault_from(m, index + 1))
    }
}

fn check_scene(m: &VideoProjectManifest, scene: &ReviewedScene) -> (result: VideoResult<()>)
    ensures
        refusal(result) == scene_fault(m.deep_view(), scene.deep_view()),
{
    scene.validate()?;
    if let Some(id) = &scene.candidate_id {
        if !has_name(&m.candidates, id.as_str()) {
            let message: String = text_concat3(
                "scene ",
                scene.id.as_str(),
                " references missing candidate",
            );
            return Err(VideoError::new(VideoErrorCode::MissingReference, message.as_str()));
        }
    }
    if let (Some(source_id), Some(range)) = (&scene.source_asset_id, scene.source_range) {
        match find_named(&m.source_assets, source_id.as_str()) {
            Some(source) => {
                validate_range_within(
                    range,
                    source.probe.duration_us,
                    VideoErrorCode::InvalidScene,
                    "reviewed_scenes.source_range",
                )?;
            },
            None => {
                let message: String = text_concat3(
                    "scene ",
                    scene.id.as_str(),
                    " references missing source",
                );
                return Err(VideoError::new(VideoErrorCode::MissingReference, message.as_str()));
            },
        }
    }
    let end: Microseconds = scene.timeline_start_us.checked_add(scene.timeline_duration_us)?;
    if end.0 > m.timeline_duration_us.0 {
        return Err(
            VideoError::new(
                VideoErrorCode::InvalidScene,
                "scene extends beyond the manifest timeline",
            ),
        );
    }
    Ok(())
}

fn check_scenes(m: &VideoProjectManifest) -> (result: VideoResult<()>)
    ensures
        refusal(result) == scenes_fault_from(m.deep_view(), 0),
{
    let ghost model = m.deep_view();
    let mut index: usize = 0;
    while index < m.reviewed_scenes.len()
        invariant
            index <= m.reviewed_scenes.len(),
            model == m.deep_view(),
            scenes_fault_from(model, 0) == scenes_fault_from(model, index as int),
        decreases m.reviewed_scenes.len() - index,
    {
        assert(model.reviewed_scenes[index as int] == m.reviewed_scenes[index as int].deep_view());
        check_scene(m, &m.reviewed_scenes[index])?;
        index += 1;
    }
    Ok(())
}

/// Whether a scene that is named is there.
pub open spec fn scene_known(m: VideoProjectManifestModel, scene_id: Option<Seq<char>>) -> bool {
    scene_id matches Some(id) ==> holds::<ReviewedScene>(m.reviewed_scenes, id)
}

fn is_scene_known(m: &VideoProjectManifest, scene_id: &Option<String>) -> (result: bool)
    ensures
        result == scene_known(m.deep_view(), scene_id.deep_view()),
{
    match scene_id {
        Some(id) => has_name(&m.reviewed_scenes, id.as_str()),
        None => true,
    }
}

/// The rules on one render artifact and the scene it belongs to.
pub open spec fn artifact_fault(m: VideoProjectManifestModel, artifact: RenderArtifactModel) -> Option<Fault> {
    or_else(
        RenderArtifact::fault_of(artifact),
        unless(
            scene_known(m, artifact.scene_id),
            fault(VideoErrorCode::MissingReference, "render artifact references a missing scene"@),
        ),
    )
}

pub open spec fn artifacts_fault_from(m: VideoProjectManifestModel, index: int) -> Option<Fault>
    decreases m.render_artifacts.len() - index,
{
    if index < 0 || index >= m.render_artifacts.len() {
        None
    } else {
        or_else(artifact_fault(m, m.render_artifacts[index]), artifacts_fault_from(m, index + 1))
    }
}

fn check_artifacts(m: &VideoProjectManifest) -> (result: VideoResult<()>)
    ensures
        refusal(result) == artifacts_fault_from(m.deep_view(), 0),
{
    let ghost model = m.deep_view();
    let mut index: usize = 0;
    while index < m.render_artifacts.len()
        invariant
            index <= m.render_artifacts.len(),
            model == m.deep_view(),
            artifacts_fault_from(model, 0) == artifacts_fault_from(model, index as int),
        decreases m.render_artifacts.len() - index,
    {
        assert(model.render_artifacts[index as int] == m.render_artifacts[index as int].deep_view());
        m.render_artifacts[index].validate()?;
        if !is_scene_known(m, &m.render_artifacts[index].scene_id) {
            return Err(
                VideoError::new(
                    VideoErrorCode::MissingReference,
                    "render artifact references a missing scene",
                ),
            );
        }
        index += 1;
    }
    Ok(())
}

/// Whether an earlier binding narrates the same scene.
pub open spec fn scene_bound_before(m: VideoProjectManifestModel, index: int) -> bool {
    exists|earlier: int|
        0 <= earlier < index && (#[trigger] m.narration_bindings[earlier]).scene_id
            == m.narration_bindings[index].scene_id
}

/// The rules on the scene that a binding narrates: it is there, it has no other binding, and its
/// script still is what was read.
pub open spec fn narrated_scene_fault(m: VideoProjectManifestModel, index: int) -> Option<Fault> {
    let binding = m.narration_bindings[index];
    match binding.scene_id {
        Some(scene_id) => match find::<ReviewedScene>(m.reviewed_scenes, scene_id) {
            Some(scene) => or_else(
                unless(
                    !scene_bound_before(m, index),
                    fault_at(
                        VideoErrorCode::InvalidNarration,
                        "a scene may have only one active narration binding"@,
                        "narration_bindings.scene_id"@,
                    ),
                ),
                unless(
                    binding.script_sha256 == sha256_hex(encode_utf8(scene.script)),
                    fault_at(
                        VideoErrorCode::InvalidNarration,
                        "narration script provenance does not match the current scene script"@,
                        "narration_bindings.script_sha256"@,
                    ),
                ),
            ),
            None => Some(
                fault_at(
                    VideoErrorCode::MissingReference,
                    "narration binding references a missing scene"@,
                    "narration_bindings.scene_id"@,
                ),
            ),
        },
        None => None,
    }
}

/// Whether an artifact is published audio of a known length.
pub open spec fn is_published_audio(artifact: RenderArtifactModel) -> bool {
    &&& "audio/"@.is_prefix_of(artifact.mime_type)
    &&& artifact.duration_us is Some
    &&& artifact.publication_state == PublicationState::Published
}

pub open spec fn narration_fault(m: VideoProjectManifestModel, index: int) -> Option<Fault> {
    let binding = m.narration_bindings[index];
    or_else(
        NarrationBinding::fault_of(binding),
        or_else(
            narrated_scene_fault(m, index),
            match find::<RenderArtifact>(m.render_artifacts, binding.render_artifact_id) {
                Some(artifact) => unless(
                    is_published_audio(artifact),
                    fault_at(
                        VideoErrorCode::InvalidNarration,
                        "narration must reference a published audio artifact with a duration"@,
                        "narration_bindings.render_artifact_id"@,
                    ),
                ),
                None => Some(
                    fault_at(
                        VideoErrorCode::MissingReference,
                        "narration binding references a missing render artifact"@,
                        "narration_bindings.render_artifact_id"@,
                    ),
                ),
            },
        ),
    )
}

pub open spec fn narrations_fault_from(m: VideoProjectManifestModel, index: int) -> Option<Fault>
    decreases m.narration_bindings.len() - index,
{
    if index < 0 || index >= m.narration_bindings.len() {
        None
    } else {
        or_else(narration_fault(m, index), narrations_fault_from(m, index + 1))
    }
}

fn check_narrations(m: &VideoProjectManifest) -> (result: VideoResult<()>)
    ensures
        refusal(result) == narrations_fault_from(m.deep_view(), 0),
{
    let ghost model = m.deep_view();
    let mut bound: StringHashSet = StringHashSet::new();
    let mut index: usize = 0;
    while index < m.narration_bindings.len()
        invariant
            index <= m.narration_bindings.len(),
            model == m.deep_view(),
            forall|id: Seq<char>|
                #[trigger] bound@.contains(id) <==> exists|i: int|
                    0 <= i < index && (#[trigger] model.narration_bindings[i]).scene_id == Some(id),
            narrations_fault_from(model, 0) == narrations_fault_from(model, index as int),
        decreases m.narration_bindings.len() - index,
    {
        let binding: &NarrationBinding = &m.narration_bindings[index];
        assert(model.narration_bindings[index as int] == binding.deep_view());
        binding.validate()?;
        if let Some(scene_id) = &binding.scene_id {
            match find_named(&m.reviewed_scenes, scene_id.as_str()) {
                Some(scene) => {
                    let fresh: bool = bound.insert(scene_id.clone());
                    if !fresh {
                        assert(scene_bound_before(model, index as int));
                        return Err(
                            refuse(
                                VideoErrorCode::InvalidNarration,
                                "a scene may have only one active narration binding",
                                "narration_bindings.scene_id",
                            ),
                        );
                    }
                    assert(!scene_bound_before(model, index as int));
                    let expected: String = sha256_hex_text(scene.script.as_str().as_bytes());
                    if binding.script_sha256 != expected {
                        return Err(
                            refuse(
                                VideoErrorCode::InvalidNarration,
                                "narration script provenance does not match the current scene script",
                                "narration_bindings.script_sha256",
                            ),
                        );
                    }
                },
                None => {
                    return Err(
                        refuse(
                            VideoErrorCode::MissingReference,
                            "narration binding references a missing scene",
                            "narration_bindings.scene_id",
                        ),
                    );
                },
            }
        }
        match find_named(&m.render_artifacts, binding.render_artifact_id.as_str()) {
            Some(artifact) => {
                if !has_prefix(artifact.mime_type.as_str(), "audio/") || artifact.duration_us.is_none()
                    || artifact.publication_state != PublicationState::Published {
                    return Err(
                        refuse(
                            VideoErrorCode::InvalidNarration,
                            "narration must reference a published audio artifact with a duration",
                            "narration_bindings.render_artifact_id",
                        ),
                    );
                }
            },
            None => {
                return Err(
                    refuse(
                        VideoErrorCode::MissingReference,
                        "narration binding references a missing render artifact",
                        "narration_bindings.render_artifact_id",
                    ),
                );
            },
        }
        index += 1;
    }
    Ok(())
}

/// Whether a track of a kind can play what a source holds.
pub open spec fn source_stream_fits(kind: TrackKind, source: SourceAssetModel) -> bool {
    match kind {
        TrackKind::Video | TrackKind::Overlay => source.probe.has_video,
        TrackKind::Audio => source.probe.has_audio,
        TrackKind::Caption => false,
    }
}

/// Whether a track of a kind can play what an artifact holds. A rendered video segment may provide
/// an audio pad, so an audio track takes audio and video.
pub open spec fn artifact_stream_fits(kind: TrackKind, artifact: RenderArtifactModel) -> bool {
    let mime = ascii_lowercase(artifact.mime_type);
    match kind {
        TrackKind::Video | TrackKind::Overlay => "video/"@.is_prefix_of(mime) && artifact.width is Some
            && artifact.height is Some,
        TrackKind::Audio => "audio/"@.is_prefix_of(mime) || "video/"@.is_prefix_of(mime),
        TrackKind::Caption => "text/"@.is_prefix_of(mime) || mime == "application/x-ass"@ || mime
            == "application/x-subrip"@ || mime == "application/ttml+xml"@,
    }
}

fn validate_source_stream_for_track(track: &TimelineTrack, source: &SourceAsset) -> (result: VideoResult<()>)
    ensures
        refusal(result) == unless(
            source_stream_fits(track.kind, source.deep_view()),
            fault_at(
                VideoErrorCode::InvalidTrack,
                "timeline track kind is incompatible with the referenced source streams"@,
                "tracks.clips.media.source_asset_id"@,
            ),
        ),
{
    let fits: bool = match track.kind {
        TrackKind::Video | TrackKind::Overlay => source.probe.has_video,
        TrackKind::Audio => source.probe.has_audio,
        TrackKind::Caption => false,
    };
    if fits {
        Ok(())
    } else {
        Err(
            refuse(
                VideoErrorCode::InvalidTrack,
                "timeline track kind is incompatible with the referenced source streams",
                "tracks.clips.media.source_asset_id",
            ),
        )
    }
}

fn validate_artifact_stream_for_track(track: &TimelineTrack, artifact: &RenderArtifact) -> (result: VideoResult<
    (),
>)
    ensures
        refusal(result) == unless(
            artifact_stream_fits(track.kind, artifact.deep_view()),
            fault_at(
                VideoErrorCode::InvalidTrack,
                "timeline track kind is incompatible with the referenced artifact"@,
                "tracks.clips.media.render_artifact_id"@,
            ),
        ),
{
    let lowered: String = artifact.mime_type.as_str().to_ascii_lowercase();
    let mime: &str = lowered.as_str();
    let fits: bool = match track.kind {
        TrackKind::Video | TrackKind::Overlay => has_prefix(mime, "video/") && artifact.width.is_some()
            && artifact.height.is_some(),
        TrackKind::Audio => has_prefix(mime, "audio/") || has_prefix(mime, "video/"),
        TrackKind::Caption => has_prefix(mime, "text/") || text_eq(mime, "application/x-ass") || text_eq(
            mime,
            "application/x-subrip",
        ) || text_eq(mime, "application/ttml+xml"),
    };
    if fits {
        Ok(())
    } else {
        Err(
            refuse(
                VideoErrorCode::InvalidTrack,
                "timeline track kind is incompatible with the referenced artifact",
                "tracks.clips.media.render_artifact_id",
            ),
        )
    }
}

/// Whether a clip of the identifier stands on an earlier track, or before `clip` on the track.
pub open spec fn clip_before(tracks: Seq<TimelineTrackModel>, track: int, clip: int, id: Seq<char>) -> bool {
    exists|t: int, c: int|
        0 <= t < tracks.len() && 0 <= c < tracks[t].clips.len() && (t < track || (t == track && c < clip))
            && (#[trigger] tracks[t].clips[c]).id == id
}

proof fn lemma_clip_before_next(tracks: Seq<TimelineTrackModel>, track: int, clip: int, id: Seq<char>)
    requires
        0 <= track < tracks.len(),
        0 <= clip < tracks[track].clips.len(),
    ensures
        clip_before(tracks, track, clip + 1, id) <==> clip_before(tracks, track, clip, id)
            || tracks[track].clips[clip].id == id,
{
    if clip_before(tracks, track, clip, id) {
        let (t, c) = choose|t: int, c: int|
            0 <= t < tracks.len() && 0 <= c < tracks[t].clips.len() && (t < track || (t == track && c < clip))
                && (#[trigger] tracks[t].clips[c]).id == id;
        assert(tracks[t].clips[c].id == id);
    }
    if tracks[track].clips[clip].id == id {
        assert(tracks[track].clips[clip].id == id);
    }
}

proof fn lemma_clip_before_track(tracks: Seq<TimelineTrackModel>, track: int, id: Seq<char>)
    requires
        0 <= track < tracks.len(),
    ensures
        clip_before(tracks, track + 1, 0, id) <==> clip_before(
            tracks,
            track,
            tracks[track].clips.len() as int,
            id,
        ),
{
    if clip_before(tracks, track + 1, 0, id) {
        let (t, c) = choose|t: int, c: int|
            0 <= t < tracks.len() && 0 <= c < tracks[t].clips.len() && (t < track + 1 || (t == track + 1 && c < 0))
                && (#[trigger] tracks[t].clips[c]).id == id;
        assert(tracks[t].clips[c].id == id);
    }
    if clip_before(tracks, track, tracks[track].clips.len() as int, id) {
        let (t, c) = choose|t: int, c: int|
            0 <= t < tracks.len() && 0 <= c < tracks[t].clips.len() && (t < track || (t == track && c
                < tracks[track].clips.len())) && (#[trigger] tracks[t].clips[c]).id == id;
        assert(tracks[t].clips[c].id == id);
    }
}

/// The rules on the scene that a clip shows: it is there, and was not rejected.
pub open spec fn clip_scene_fault(m: VideoProjectManifestModel, clip: TimelineClipModel) -> Option<Fault> {
    match clip.scene_id {
        Some(scene_id) => match find::<ReviewedScene>(m.reviewed_scenes, scene_id) {
            Some(scene) => unless(
                scene.review_state != ReviewState::Rejected,
                fault(
                    VideoErrorCode::InvalidScene,
                    "a rejected scene cannot be placed on the timeline"@,
                ),
            ),
            None => Some(
                fault(VideoErrorCode::MissingReference, "timeline clip references a missing scene"@),
            ),
        },
        None => None,
    }
}

/// The rules on the media that a clip plays: it is there, long enough, and fits the track.
pub open spec fn clip_media_fault(
    m: VideoProjectManifestModel,
    kind: TrackKind,
    clip: TimelineClipModel,
) -> Option<Fault> {
    match (clip.media.source_asset_id, clip.media.render_artifact_id) {
        (Some(source_id), None) => match find::<SourceAsset>(m.source_assets, source_id) {
            Some(source) => or_else(
                within_fault(
                    clip.source_range,
                    source.probe.duration_us.0 as int,
                    VideoErrorCode::InvalidTrack,
                    "tracks.clips.source_range"@,
                ),
                unless(
                    source_stream_fits(kind, source),
                    fault_at(
                        VideoErrorCode::InvalidTrack,
                        "timeline track kind is incompatible with the referenced source streams"@,
                        "tracks.clips.media.source_asset_id"@,
                    ),
                ),
            ),
            None => Some(
                fault(
                    VideoErrorCode::MissingReference,
                    "timeline clip references a missing source asset"@,
                ),
            ),
        },
        (None, Some(artifact_id)) => match find::<RenderArtifact>(m.render_artifacts, artifact_id) {
            Some(artifact) => match artifact.duration_us {
                Some(duration) => or_else(
                    unless(
                        artifact.publication_state == PublicationState::Published,
                        fault_at(
                            VideoErrorCode::InvalidArtifact,
                            "timeline clips may reference only atomically published artifacts"@,
                            "render_artifacts.publication_state"@,
                        ),
                    ),
                    or_else(
                        within_fault(
                            clip.source_range,
                            duration.0 as int,
                            VideoErrorCode::InvalidTrack,
                            "tracks.clips.source_range"@,
                        ),
                        unless(
                            artifact_stream_fits(kind, artifact),
                            fault_at(
                                VideoErrorCode::InvalidTrack,
                                "timeline track kind is incompatible with the referenced artifact"@,
                                "tracks.clips.media.render_artifact_id"@,
                            ),
                        ),
                    ),
                ),
                None => Some(
                    fault_at(
                        VideoErrorCode::InvalidArtifact,
                        "timeline media artifacts must declare their source-clock duration"@,
                        "render_artifacts.duration_us"@,
                    ),
                ),
            },
            None => Some(
                fault(
                    VideoErrorCode::MissingReference,
                    "timeline clip references a missing render artifact"@,
                ),
            ),
        },
        _ => Some(
            fault(
                VideoErrorCode::MissingReference,
                "timeline clip references a missing render artifact"@,
            ),
        ),
    }
}

pub open spec fn placed_clip_fault(m: VideoProjectManifestModel, track: int, index: int) -> Option<Fault> {
    let clip = m.tracks[track].clips[index];
    or_else(
        TimelineClip::fault_of(clip),
        or_else(
            unless(
                !clip_before(m.tracks, track, index, clip.id),
                duplicate_fault("tracks.clips"@, clip.id),
            ),
            or_else(
                clip_scene_fault(m, clip),
                or_else(
                    clip_media_fault(m, m.tracks[track].kind, clip),
                    or_else(
                        clip.span_refusal(),
                        within_fault(
                            clip.span(),
                            m.timeline_duration_us.0 as int,
                            VideoErrorCode::InvalidTrack,
                            "tracks.clips.timeline"@,
                        ),
                    ),
                ),
            ),
        ),
    )
}

pub open spec fn clips_fault_from(m: VideoProjectManifestModel, track: int, index: int) -> Option<Fault>
    decreases m.tracks[track].clips.len() - index,
{
    if index < 0 || index >= m.tracks[track].clips.len() {
        None
    } else {
        or_else(placed_clip_fault(m, track, index), clips_fault_from(m, track, index + 1))
    }
}

fn check_clip_scene(m: &VideoProjectManifest, clip: &TimelineClip) -> (result: VideoResult<()>)
    ensures
        refusal(result) == clip_scene_fault(m.deep_view(), clip.deep_view()),
{
    if let Some(scene_id) = &clip.scene_id {
        match find_named(&m.reviewed_scenes, scene_id.as_str()) {
            Some(scene) => {
                if scene.review_state == ReviewState::Rejected {
                    return Err(
                        VideoError::new(
                            VideoErrorCode::InvalidScene,
                            "a rejected scene cannot be placed on the timeline",
                        ),
                    );
                }
            },
            None => {
                return Err(
                    VideoError::new(
                        VideoErrorCode::MissingReference,
                        "timeline clip references a missing scene",
                    ),
                );
            },
        }
    }
    Ok(())
}

fn check_clip_media(m: &VideoProjectManifest, track: &TimelineTrack, clip: &TimelineClip) -> (result: VideoResult<
    (),
>)
    ensures
        refusal(result) == clip_media_fault(m.deep_view(), track.kind, clip.deep_view()),
{
    match (&clip.media.source_asset_id, &clip.media.render_artifact_id) {
        (Some(source_id), None) => match find_named(&m.source_assets, source_id.as_str()) {
            Some(source) => {
                validate_range_within(
                    clip.source_range,
                    source.probe.duration_us,
                    VideoErrorCode::InvalidTrack,
                    "tracks.clips.source_range",
                )?;
                validate_source_stream_for_track(track, source)
            },
            None => Err(
                VideoError::new(
                    VideoErrorCode::MissingReference,
                    "timeline clip references a missing source asset",
                ),
            ),
        },
        (None, Some(artifact_id)) => match find_named(&m.render_artifacts, artifact_id.as_str()) {
            Some(artifact) => match artifact.duration_us {
                Some(duration) => {
                    if artifact.publication_state != PublicationState::Published {
                        return Err(
                            refuse(
                                VideoErrorCode::InvalidArtifact,
                                "timeline clips may reference only atomically published artifacts",
                                "render_artifacts.publication_state",
                            ),
                        );
                    }
                    validate_range_within(
                        clip.source_range,
                        duration,
                        VideoErrorCode::InvalidTrack,
                        "tracks.clips.source_range",
                    )?;
                    validate_artifact_stream_for_track(track, artifact)
                },
                None => Err(
                    refuse(
                        VideoErrorCode::InvalidArtifact,
                        "timeline media artifacts must declare their source-clock duration",
                        "render_artifacts.duration_us",
                    ),
                ),
            },
            None => Err(
                VideoError::new(
                    VideoErrorCode::MissingReference,
                    "timeline clip references a missing render artifact",
                ),
            ),
        },
        _ => Err(
            VideoError::new(
                VideoErrorCode::MissingReference,
                "timeline clip references a missing render artifact",
            ),
        ),
    }
}

/// Whether two ranges share no instant.
pub open spec fn apart(left: TimeRange, right: TimeRange) -> bool {
    left.end() <= right.start() || right.end() <= left.start()
}

/// Whether no two ranges of a list share an instant.
pub open spec fn pairwise_apart(ranges: Seq<TimeRange>) -> bool {
    forall|i: int, j: int| 0 <= i < j < ranges.len() ==> apart(#[trigger] ranges[i], #[trigger] ranges[j])
}

pub open spec fn overlap_fault(ranges: Seq<TimeRange>, field: Seq<char>) -> Option<Fault> {
    unless(
        pairwise_apart(ranges),
        fault_at(VideoErrorCode::TimelineOverlap, "timeline entries overlap"@, field),
    )
}

fn validate_non_overlapping_ranges(ranges: &Vec<TimeRange>, field: &str) -> (result: VideoResult<()>)
    ensures
        refusal(result) == overlap_fault(ranges@, field@),
{
    let mut right: usize = 0;
    while right < ranges.len()
        invariant
            right <= ranges.len(),
            forall|i: int, j: int|
                0 <= i < j < right ==> apart(#[trigger] ranges@[i], #[trigger] ranges@[j]),
        decreases ranges.len() - right,
    {
        let mut left: usize = 0;
        while left < right
            invariant
                left <= right < ranges.len(),
                forall|i: int, j: int|
                    0 <= i < j < right ==> apart(#[trigger] ranges@[i], #[trigger] ranges@[j]),
                forall|i: int| 0 <= i < left ==> apart(#[trigger] ranges@[i], ranges@[right as int]),
            decreases right - left,
        {
            if ranges[left].end_us.0 > ranges[right].start_us.0 && ranges[right].end_us.0
                > ranges[left].start_us.0 {
                assert(!apart(ranges@[left as int], ranges@[right as int]));
                return Err(
                    refuse(VideoErrorCode::TimelineOverlap, "timeline entries overlap", field),
                );
            }
            left += 1;
        }
        right += 1;
    }
    Ok(())
}

/// Where the clips of a track stand on the timeline.
pub open spec fn clip_spans(clips: Seq<TimelineClipModel>) -> Seq<TimeRange> {
    Seq::new(clips.len(), |i: int| clips[i].span())
}

pub open spec fn track_fault(m: VideoProjectManifestModel, track: int) -> Option<Fault> {
    or_else(
        identifier_fault(m.tracks[track].id, "tracks.id"@),
        or_else(
            clips_fault_from(m, track, 0),
            overlap_fault(clip_spans(m.tracks[track].clips), "tracks.clips"@),
        ),
    )
}

pub open spec fn tracks_fault_from(m: VideoProjectManifestModel, index: int) -> Option<Fault>
    decreases m.tracks.len() - index,
{
    if index < 0 || index >= m.tracks.len() {
        None
    } else {
        or_else(track_fault(m, index), tracks_fault_from(m, index + 1))
    }
}

fn check_tracks(m: &VideoProjectManifest) -> (result: VideoResult<()>)
    ensures
        refusal(result) == tracks_fault_from(m.deep_view(), 0),
{
    let ghost model = m.deep_view();
    let mut seen: StringHashSet = StringHashSet::new();
    let mut index: usize = 0;
    while index < m.tracks.len()
        invariant
            index <= m.tracks.len(),
            model == m.deep_view(),
            forall|id: Seq<char>|
                #[trigger] seen@.contains(id) <==> clip_before(model.tracks, index as int, 0, id),
            tracks_fault_from(model, 0) == tracks_fault_from(model, index as int),
        decreases m.tracks.len() - index,
    {
        let track: &TimelineTrack = &m.tracks[index];
        assert(model.tracks[index as int] == track.deep_view());
        validate_identifier(track.id.as_str(), "tracks.id")?;
        let mut ranges: Vec<TimeRange> = Vec::new();
        let mut clip_index: usize = 0;
        while clip_index < track.clips.len()
            invariant
                index < m.tracks.len(),
                clip_index <= track.clips.len(),
                model == m.deep_view(),
                model.tracks[index as int] == track.deep_view(),
                identifier_fault(model.tracks[index as int].id, "tracks.id"@) is None,
                ranges@ == clip_spans(model.tracks[index as int].clips).take(clip_index as int),
                forall|id: Seq<char>|
                    #[trigger] seen@.contains(id) <==> clip_before(
                        model.tracks,
                        index as int,
                        clip_index as int,
                        id,
                    ),
                clips_fault_from(model, index as int, 0) == clips_fault_from(
                    model,
                    index as int,
                    clip_index as int,
                ),
                tracks_fault_from(model, 0) == tracks_fault_from(model, index as int),
            decreases track.clips.len() - clip_index,
        {
            let clip: &TimelineClip = &track.clips[clip_index];
            assert(model.tracks[index as int].clips[clip_index as int] == clip.deep_view());
            clip.validate()?;
            let fresh: bool = seen.insert(clip.id.clone());
            if !fresh {
                return Err(duplicate_id_error("tracks.clips", clip.id.as_str()));
            }
            proof {
                assert forall|id: Seq<char>| #[trigger] seen@.contains(id) <==> clip_before(
                    model.tracks,
                    index as int,
                    clip_index + 1,
                    id,
                ) by {
                    lemma_clip_before_next(model.tracks, index as int, clip_index as int, id);
                }
            }
            check_clip_scene(m, clip)?;
            check_clip_media(m, track, clip)?;
            let range: TimeRange = clip.timeline_range()?;
            validate_range_within(
                range,
                m.timeline_duration_us,
                VideoErrorCode::InvalidTrack,
                "tracks.clips.timeline",
            )?;
            ranges.push(range);
            clip_index += 1;
            assert(ranges@ =~= clip_spans(model.tracks[index as int].clips).take(clip_index as int));
        }
        assert(ranges@ =~= clip_spans(model.tracks[index as int].clips));
        validate_non_overlapping_ranges(&ranges, "tracks.clips")?;
        proof {
            assert forall|id: Seq<char>| #[trigger] seen@.contains(id) <==> clip_before(
                model.tracks,
                index + 1,
                0,
                id,
            ) by {
                lemma_clip_before_track(model.tracks, index as int, id);
            }
        }
        index += 1;
    }
    Ok(())
}

/// The rules on one explicit gap and what it refers to.
pub open spec fn gap_fault(m: VideoProjectManifestModel, gap: TimelineGapModel) -> Option<Fault> {
    or_else(
        TimelineGap::fault_of(gap),
        or_else(
            unless(
                holds::<TimelineTrack>(m.tracks, gap.track_id),
                fault(
                    VideoErrorCode::MissingReference,
                    "gap "@ + gap.id + " references a missing track"@,
                ),
            ),
            or_else(
                within_fault(
                    gap.range,
                    m.timeline_duration_us.0 as int,
                    VideoErrorCode::InvalidGap,
                    "gaps.range"@,
                ),
                match (gap.source_asset_id, gap.source_range) {
                    (Some(source_id), Some(source_range)) => match find::<SourceAsset>(
                        m.source_assets,
                        source_id,
                    ) {
                        Some(source) => within_fault(
                            source_range,
                            source.probe.duration_us.0 as int,
                            VideoErrorCode::InvalidGap,
                            "gaps.source_range"@,
                        ),
                        None => Some(
                            fault(
                                VideoErrorCode::MissingReference,
                                "gap references a missing source asset"@,
                            ),
                        ),
                    },
                    _ => None,
                },
            ),
        ),
    )
}

pub open spec fn gaps_fault_from(m: VideoProjectManifestModel, index: int) -> Option<Fault>
    decreases m.gaps.len() - index,
{
    if index < 0 || index >= m.gaps.len() {
        None
    } else {
        or_else(gap_fault(m, m.gaps[index]), gaps_fault_from(m, index + 1))
    }
}

fn check_gap(m: &VideoProjectManifest, gap: &TimelineGap) -> (result: VideoResult<()>)
    ensures
        refusal(result) == gap_fault(m.deep_view(), gap.deep_view()),
{
    gap.validate()?;
    if !has_name(&m.tracks, gap.track_id.as_str()) {
        let message: String = text_concat3("gap ", gap.id.as_str(), " references a missing track");
        return Err(VideoError::new(VideoErrorCode::MissingReference, message.as_str()));
    }
    validate_range_within(gap.range, m.timeline_duration_us, VideoErrorCode::InvalidGap, "gaps.range")?;
    if let (Some(source_id), Some(source_range)) = (&gap.source_asset_id, gap.source_range) {
        match find_named(&m.source_assets, source_id.as_str()) {
            Some(source) => {
                validate_range_within(
                    source_range,
                    source.probe.duration_us,
                    VideoErrorCode::InvalidGap,
                    "gaps.source_range",
                )?;
            },
            None => {
                return Err(
                    VideoError::new(
                        VideoErrorCode::MissingReference,
                        "gap references a missing source asset",
                    ),
                );
            },
        }
    }
    Ok(())
}

fn check_gaps(m: &VideoProjectManifest) -> (result: VideoResult<()>)
    ensures
        refusal(result) == gaps_fault_from(m.deep_view(), 0),
{
    let ghost model = m.deep_view();
    let mut index: usize = 0;
    while index < m.gaps.len()
        invariant
            index <= m.gaps.len(),
            model == m.deep_view(),
            gaps_fault_from(model, 0) == gaps_fault_from(model, index as int),
        decreases m.gaps.len() - index,
    {
        assert(model.gaps[index as int] == m.gaps[index as int].deep_view());
        check_gap(m, &m.gaps[index])?;
        index += 1;
    }
    Ok(())
}

/// The ranges of a track's gaps, from a place in the list on.
pub open spec fn gap_ranges_from(gaps: Seq<TimelineGapModel>, track_id: Seq<char>, index: int) -> Seq<TimeRange>
    decreases gaps.len() - index,
{
    if index < 0 || index >= gaps.len() {
        Seq::empty()
    } else if gaps[index].track_id == track_id {
        seq![gaps[index].range] + gap_ranges_from(gaps, track_id, index + 1)
    } else {
        gap_ranges_from(gaps, track_id, index + 1)
    }
}

/// Everything that occupies a track, in the order of the timeline.
pub open spec fn occupied(track: TimelineTrackModel, gaps: Seq<TimelineGapModel>) -> Seq<TimeRange> {
    ranked::<TimeRange>(clip_spans(track.clips) + gap_ranges_from(gaps, track.id, 0))
}

/// The refusal met on the way to the spans of a track's clips, if any.
pub open spec fn spans_fault_from(clips: Seq<TimelineClipModel>, index: int) -> Option<Fault>
    decreases clips.len() - index,
{
    if index < 0 || index >= clips.len() {
        None
    } else {
        or_else(clips[index].span_refusal(), spans_fault_from(clips, index + 1))
    }
}

/// The refusal of the first place where two neighbours leave a hole or overlap.
pub open spec fn seam_fault_from(spans: Seq<TimeRange>, index: int) -> Option<Fault>
    decreases spans.len() - index,
{
    if index < 0 || index + 1 >= spans.len() {
        None
    } else if spans[index].end() < spans[index + 1].start() {
        Some(
            fault_at(
                VideoErrorCode::TimelineGap,
                "implicit timeline hole; add a TimelineGap"@,
                "gaps"@,
            ),
        )
    } else if spans[index].end() > spans[index + 1].start() {
        Some(
            fault_at(VideoErrorCode::TimelineOverlap, "timeline clips and gaps overlap"@, "gaps"@),
        )
    } else {
        seam_fault_from(spans, index + 1)
    }
}

/// The rule that clips and gaps, in order, lead from the start of the timeline to its end without a
/// hole or an overlap.
pub open spec fn cover_fault(spans: Seq<TimeRange>, duration: int) -> Option<Fault> {
    or_else(
        unless(
            spans.len() > 0 && spans[0].start() == 0 && spans.last().end() == duration,
            fault_at(
                VideoErrorCode::TimelineGap,
                "gap-preserving tracks must explicitly cover the complete timeline"@,
                "tracks.preserve_gaps"@,
            ),
        ),
        seam_fault_from(spans, 0),
    )
}

pub open spec fn partition_fault(
    track: TimelineTrackModel,
    gaps: Seq<TimelineGapModel>,
    duration: int,
) -> Option<Fault> {
    or_else(spans_fault_from(track.clips, 0), cover_fault(occupied(track, gaps), duration))
}

/// What occupies a track, in the order of the timeline.
pub fn occupied_ranges(track: &TimelineTrack, gaps: &Vec<TimelineGap>) -> (result: VideoResult<Vec<TimeRange>>)
    ensures
        refusal(result) == spans_fault_from(track.deep_view().clips, 0),
        result matches Ok(spans) ==> spans@ == occupied(track.deep_view(), gaps.deep_view()),
{
    let ghost clips = track.deep_view().clips;
    let ghost all = gaps.deep_view();
    let mut spans: Vec<TimeRange> = Vec::new();
    let mut index: usize = 0;
    while index < track.clips.len()
        invariant
            index <= track.clips.len(),
            clips == track.deep_view().clips,
            spans@ == clip_spans(clips).take(index as int),
            spans_fault_from(clips, 0) == spans_fault_from(clips, index as int),
        decreases track.clips.len() - index,
    {
        assert(clips[index as int] == track.clips[index as int].deep_view());
        let span: TimeRange = track.clips[index].timeline_range()?;
        spans.push(span);
        index += 1;
        assert(spans@ =~= clip_spans(clips).take(index as int));
    }
    assert(spans@ =~= clip_spans(clips) + Seq::<TimeRange>::empty());
    let mut gap: usize = 0;
    while gap < gaps.len()
        invariant
            gap <= gaps.len(),
            clips == track.deep_view().clips,
            all == gaps.deep_view(),
            spans_fault_from(clips, 0) is None,
            spans@ + gap_ranges_from(all, track.id@, gap as int) == clip_spans(clips) + gap_ranges_from(
                all,
                track.id@,
                0,
            ),
        decreases gaps.len() - gap,
    {
        assert(all[gap as int] == gaps[gap as int].deep_view());
        let ghost before = spans@;
        if text_eq(gaps[gap].track_id.as_str(), track.id.as_str()) {
            spans.push(gaps[gap].range);
            assert(spans@ + gap_ranges_from(all, track.id@, gap + 1) =~= before + gap_ranges_from(
                all,
                track.id@,
                gap as int,
            ));
        }
        gap += 1;
    }
    assert(spans@ =~= clip_spans(clips) + gap_ranges_from(all, track.id@, 0));
    assert(spans.deep_view() =~= spans@);
    let ordered: Vec<TimeRange> = rank(spans);
    assert(ordered.deep_view() =~= ordered@);
    Ok(ordered)
}

fn validate_track_partition(
    track: &TimelineTrack,
    gaps: &Vec<TimelineGap>,
    duration: Microseconds,
) -> (result: VideoResult<()>)
    ensures
        refusal(result) == partition_fault(track.deep_view(), gaps.deep_view(), duration.0 as int),
{
    let spans: Vec<TimeRange> = occupied_ranges(track, gaps)?;
    if spans.len() == 0 || spans[0].start_us.0 != 0 || spans[spans.len() - 1].end_us.0 != duration.0 {
        return Err(
            refuse(
                VideoErrorCode::TimelineGap,
                "gap-preserving tracks must explicitly cover the complete timeline",
                "tracks.preserve_gaps",
            ),
        );
    }
    let mut index: usize = 0;
    while index + 1 < spans.len()
        invariant
            index < spans.len(),
            seam_fault_from(spans@, 0) == seam_fault_from(spans@, index as int),
            partition_fault(track.deep_view(), gaps.deep_view(), duration.0 as int) == seam_fault_from(
                spans@,
                0,
            ),
        decreases spans.len() - index,
    {
        if spans[index].end_us.0 < spans[index + 1].start_us.0 {
            return Err(
                refuse(
                    VideoErrorCode::TimelineGap,
                    "implicit timeline hole; add a TimelineGap",
                    "gaps",
                ),
            );
        }
        if spans[index].end_us.0 > spans[index + 1].start_us.0 {
            return Err(
                refuse(VideoErrorCode::TimelineOverlap, "timeline clips and gaps overlap", "gaps"),
            );
        }
        index += 1;
    }
    Ok(())
}

pub open spec fn partitions_fault_from(m: VideoProjectManifestModel, index: int) -> Option<Fault>
    decreases m.tracks.len() - index,
{
    if index < 0 || index >= m.tracks.len() {
        None
    } else {
        or_else(
            if m.tracks[index].preserve_gaps {
                partition_fault(m.tracks[index], m.gaps, m.timeline_duration_us.0 as int)
            } else {
                None
            },
            partitions_fault_from(m, index + 1),
        )
    }
}

fn check_partitions(m: &VideoProjectManifest) -> (result: VideoResult<()>)
    ensures
        refusal(result) == partitions_fault_from(m.deep_view(), 0),
{
    let ghost model = m.deep_view();
    let mut index: usize = 0;
    while index < m.tracks.len()
        invariant
            index <= m.tracks.len(),
            model == m.deep_view(),
            partitions_fault_from(model, 0) == partitions_fault_from(model, index as int),
        decreases m.tracks.len() - index,
    {
        assert(model.tracks[index as int] == m.tracks[index as int].deep_view());
        if m.tracks[index].preserve_gaps {
            validate_track_partition(&m.tracks[index], &m.gaps, m.timeline_duration_us)?;
        }
        index += 1;
    }
    Ok(())
}

/// The rules on one caption and what it refers to.
pub open spec fn caption_fault(m: VideoProjectManifestModel, caption: CaptionCueModel) -> Option<Fault> {
    or_else(
        CaptionCue::fault_of(caption),
        or_else(
            within_fault(
                caption.range,
                m.timeline_duration_us.0 as int,
                VideoErrorCode::InvalidCaption,
                "captions.range"@,
            ),
            or_else(
                unless(
                    caption.transcript_segment_id matches Some(id) ==> segment_ids(m).contains(id),
                    fault(
                        VideoErrorCode::MissingReference,
                        "caption references a missing transcript segment"@,
                    ),
                ),
                unless(
                    scene_known(m, caption.scene_id),
                    fault(VideoErrorCode::MissingReference, "caption references a missing scene"@),
                ),
            ),
        ),
    )
}

pub open spec fn captions_fault_from(m: VideoProjectManifestModel, index: int) -> Option<Fault>
    decreases m.captions.len() - index,
{
    if index < 0 || index >= m.captions.len() {
        None
    } else {
        or_else(caption_fault(m, m.captions[index]), captions_fault_from(m, index + 1))
    }
}

pub open spec fn caption_ranges(captions: Seq<CaptionCueModel>) -> Seq<TimeRange> {
    Seq::new(captions.len(), |i: int| captions[i].range)
}

fn check_caption(m: &VideoProjectManifest, caption: &CaptionCue, segments: &StringHashSet) -> (result: VideoResult<
    (),
>)
    requires
        forall|id: Seq<char>| #[trigger] segments@.contains(id) <==> segment_ids(m.deep_view()).contains(id),
    ensures
        refusal(result) == caption_fault(m.deep_view(), caption.deep_view()),
{
    caption.validate()?;
    validate_range_within(
        caption.range,
        m.timeline_duration_us,
        VideoErrorCode::InvalidCaption,
        "captions.range",
    )?;
    if let Some(id) = &caption.transcript_segment_id {
        if !segments.contains(id.as_str()) {
            return Err(
                VideoError::new(
                    VideoErrorCode::MissingReference,
                    "caption references a missing transcript segment",
                ),
            );
        }
    }
    if !is_scene_known(m, &caption.scene_id) {
        return Err(
            VideoError::new(VideoErrorCode::MissingReference, "caption references a missing scene"),
        );
    }
    Ok(())
}

fn check_captions(m: &VideoProjectManifest, segments: &StringHashSet) -> (result: VideoResult<()>)
    requires
        forall|id: Seq<char>| #[trigger] segments@.contains(id) <==> segment_ids(m.deep_view()).contains(id),
    ensures
        refusal(result) == or_else(
            captions_fault_from(m.deep_view(), 0),
            overlap_fault(caption_ranges(m.deep_view().captions), "captions"@),
        ),
{
    let ghost model = m.deep_view();
    let mut ranges: Vec<TimeRange> = Vec::new();
    let mut index: usize = 0;
    while index < m.captions.len()
        invariant
            index <= m.captions.len(),
            model == m.deep_view(),
            forall|id: Seq<char>| #[trigger] segments@.contains(id) <==> segment_ids(m.deep_view()).contains(id),
            ranges@ == caption_ranges(model.captions).take(index as int),
            captions_fault_from(model, 0) == captions_fault_from(model, index as int),
        decreases m.captions.len() - index,
    {
        assert(model.captions[index as int] == m.captions[index as int].deep_view());
        check_caption(m, &m.captions[index], segments)?;
        ranges.push(m.captions[index].range);
        index += 1;
        assert(ranges@ =~= caption_ranges(model.captions).take(index as int));
    }
    assert(ranges@ =~= caption_ranges(model.captions));
    validate_non_overlapping_ranges(&ranges, "captions")
}

pub open spec fn element_scenes_fault_from(m: VideoProjectManifestModel, index: int) -> Option<Fault>
    decreases m.layout.elements.len() - index,
{
    if index < 0 || index >= m.layout.elements.len() {
        None
    } else {
        or_else(
            unless(
                scene_known(m, m.layout.elements[index].scene_id),
                fault(
                    VideoErrorCode::MissingReference,
                    "layout element references a missing scene"@,
                ),
            ),
            element_scenes_fault_from(m, index + 1),
        )
    }
}

fn check_layout(m: &VideoProjectManifest) -> (result: VideoResult<()>)
    ensures
        refusal(result) == or_else(
            LayoutPlan::fault_of(m.deep_view().layout),
            element_scenes_fault_from(m.deep_view(), 0),
        ),
{
    let ghost model = m.deep_view();
    m.layout.validate()?;
    let mut index: usize = 0;
    while index < m.layout.elements.len()
        invariant
            index <= m.layout.elements.len(),
            model == m.deep_view(),
            LayoutPlan::fault_of(model.layout) is None,
            element_scenes_fault_from(model, 0) == element_scenes_fault_from(model, index as int),
        decreases m.layout.elements.len() - index,
    {
        assert(model.layout.elements[index as int] == m.layout.elements[index as int].deep_view());
        if !is_scene_known(m, &m.layout.elements[index].scene_id) {
            return Err(
                VideoError::new(
                    VideoErrorCode::MissingReference,
                    "layout element references a missing scene",
                ),
            );
        }
        index += 1;
    }
    Ok(())
}

/// The rules on the tracks that one mix entry speaks of.
pub open spec fn mix_track_fault(m: VideoProjectManifestModel, mix: AudioMixTrackModel) -> Option<Fault> {
    match find::<TimelineTrack>(m.tracks, mix.track_id) {
        Some(track) => or_else(
            unless(
                track.kind == TrackKind::Audio,
                fault_at(
                    VideoErrorCode::InvalidAudioMix,
                    "audio mix entries may reference only audio tracks"@,
                    "audio_mix.tracks.track_id"@,
                ),
            ),
            match mix.ducking {
                Some(ducking) => match find::<TimelineTrack>(m.tracks, ducking.sidechain_track_id) {
                    Some(sidechain) => unless(
                        sidechain.kind == TrackKind::Audio && sidechain.id != mix.track_id,
                        fault_at(
                            VideoErrorCode::InvalidAudioMix,
                            "audio ducking requires a different audio sidechain track"@,
                            "audio_mix.tracks.ducking.sidechain_track_id"@,
                        ),
                    ),
                    None => Some(
                        fault(
                            VideoErrorCode::MissingReference,
                            "audio ducking references a missing sidechain track"@,
                        ),
                    ),
                },
                None => None,
            },
        ),
        None => Some(
            fault(
                VideoErrorCode::MissingReference,
                "audio mix references a missing timeline track"@,
            ),
        ),
    }
}

pub open spec fn mix_tracks_fault_from(m: VideoProjectManifestModel, index: int) -> Option<Fault>
    decreases m.audio_mix.tracks.len() - index,
{
    if index < 0 || index >= m.audio_mix.tracks.len() {
        None
    } else {
        or_else(mix_track_fault(m, m.audio_mix.tracks[index]), mix_tracks_fault_from(m, index + 1))
    }
}

fn check_mix_track(m: &VideoProjectManifest, mix: &AudioMixTrack) -> (result: VideoResult<()>)
    ensures
        refusal(result) == mix_track_fault(m.deep_view(), mix.deep_view()),
{
    match find_named(&m.tracks, mix.track_id.as_str()) {
        Some(track) => {
            if track.kind != TrackKind::Audio {
                return Err(
                    refuse(
                        VideoErrorCode::InvalidAudioMix,
                        "audio mix entries may reference only audio tracks",
                        "audio_mix.tracks.track_id",
                    ),
                );
            }
            if let Some(ducking) = &mix.ducking {
                match find_named(&m.tracks, ducking.sidechain_track_id.as_str()) {
                    Some(sidechain) => {
                        if sidechain.kind != TrackKind::Audio || sidechain.id == mix.track_id {
                            return Err(
                                refuse(
                                    VideoErrorCode::InvalidAudioMix,
                                    "audio ducking requires a different audio sidechain track",
                                    "audio_mix.tracks.ducking.sidechain_track_id",
                                ),
                            );
                        }
                    },
                    None => {
                        return Err(
                            VideoError::new(
                                VideoErrorCode::MissingReference,
                                "audio ducking references a missing sidechain track",
                            ),
                        );
                    },
                }
            }
            Ok(())
        },
        None => Err(
            VideoError::new(
                VideoErrorCode::MissingReference,
                "audio mix references a missing timeline track",
            ),
        ),
    }
}

fn check_audio_mix(m: &VideoProjectManifest) -> (result: VideoResult<()>)
    ensures
        refusal(result) == or_else(
            AudioMix::fault_of(m.deep_view().audio_mix),
            mix_tracks_fault_from(m.deep_view(), 0),
        ),
{
    let ghost model = m.deep_view();
    m.audio_mix.validate()?;
    let mut index: usize = 0;
    while index < m.audio_mix.tracks.len()
        invariant
            index <= m.audio_mix.tracks.len(),
            model == m.deep_view(),
            AudioMix::fault_of(model.audio_mix) is None,
            mix_tracks_fault_from(model, 0) == mix_tracks_fault_from(model, index as int),
        decreases m.audio_mix.tracks.len() - index,
    {
        assert(model.audio_mix.tracks[index as int] == m.audio_mix.tracks[index as int].deep_view());
        check_mix_track(m, &m.audio_mix.tracks[index])?;
        index += 1;
    }
    Ok(())
}

/// The identifier of the record before `index`.
pub open spec fn parent_of(history: Seq<RevisionRecordModel>, index: int) -> Option<Seq<char>> {
    if index <= 0 {
        None
    } else {
        Some(history[index - 1].id)
    }
}

/// The rules on the records from a place on: each is numbered by its place and names the one before.
pub open spec fn history_fault_from(history: Seq<RevisionRecordModel>, index: int) -> Option<Fault>
    decreases history.len() - index,
{
    if index < 0 || index >= history.len() {
        None
    } else {
        or_else(
            RevisionRecord::fault_of(history[index]),
            or_else(
                unless(
                    history[index].revision == index + 1 && history[index].parent_id == parent_of(
                        history,
                        index,
                    ),
                    fault(
                        VideoErrorCode::InvalidRevision,
                        "revision history must be contiguous with exact parent links"@,
                    ),
                ),
                or_else(
                    unless(
                        index + 2 <= u64::MAX,
                        fault(VideoErrorCode::ArithmeticOverflow, "revision number overflowed"@),
                    ),
                    history_fault_from(history, index + 1),
                ),
            ),
        )
    }
}

pub open spec fn revision_fault(history: Seq<RevisionRecordModel>, revision: int) -> Option<Fault> {
    if history.len() == 0 {
        unless(
            revision == 0,
            fault(
                VideoErrorCode::InvalidRevision,
                "non-zero manifest revision requires revision history"@,
            ),
        )
    } else {
        or_else(
            history_fault_from(history, 0),
            unless(
                history.last().revision == revision,
                fault(
                    VideoErrorCode::InvalidRevision,
                    "manifest revision does not match revision history"@,
                ),
            ),
        )
    }
}

fn validate_revision_chain(history: &Vec<RevisionRecord>, current_revision: u64) -> (result: VideoResult<()>)
    ensures
        refusal(result) == revision_fault(history.deep_view(), current_revision as int),
{
    let ghost model = history.deep_view();
    if history.len() == 0 {
        if current_revision == 0 {
            return Ok(());
        }
        return Err(
            VideoError::new(
                VideoErrorCode::InvalidRevision,
                "non-zero manifest revision requires revision history",
            ),
        );
    }
    let mut index: usize = 0;
    let mut expected: u64 = 1;
    while index < history.len()
        invariant
            index <= history.len(),
            history.len() > 0,
            expected == index + 1,
            model == history.deep_view(),
            history_fault_from(model, 0) == history_fault_from(model, index as int),
        decreases history.len() - index,
    {
        let record: &RevisionRecord = &history[index];
        assert(model[index as int] == record.deep_view());
        record.validate()?;
        let linked: bool = if index == 0 {
            record.parent_id.is_none()
        } else {
            assert(model[index - 1] == history[index - 1].deep_view());
            is_text(&record.parent_id, history[index - 1].id.as_str())
        };
        if record.revision != expected || !linked {
            return Err(
                VideoError::new(
                    VideoErrorCode::InvalidRevision,
                    "revision history must be contiguous with exact parent links",
                ),
            );
        }
        match expected.checked_add(1) {
            Some(next) => {
                expected = next;
            },
            None => {
                return Err(
                    VideoError::new(VideoErrorCode::ArithmeticOverflow, "revision number overflowed"),
                );
            },
        }
        index += 1;
    }
    assert(model.last() == history[history.len() - 1].deep_view());
    if history[history.len() - 1].revision != current_revision {
        return Err(
            VideoError::new(
                VideoErrorCode::InvalidRevision,
                "manifest revision does not match revision history",
            ),
        );
    }
    Ok(())
}

/// Whether a published master stands in the project.
pub open spec fn has_published_master(m: VideoProjectManifestModel) -> bool {
    exists|i: int|
        0 <= i < m.render_artifacts.len() && (#[trigger] m.render_artifacts[i]).role
            == RenderArtifactRole::FinalMaster && m.render_artifacts[i].publication_state
            == PublicationState::Published
}

/// Whether a line is still performed by a stand-in.
pub open spec fn has_draft_take(m: VideoProjectManifestModel) -> bool {
    exists|i: int|
        0 <= i < m.narration_bindings.len() && (#[trigger] m.narration_bindings[i]).fidelity
            == TakeFidelity::Draft
}

/// The rule that no master is published while a line is still a stand-in.
pub open spec fn draft_fault(m: VideoProjectManifestModel) -> Option<Fault> {
    unless(
        !(has_published_master(m) && has_draft_take(m)),
        fault_at(
            VideoErrorCode::DraftNotPromoted,
            "a master cannot be published while a line is still a draft take"@,
            "render_artifacts.publication_state"@,
        ),
    )
}

fn check_drafts(m: &VideoProjectManifest) -> (result: VideoResult<()>)
    ensures
        refusal(result) == draft_fault(m.deep_view()),
{
    let ghost model = m.deep_view();
    let mut master: bool = false;
    let mut index: usize = 0;
    while index < m.render_artifacts.len()
        invariant
            index <= m.render_artifacts.len(),
            model == m.deep_view(),
            master ==> has_published_master(model),
            !master ==> forall|i: int|
                0 <= i < index ==> !((#[trigger] model.render_artifacts[i]).role
                    == RenderArtifactRole::FinalMaster && model.render_artifacts[i].publication_state
                    == PublicationState::Published),
        decreases m.render_artifacts.len() - index,
    {
        let artifact: &RenderArtifact = &m.render_artifacts[index];
        assert(model.render_artifacts[index as int] == artifact.deep_view());
        if artifact.role == RenderArtifactRole::FinalMaster && artifact.publication_state
            == PublicationState::Published {
            master = true;
        }
        index += 1;
    }
    let mut draft: bool = false;
    let mut take: usize = 0;
    while take < m.narration_bindings.len()
        invariant
            take <= m.narration_bindings.len(),
            model == m.deep_view(),
            draft ==> has_draft_take(model),
            !draft ==> forall|i: int|
                0 <= i < take ==> (#[trigger] model.narration_bindings[i]).fidelity != TakeFidelity::Draft,
        decreases m.narration_bindings.len() - take,
    {
        assert(model.narration_bindings[take as int] == m.narration_bindings[take as int].deep_view());
        if m.narration_bindings[take].fidelity == TakeFidelity::Draft {
            draft = true;
        }
        take += 1;
    }
    if master && draft {
        return Err(
            refuse(
                VideoErrorCode::DraftNotPromoted,
                "a master cannot be published while a line is still a draft take",
                "render_artifacts.publication_state",
            ),
        );
    }
    Ok(())
}

/// Whether a placement of room tone runs under the whole of the scene it names.
pub open spec fn room_tone_spans_scene(m: VideoProjectManifestModel, layer: SoundLayerModel) -> bool {
    match layer.scene_id {
        Some(scene_id) => match find::<ReviewedScene>(m.reviewed_scenes, scene_id) {
            Some(scene) => layer.kind == SoundPlacementKind::RoomTone ==> layer.range.start()
                == scene.timeline_start_us.0 && layer.range.end() == scene.timeline_start_us.0
                + scene.timeline_duration_us.0,
            None => true,
        },
        None => true,
    }
}

pub open spec fn sound_fault_from(m: VideoProjectManifestModel, index: int) -> Option<Fault>
    decreases m.sound_layers.len() - index,
{
    if index < 0 || index >= m.sound_layers.len() {
        None
    } else {
        or_else(
            unless(
                room_tone_spans_scene(m, m.sound_layers[index]),
                fault_at(
                    VideoErrorCode::InvalidSoundPlacement,
                    "room tone must run under the whole of its scene"@,
                    "sound_layers.range"@,
                ),
            ),
            sound_fault_from(m, index + 1),
        )
    }
}

fn spans_its_scene(m: &VideoProjectManifest, layer: &SoundLayer) -> (result: bool)
    ensures
        result == room_tone_spans_scene(m.deep_view(), layer.deep_view()),
{
    match &layer.scene_id {
        Some(scene_id) => match find_named(&m.reviewed_scenes, scene_id.as_str()) {
            Some(scene) => layer.kind != SoundPlacementKind::RoomTone || (layer.range.start_us.0
                == scene.timeline_start_us.0 && layer.range.end_us.0 as i128
                == scene.timeline_start_us.0 as i128 + scene.timeline_duration_us.0 as i128),
            None => true,
        },
        None => true,
    }
}

fn check_sound(m: &VideoProjectManifest) -> (result: VideoResult<()>)
    ensures
        refusal(result) == sound_fault_from(m.deep_view(), 0),
{
    let ghost model = m.deep_view();
    let mut index: usize = 0;
    while index < m.sound_layers.len()
        invariant
            index <= m.sound_layers.len(),
            model == m.deep_view(),
            sound_fault_from(model, 0) == sound_fault_from(model, index as int),
        decreases m.sound_layers.len() - index,
    {
        assert(model.sound_layers[index as int] == m.sound_layers[index as int].deep_view());
        if !spans_its_scene(m, &m.sound_layers[index]) {
            return Err(
                refuse(
                    VideoErrorCode::InvalidSoundPlacement,
                    "room tone must run under the whole of its scene",
                    "sound_layers.range",
                ),
            );
        }
        index += 1;
    }
    Ok(())
}

/// The first half of the rules on a project: its identity, its media and its scenes.
pub open spec fn contents_fault(m: VideoProjectManifestModel) -> Option<Fault> {
    or_else(
        identity_fault(m),
        or_else(
            unique_ids_fault(m),
            or_else(
                each_fault_from::<RightsConfirmation>(m.rights_confirmations, 0),
                or_else(
                    sources_fault_from(m, 0),
                    or_else(
                        transcript_fault(m),
                        or_else(
                            candidates_fault_from(m, 0),
                            or_else(
                                scenes_fault_from(m, 0),
                                or_else(artifacts_fault_from(m, 0), narrations_fault_from(m, 0)),
                            ),
                        ),
                    ),
                ),
            ),
        ),
    )
}

/// The second half of the rules on a project: its timeline, its captions, its layout, its mix and
/// its history.
pub open spec fn timeline_fault(m: VideoProjectManifestModel) -> Option<Fault> {
    or_else(
        tracks_fault_from(m, 0),
        or_else(
            gaps_fault_from(m, 0),
            or_else(
                partitions_fault_from(m, 0),
                or_else(
                    or_else(
                        captions_fault_from(m, 0),
                        overlap_fault(caption_ranges(m.captions), "captions"@),
                    ),
                    or_else(
                        or_else(LayoutPlan::fault_of(m.layout), element_scenes_fault_from(m, 0)),
                        or_else(
                            or_else(AudioMix::fault_of(m.audio_mix), mix_tracks_fault_from(m, 0)),
                            or_else(
                                revision_fault(m.revision_history, m.revision as int),
                                or_else(sound_fault_from(m, 0), draft_fault(m)),
                            ),
                        ),
                    ),
                ),
            ),
        ),
    )
}

fn check_contents(m: &VideoProjectManifest, segments: &StringHashSet) -> (result: VideoResult<()>)
    requires
        forall|id: Seq<char>| #[trigger] segments@.contains(id) <==> segment_ids(m.deep_view()).contains(id),
    ensures
        refusal(result) == contents_fault(m.deep_view()),
{
    check_identity(m)?;
    check_unique_ids(m)?;
    validate_each(&m.rights_confirmations)?;
    check_sources(m)?;
    check_transcript(m)?;
    check_candidates(m, segments)?;
    check_scenes(m)?;
    check_artifacts(m)?;
    check_narrations(m)
}

fn check_timeline(m: &VideoProjectManifest, segments: &StringHashSet) -> (result: VideoResult<()>)
    requires
        forall|id: Seq<char>| #[trigger] segments@.contains(id) <==> segment_ids(m.deep_view()).contains(id),
    ensures
        refusal(result) == timeline_fault(m.deep_view()),
{
    check_tracks(m)?;
    check_gaps(m)?;
    check_partitions(m)?;
    check_captions(m, segments)?;
    check_layout(m)?;
    check_audio_mix(m)?;
    validate_revision_chain(&m.revision_history, m.revision)?;
    check_sound(m)?;
    check_drafts(m)
}

impl Validate for VideoProjectManifest {
    open spec fn fault_of(model: VideoProjectManifestModel) -> Option<Fault> {
        or_else(contents_fault(model), timeline_fault(model))
    }

    fn validate(&self) -> (result: VideoResult<()>) {
        let segments: StringHashSet = segment_id_set(self);
        check_contents(self, &segments)?;
        check_timeline(self, &segments)
    }
}

/// A project that has nothing in it yet.
pub open spec fn empty_project(
    project_id: Seq<char>,
    name: Seq<char>,
    frame_rate: RationalFrameRate,
    timeline_duration_us: Microseconds,
    layout: LayoutPlanModel,
    audio_mix: AudioMixModel,
    created_at: Seq<char>,
) -> VideoProjectManifestModel {
    VideoProjectManifestModel {
        schema_version: VIDEO_MANIFEST_SCHEMA_VERSION,
        project_id,
        name,
        revision: 0,
        frame_rate,
        timeline_duration_us,
        source_assets: Seq::empty(),
        rights_confirmations: Seq::empty(),
        transcript: None,
        candidates: Seq::empty(),
        reviewed_scenes: Seq::empty(),
        tracks: Seq::empty(),
        gaps: Seq::empty(),
        captions: Seq::empty(),
        layout,
        audio_mix,
        cast: Seq::empty(),
        dialogue: Seq::empty(),
        turn_beats: Seq::empty(),
        lexicon: Seq::empty(),
        music_cues: Seq::empty(),
        sound_assets: Seq::empty(),
        sound_layers: Seq::empty(),
        visual_assets: Seq::empty(),
        visual_layers: Seq::empty(),
        length_target: None,
        format_origin: None,
        narration_bindings: Seq::empty(),
        render_artifacts: Seq::empty(),
        revision_history: Seq::empty(),
        created_at,
        updated_at: created_at,
    }
}

impl VideoProjectManifest {
    /// A new project with nothing in it, if its settings obey the rules.
    pub fn new(
        project_id: &str,
        name: &str,
        frame_rate: RationalFrameRate,
        timeline_duration_us: Microseconds,
        layout: LayoutPlan,
        audio_mix: AudioMix,
        created_at: &str,
    ) -> (result: VideoResult<Self>)
        ensures
            ({
                let model = empty_project(
                    project_id@,
                    name@,
                    frame_rate,
                    timeline_duration_us,
                    layout.deep_view(),
                    audio_mix.deep_view(),
                    created_at@,
                );
                &&& refusal(result) == VideoProjectManifest::fault_of(model)
                &&& result matches Ok(manifest) ==> manifest.deep_view() == model
            }),
    {
        let manifest = VideoProjectManifest {
            schema_version: VIDEO_MANIFEST_SCHEMA_VERSION,
            project_id: project_id.to_owned(),
            name: name.to_owned(),
            revision: 0,
            frame_rate,
            timeline_duration_us,
            source_assets: Vec::new(),
            rights_confirmations: Vec::new(),
            transcript: None,
            candidates: Vec::new(),
            reviewed_scenes: Vec::new(),
            tracks: Vec::new(),
            gaps: Vec::new(),
            captions: Vec::new(),
            layout,
            audio_mix,
            cast: Vec::new(),
            dialogue: Vec::new(),
            turn_beats: Vec::new(),
            lexicon: Vec::new(),
            music_cues: Vec::new(),
            sound_assets: Vec::new(),
            sound_layers: Vec::new(),
            visual_assets: Vec::new(),
            visual_layers: Vec::new(),
            length_target: None,
            format_origin: None,
            narration_bindings: Vec::new(),
            render_artifacts: Vec::new(),
            revision_history: Vec::new(),
            created_at: created_at.to_owned(),
            updated_at: created_at.to_owned(),
        };
        proof {
            lemma_empty_project(
                manifest,
                project_id@,
                name@,
                frame_rate,
                timeline_duration_us,
                layout.deep_view(),
                audio_mix.deep_view(),
                created_at@,
            );
        }
        manifest.validate_strict()?;
        Ok(manifest)
    }

    pub fn validate_strict(&self) -> (result: VideoResult<()>)
        ensures
            refusal(result) == VideoProjectManifest::fault_of(self.deep_view()),
    {
        self.validate()
    }
}

proof fn lemma_empty_project(
    manifest: VideoProjectManifest,
    project_id: Seq<char>,
    name: Seq<char>,
    frame_rate: RationalFrameRate,
    timeline_duration_us: Microseconds,
    layout: LayoutPlanModel,
    audio_mix: AudioMixModel,
    created_at: Seq<char>,
)
    requires
        manifest.schema_version == VIDEO_MANIFEST_SCHEMA_VERSION,
        manifest.project_id@ == project_id,
        manifest.name@ == name,
        manifest.revision == 0,
        manifest.frame_rate == frame_rate,
        manifest.timeline_duration_us == timeline_duration_us,
        manifest.source_assets@.len() == 0,
        manifest.rights_confirmations@.len() == 0,
        manifest.transcript is None,
        manifest.candidates@.len() == 0,
        manifest.reviewed_scenes@.len() == 0,
        manifest.tracks@.len() == 0,
        manifest.gaps@.len() == 0,
        manifest.captions@.len() == 0,
        manifest.layout.deep_view() == layout,
        manifest.audio_mix.deep_view() == audio_mix,
        manifest.cast@.len() == 0,
        manifest.dialogue@.len() == 0,
        manifest.turn_beats@.len() == 0,
        manifest.lexicon@.len() == 0,
        manifest.music_cues@.len() == 0,
        manifest.sound_assets@.len() == 0,
        manifest.sound_layers@.len() == 0,
        manifest.visual_assets@.len() == 0,
        manifest.visual_layers@.len() == 0,
        manifest.length_target is None,
        manifest.format_origin is None,
        manifest.narration_bindings@.len() == 0,
        manifest.render_artifacts@.len() == 0,
        manifest.revision_history@.len() == 0,
        manifest.created_at@ == created_at,
        manifest.updated_at@ == created_at,
    ensures
        manifest.deep_view() == empty_project(
            project_id,
            name,
            frame_rate,
            timeline_duration_us,
            layout,
            audio_mix,
            created_at,
        ),
{
    let model = manifest.deep_view();
    assert(model.source_assets =~= Seq::empty());
    assert(model.rights_confirmations =~= Seq::empty());
    assert(model.candidates =~= Seq::empty());
    assert(model.reviewed_scenes =~= Seq::empty());
    assert(model.tracks =~= Seq::empty());
    assert(model.gaps =~= Seq::empty());
    assert(model.captions =~= Seq::empty());
    assert(model.cast =~= Seq::empty());
    assert(model.dialogue =~= Seq::empty());
    assert(model.turn_beats =~= Seq::empty());
    assert(model.lexicon =~= Seq::empty());
    assert(model.music_cues =~= Seq::empty());
    assert(model.sound_assets =~= Seq::empty());
    assert(model.sound_layers =~= Seq::empty());
    assert(model.visual_assets =~= Seq::empty());
    assert(model.visual_layers =~= Seq::empty());
    assert(model.narration_bindings =~= Seq::empty());
    assert(model.render_artifacts =~= Seq::empty());
    assert(model.revision_history =~= Seq::empty());
}

// ---------------------------------------------------------------------------------------------
// What holds of every project that the rules accept
// ---------------------------------------------------------------------------------------------
proof fn lemma_seams(spans: Seq<TimeRange>, from: int, index: int)
    requires
        0 <= from <= index,
        index + 1 < spans.len(),
        seam_fault_from(spans, from) is None,
    ensures
        spans[index].end() == spans[index + 1].start(),
    decreases index - from,
{
    if from < index {
        lemma_seams(spans, from + 1, index);
    }
}

/// Finds the last span that starts at or before an instant.
proof fn lemma_last_start(spans: Seq<TimeRange>, instant: int, count: int) -> (index: int)
    requires
        0 < count <= spans.len(),
        spans[0].start() <= instant,
    ensures
        0 <= index < count,
        spans[index].start() <= instant,
        index + 1 < count ==> spans[index + 1].start() > instant,
    decreases count,
{
    if count == 1 || spans[count - 1].start() <= instant {
        count - 1
    } else {
        lemma_last_start(spans, instant, count - 1)
    }
}

/// Spans that cover the timeline in order own each of its instants exactly once.
pub proof fn cover_owns_each_instant_once(spans: Seq<TimeRange>, duration: int, instant: int)
    requires
        is_ranked::<TimeRange>(spans),
        cover_fault(spans, duration) is None,
        0 <= instant < duration,
    ensures
        exists|i: int| 0 <= i < spans.len() && (#[trigger] spans[i]).owns(instant),
        forall|i: int, j: int|
            0 <= i < j < spans.len() ==> !((#[trigger] spans[i]).owns(instant) && (
            #[trigger] spans[j]).owns(instant)),
{
    let index = lemma_last_start(spans, instant, spans.len() as int);
    if index + 1 < spans.len() {
        lemma_seams(spans, 0, index);
    }
    assert(spans[index].owns(instant));
    assert forall|i: int, j: int| 0 <= i < j < spans.len() implies !((#[trigger] spans[i]).owns(instant) && (
    #[trigger] spans[j]).owns(instant)) by {
        lemma_seams(spans, 0, i);
        if i + 1 < j {
            assert(!TimeRange::before(spans[j], spans[i + 1]));
        }
    }
}

proof fn lemma_partition_accepted(m: VideoProjectManifestModel, from: int, track: int)
    requires
        0 <= from <= track < m.tracks.len(),
        partitions_fault_from(m, from) is None,
        m.tracks[track].preserve_gaps,
    ensures
        partition_fault(m.tracks[track], m.gaps, m.timeline_duration_us.0 as int) is None,
    decreases track - from,
{
    if from < track {
        lemma_partition_accepted(m, from + 1, track);
    }
}

/// On a track that preserves gaps, every instant of an accepted project's timeline belongs to
/// exactly one clip or explicit gap.
pub proof fn gap_preserving_tracks_cover_the_timeline(m: VideoProjectManifestModel, track: int, instant: int)
    requires
        VideoProjectManifest::fault_of(m) is None,
        0 <= track < m.tracks.len(),
        m.tracks[track].preserve_gaps,
        0 <= instant < m.timeline_duration_us.0,
    ensures
        ({
            let spans = occupied(m.tracks[track], m.gaps);
            &&& spans.to_multiset() =~= (clip_spans(m.tracks[track].clips) + gap_ranges_from(
                m.gaps,
                m.tracks[track].id,
                0,
            )).to_multiset()
            &&& exists|i: int| 0 <= i < spans.len() && (#[trigger] spans[i]).owns(instant)
            &&& forall|i: int, j: int|
                0 <= i < j < spans.len() ==> !((#[trigger] spans[i]).owns(instant) && (
                #[trigger] spans[j]).owns(instant))
        }),
{
    lemma_partition_accepted(m, 0, track);
    ranked_is_a_sorted_permutation::<TimeRange>(
        clip_spans(m.tracks[track].clips) + gap_ranges_from(m.gaps, m.tracks[track].id, 0),
    );
    cover_owns_each_instant_once(
        occupied(m.tracks[track], m.gaps),
        m.timeline_duration_us.0 as int,
        instant,
    );
}

proof fn lemma_track_accepted(m: VideoProjectManifestModel, from: int, track: int)
    requires
        0 <= from <= track < m.tracks.len(),
        tracks_fault_from(m, from) is None,
    ensures
        track_fault(m, track) is None,
    decreases track - from,
{
    if from < track {
        lemma_track_accepted(m, from + 1, track);
    }
}

proof fn lemma_clip_accepted(m: VideoProjectManifestModel, track: int, from: int, clip: int)
    requires
        0 <= from <= clip < m.tracks[track].clips.len(),
        clips_fault_from(m, track, from) is None,
    ensures
        placed_clip_fault(m, track, clip) is None,
    decreases clip - from,
{
    if from < clip {
        lemma_clip_accepted(m, track, from + 1, clip);
    }
}

/// Every clip of an accepted project obeys the rules on a clip and lies on the timeline, and no two
/// clips of a track share an instant or an identifier.
pub proof fn clips_of_a_track_stay_apart(m: VideoProjectManifestModel, track: int, clip: int)
    requires
        VideoProjectManifest::fault_of(m) is None,
        0 <= track < m.tracks.len(),
        0 <= clip < m.tracks[track].clips.len(),
    ensures
        TimelineClip::fault_of(m.tracks[track].clips[clip]) is None,
        m.tracks[track].clips[clip].span_refusal() is None,
        m.tracks[track].clips[clip].span().valid(),
        m.tracks[track].clips[clip].span().end() <= m.timeline_duration_us.0,
        pairwise_apart(clip_spans(m.tracks[track].clips)),
        forall|other: int|
            0 <= other < clip ==> (#[trigger] m.tracks[track].clips[other]).id != m.tracks[track].clips[clip].id,
{
    lemma_track_accepted(m, 0, track);
    lemma_clip_accepted(m, track, 0, clip);
}

/// In an accepted project no two items of a kind share an identifier.
pub proof fn identifiers_are_distinct(m: VideoProjectManifestModel)
    requires
        VideoProjectManifest::fault_of(m) is None,
    ensures
        distinct(names::<SourceAsset>(m.source_assets)),
        distinct(names::<RightsConfirmation>(m.rights_confirmations)),
        distinct(names::<ClipCandidate>(m.candidates)),
        distinct(names::<ReviewedScene>(m.reviewed_scenes)),
        distinct(names::<TimelineTrack>(m.tracks)),
        distinct(names::<TimelineGap>(m.gaps)),
        distinct(names::<CaptionCue>(m.captions)),
        distinct(names::<RenderArtifact>(m.render_artifacts)),
        distinct(names::<NarrationBinding>(m.narration_bindings)),
        distinct(names::<RevisionRecord>(m.revision_history)),
        distinct(names::<LayoutElement>(m.layout.elements)),
        distinct(names::<AudioMixTrack>(m.audio_mix.tracks)),
{
    unique_is_distinct(names::<SourceAsset>(m.source_assets), "source_assets"@);
    unique_is_distinct(names::<RightsConfirmation>(m.rights_confirmations), "rights_confirmations"@);
    unique_is_distinct(names::<ClipCandidate>(m.candidates), "candidates"@);
    unique_is_distinct(names::<ReviewedScene>(m.reviewed_scenes), "reviewed_scenes"@);
    unique_is_distinct(names::<TimelineTrack>(m.tracks), "tracks"@);
    unique_is_distinct(names::<TimelineGap>(m.gaps), "gaps"@);
    unique_is_distinct(names::<CaptionCue>(m.captions), "captions"@);
    unique_is_distinct(names::<RenderArtifact>(m.render_artifacts), "render_artifacts"@);
    unique_is_distinct(names::<NarrationBinding>(m.narration_bindings), "narration_bindings"@);
    unique_is_distinct(names::<RevisionRecord>(m.revision_history), "revision_history"@);
    unique_is_distinct(names::<LayoutElement>(m.layout.elements), "layout.elements"@);
    unique_is_distinct(names::<AudioMixTrack>(m.audio_mix.tracks), "audio_mix.tracks"@);
}

proof fn lemma_history(history: Seq<RevisionRecordModel>, from: int, index: int)
    requires
        0 <= from <= index < history.len(),
        history_fault_from(history, from) is None,
    ensures
        history[index].revision == index + 1,
        history[index].parent_id == parent_of(history, index),
    decreases index - from,
{
    if from < index {
        lemma_history(history, from + 1, index);
    }
}

/// The history of an accepted project counts its revisions without a break, and each record names
/// the one before it.
pub proof fn history_is_an_unbroken_chain(m: VideoProjectManifestModel, index: int)
    requires
        VideoProjectManifest::fault_of(m) is None,
        0 <= index < m.revision_history.len(),
    ensures
        m.revision == m.revision_history.len(),
        m.revision_history[index].revision == index + 1,
        m.revision_history[index].parent_id == parent_of(m.revision_history, index),
{
    lemma_history(m.revision_history, 0, index);
    lemma_history(m.revision_history, 0, m.revision_history.len() - 1);
}

/// Every clip of an accepted project plays media that is there and that its track can play, no more of it than there
/// is, at exactly its rate and on the timeline. What it plays of a render is published, and no clip shows a rejected
/// scene.
pub proof fn accepted_clips_play_what_their_media_holds(m: VideoProjectManifestModel, track: int, clip: int)
    requires
        VideoProjectManifest::fault_of(m) is None,
        0 <= track < m.tracks.len(),
        0 <= clip < m.tracks[track].clips.len(),
    ensures
        ({
            let own = m.tracks[track].clips[clip];
            let kind = m.tracks[track].kind;
            let source = find::<SourceAsset>(m.source_assets, own.media.source_asset_id->0);
            let artifact = find::<RenderArtifact>(m.render_artifacts, own.media.render_artifact_id->0);
            let scene = find::<ReviewedScene>(m.reviewed_scenes, own.scene_id->0);
            &&& own.media.source_asset_id is Some <==> own.media.render_artifact_id is None
            &&& own.media.source_asset_id is Some ==> {
                &&& source is Some
                &&& own.source_range.end_us.0 <= source->0.probe.duration_us.0
                &&& kind == TrackKind::Video ==> source->0.probe.has_video
                &&& kind == TrackKind::Audio ==> source->0.probe.has_audio
                &&& kind != TrackKind::Caption
            }
            &&& own.media.render_artifact_id is Some ==> {
                &&& artifact is Some
                &&& artifact->0.publication_state == PublicationState::Published
                &&& artifact->0.duration_us is Some
                &&& artifact->0.duration_us matches Some(length) ==> own.source_range.end_us.0 <= length.0
            }
            &&& 0 <= own.source_range.start_us.0 < own.source_range.end_us.0
            &&& 0 <= own.timeline_start_us.0
            &&& 0 < own.timeline_duration_us.0
            &&& own.timeline_start_us.0 + own.timeline_duration_us.0 <= m.timeline_duration_us.0
            &&& (own.source_range.end_us.0 - own.source_range.start_us.0) * own.playback_rate.denominator
                == own.timeline_duration_us.0 * own.playback_rate.numerator
            &&& own.scene_id is Some ==> scene is Some && scene->0.review_state != ReviewState::Rejected
        }),
{
    lemma_track_accepted(m, 0, track);
    lemma_clip_accepted(m, track, 0, clip);
}

/// The captions of an accepted project lie on its timeline, no two of them at once, each of a segment and a scene that
/// are there.
pub proof fn accepted_captions_stay_apart(m: VideoProjectManifestModel, index: int)
    requires
        VideoProjectManifest::fault_of(m) is None,
        0 <= index < m.captions.len(),
    ensures
        ({
            let caption = m.captions[index];
            &&& 0 <= caption.range.start_us.0 < caption.range.end_us.0 <= m.timeline_duration_us.0
            &&& caption.scene_id matches Some(id) ==> find::<ReviewedScene>(m.reviewed_scenes, id) is Some
            &&& caption.transcript_segment_id matches Some(id) ==> segment_ids(m).contains(id)
            &&& forall|other: int|
                0 <= other < m.captions.len() && other != index ==> (#[trigger] m.captions[other]).range.end_us.0
                    <= caption.range.start_us.0 || caption.range.end_us.0 <= m.captions[other].range.start_us.0
        }),
{
    lemma_caption_accepted(m, 0, index);
    assert forall|other: int|
        0 <= other < m.captions.len() && other != index implies (#[trigger] m.captions[other]).range.end_us.0
        <= m.captions[index].range.start_us.0 || m.captions[index].range.end_us.0
        <= m.captions[other].range.start_us.0 by {
        let ranges = caption_ranges(m.captions);
        if other < index {
            assert(apart(ranges[other], ranges[index]));
        } else {
            assert(apart(ranges[index], ranges[other]));
        }
    }
}

proof fn lemma_caption_accepted(m: VideoProjectManifestModel, from: int, index: int)
    requires
        0 <= from <= index < m.captions.len(),
        captions_fault_from(m, from) is None,
    ensures
        caption_fault(m, m.captions[index]) is None,
    decreases index - from,
{
    if from < index {
        lemma_caption_accepted(m, from + 1, index);
    }
}

/// The scenes of an accepted project lie on its timeline and play no more of a source than there is.
pub proof fn accepted_scenes_lie_on_the_timeline(m: VideoProjectManifestModel, index: int)
    requires
        VideoProjectManifest::fault_of(m) is None,
        0 <= index < m.reviewed_scenes.len(),
    ensures
        ({
            let scene = m.reviewed_scenes[index];
            let source = find::<SourceAsset>(m.source_assets, scene.source_asset_id->0);
            &&& scene.timeline_start_us.0 + scene.timeline_duration_us.0 <= m.timeline_duration_us.0
            &&& scene.source_asset_id is Some && scene.source_range is Some ==> source is Some && 0
                <= scene.source_range->0.start_us.0 < scene.source_range->0.end_us.0 <= source->0.probe.duration_us.0
            &&& scene.candidate_id matches Some(id) ==> find::<ClipCandidate>(m.candidates, id) is Some
        }),
{
    lemma_scene_accepted(m, 0, index);
}

proof fn lemma_scene_accepted(m: VideoProjectManifestModel, from: int, index: int)
    requires
        0 <= from <= index < m.reviewed_scenes.len(),
        scenes_fault_from(m, from) is None,
    ensures
        scene_fault(m, m.reviewed_scenes[index]) is None,
    decreases index - from,
{
    if from < index {
        lemma_scene_accepted(m, from + 1, index);
    }
}

/// The mix of an accepted project speaks of its audio tracks, and a track ducks against another audio track.
pub proof fn accepted_mixes_duck_against_another_track(m: VideoProjectManifestModel, index: int)
    requires
        VideoProjectManifest::fault_of(m) is None,
        0 <= index < m.audio_mix.tracks.len(),
    ensures
        ({
            let mix = m.audio_mix.tracks[index];
            let track = find::<TimelineTrack>(m.tracks, mix.track_id);
            let other = find::<TimelineTrack>(m.tracks, mix.ducking->0.sidechain_track_id);
            &&& track is Some && track->0.kind == TrackKind::Audio
            &&& mix.ducking is Some ==> other is Some && other->0.kind == TrackKind::Audio
                && mix.ducking->0.sidechain_track_id != mix.track_id
        }),
{
    lemma_mix_accepted(m, 0, index);
    let mix = m.audio_mix.tracks[index];
    if mix.ducking is Some {
        what_is_found_bears_the_name::<TimelineTrack>(m.tracks, mix.ducking->0.sidechain_track_id);
    }
}

proof fn lemma_mix_accepted(m: VideoProjectManifestModel, from: int, index: int)
    requires
        0 <= from <= index < m.audio_mix.tracks.len(),
        mix_tracks_fault_from(m, from) is None,
    ensures
        mix_track_fault(m, m.audio_mix.tracks[index]) is None,
    decreases index - from,
{
    if from < index {
        lemma_mix_accepted(m, from + 1, index);
    }
}

/// No accepted project has a published master while a line still stands in with a draft, and what was imported from a
/// link rests on a confirmation of the rights to that link.
pub proof fn accepted_masters_have_no_drafts(m: VideoProjectManifestModel, artifact: int, take: int, asset: int)
    requires
        VideoProjectManifest::fault_of(m) is None,
        0 <= artifact < m.render_artifacts.len(),
        0 <= take < m.narration_bindings.len(),
        0 <= asset < m.source_assets.len(),
    ensures
        !(m.render_artifacts[artifact].role == RenderArtifactRole::FinalMaster
            && m.render_artifacts[artifact].publication_state == PublicationState::Published
            && m.narration_bindings[take].fidelity == TakeFidelity::Draft),
        ({
            let source = m.source_assets[asset];
            let rights = find::<RightsConfirmation>(m.rights_confirmations, source.rights_confirmation_id->0);
            source.rights_confirmation_id is Some ==> rights is Some && (source.kind == SourceAssetKind::ImportedLink
                ==> source.provenance.original_uri == Some(rights->0.source_uri))
        }),
{
    lemma_source_accepted(m, 0, asset);
    if m.render_artifacts[artifact].role == RenderArtifactRole::FinalMaster
        && m.render_artifacts[artifact].publication_state == PublicationState::Published
        && m.narration_bindings[take].fidelity == TakeFidelity::Draft {
        assert(has_published_master(m));
        assert(has_draft_take(m));
    }
}

proof fn lemma_source_accepted(m: VideoProjectManifestModel, from: int, index: int)
    requires
        0 <= from <= index < m.source_assets.len(),
        sources_fault_from(m, from) is None,
    ensures
        source_fault(m, m.source_assets[index]) is None,
    decreases index - from,
{
    if from < index {
        lemma_source_accepted(m, from + 1, index);
    }
}

} // verus!
