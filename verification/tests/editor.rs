//! Edits of a timeline.

use sha2::{Digest, Sha256};
use soundar_video::edit_shared::deterministic_split_id;
use soundar_video::editor::{
    self, AppliedVideoTimelineEdit, EditingDefaults, VideoTimelineEditRequest, VideoTimelineOperation,
};
use soundar_video::error::{VideoErrorCode, VideoResult};
use soundar_video::lexicon::fingerprint_for_character;
use soundar_video::manifest::{
    AudioMix, AudioMixTrack, BeatSource, CandidateStatus, CanvasMode, CanvasSpec, CaptionCue, CastDelivery, CastMember,
    ClipCandidate, CueAnchor, CueRole, DialogueTurn, GapReason, LayoutElement, LayoutPlan, LayoutRole, LexiconEntry,
    LexiconMatch, LexiconScope, MediaProbe, MediaReference, MusicCue, NarrationBinding, NormalizedRect, Provenance,
    ProvenanceKind, PublicationState, RenderArtifact, RenderArtifactRole, ReviewState, ReviewedScene, RevisionStage,
    SoundAsset, SoundLayer, SoundPlacementKind, SourceAsset, SourceAssetKind, TakeFidelity, TimelineClip, TimelineGap,
    TimelineTrack, TrackKind, TranscriptSegment, TranscriptTimingSource, TranscriptVersion, TranscriptWord, TurnBeat,
    VideoProjectManifest, VisualAsset, VisualEasing, VisualFit, VisualLayer, VisualMimeType, VisualMotion,
};
use soundar_video::merge::merge_scenes;
use soundar_video::operations::VisualPlacement;
use soundar_video::ownership::validate_editable_scene_references;
use soundar_video::reorder::reorder_scene;
use soundar_video::score::BedDucking;
use soundar_video::split::split_scene;
use soundar_video::stages::{invalidated_stages_for_manifest_changes, PathStages};
use soundar_video::time::{Microseconds, RationalFrameRate, RationalRate, TimeRange};

const NOW: &str = "2026-08-28T12:00:00Z";
const SOURCE_ID: &str = "source-main";
const FIRST_SCENE_ID: &str = "scene-first";
const SECOND_SCENE_ID: &str = "scene-second";

const DEFAULT_BED_DUCK_DB_MILLI: i32 = -12_000;

/// The beats that a script implies: the first turn waits for nothing, the others for a breath.
fn derive_turn_beats(manifest: &VideoProjectManifest) -> Vec<TurnBeat> {
    manifest
        .dialogue
        .iter()
        .enumerate()
        .map(|(index, turn)| TurnBeat {
            turn_id: turn.id.clone(),
            lead_in_us: Microseconds(if index == 0 { 0 } else { 350_000 }),
            overlap_us: Microseconds(0),
            source: BeatSource::Derived,
        })
        .collect()
}

/// The stages that a change to each part of a project makes stale.
fn stage_table() -> Vec<PathStages> {
    let entry = |path: &str, stages: &[RevisionStage]| PathStages { path: path.into(), stages: stages.to_vec() };
    let renders = [
        RevisionStage::SceneRender,
        RevisionStage::Preview,
        RevisionStage::FinalRender,
        RevisionStage::PublishPackage,
    ];
    let spoken = [&[RevisionStage::Speech][..], &renders[..]].concat();
    let planned = [&[RevisionStage::Plan, RevisionStage::Captions][..], &renders[..]].concat();
    vec![
        entry("/cast", &spoken),
        entry("/dialogue", &spoken),
        entry("/lexicon", &spoken),
        entry("/narration_bindings", &spoken),
        entry("/turn_beats", &renders),
        entry("/tracks", &renders),
        entry("/reviewed_scenes", &planned),
        entry("/source_assets", &[RevisionStage::Ingest, RevisionStage::Transcript]),
    ]
}

fn apply_timeline_edit(
    manifest: &VideoProjectManifest,
    request: &VideoTimelineEditRequest,
) -> VideoResult<AppliedVideoTimelineEdit> {
    editor::apply_timeline_edit(
        manifest,
        request,
        &EditingDefaults {
            derived_beats: derive_turn_beats(manifest),
            bed: BedDucking {
                reduction_db_milli: DEFAULT_BED_DUCK_DB_MILLI,
                attack_us: Microseconds(20_000),
                release_us: Microseconds(300_000),
            },
            stages: stage_table(),
        },
    )
}

fn range(start: i64, end: i64) -> TimeRange {
    TimeRange::new(start, end).unwrap()
}

fn clip(
    id: &str,
    scene_id: &str,
    source_start_us: i64,
    source_end_us: i64,
    timeline_start_us: i64,
    timeline_end_us: i64,
) -> TimelineClip {
    TimelineClip {
        id: id.into(),
        scene_id: Some(scene_id.into()),
        turn_id: None,
        media: MediaReference {
            source_asset_id: Some(SOURCE_ID.into()),
            render_artifact_id: None,
        },
        source_range: range(source_start_us, source_end_us),
        timeline_start_us: Microseconds(timeline_start_us),
        timeline_duration_us: Microseconds(timeline_end_us - timeline_start_us),
        playback_rate: RationalRate::one(),
        gain_db_milli: 0,
        muted: false,
        crop: None,
    }
}

fn manifest() -> VideoProjectManifest {
    let mut manifest = VideoProjectManifest::new(
        "project-editor",
        "Editor fixture",
        RationalFrameRate::fps_30(),
        Microseconds(7_000_000),
        LayoutPlan {
            mode: CanvasMode::Portrait,
            canvas: CanvasSpec {
                width: 1080,
                height: 1920,
                pixel_aspect_numerator: 1,
                pixel_aspect_denominator: 1,
            },
            safe_area: NormalizedRect {
                x_bp: 0,
                y_bp: 0,
                width_bp: 10_000,
                height_bp: 10_000,
            },
            background_rgba: [0, 0, 0, 255],
            elements: Vec::new(),
        },
        AudioMix {
            target_lufs_milli: -16_000,
            true_peak_db_milli: -1_000,
            tracks: Vec::new(),
        },
        NOW,
    )
    .unwrap();
    manifest.source_assets.push(SourceAsset {
        id: SOURCE_ID.into(),
        kind: SourceAssetKind::LocalVideo,
        managed_path: "sources/main.mp4".into(),
        sha256: "a".repeat(64),
        probe: MediaProbe {
            duration_us: Microseconds(20_000_000),
            width: Some(1920),
            height: Some(1080),
            frame_rate: Some(RationalFrameRate::fps_30()),
            has_video: true,
            has_audio: true,
            format_name: "mov,mp4".into(),
        },
        provenance: Provenance {
            kind: ProvenanceKind::UserUpload,
            original_uri: None,
            imported_at: NOW.into(),
            producer: "editor-test".into(),
            producer_version: None,
            metadata: Vec::new(),
        },
        rights_confirmation_id: None,
    });
    let words = vec![
        ("word-one", 1_100_000, 1_500_000, "one"),
        ("word-two", 1_600_000, 2_200_000, "two"),
        ("word-three", 2_400_000, 3_100_000, "three"),
        ("word-four", 3_200_000, 3_800_000, "four"),
        ("word-five", 8_200_000, 9_100_000, "five"),
        ("word-six", 9_300_000, 10_400_000, "six"),
    ]
    .into_iter()
    .map(|(id, start, end, text)| TranscriptWord {
        id: id.into(),
        range: range(start, end),
        text: text.into(),
        speaker_id: None,
        confidence_milli: Some(950),
    })
    .collect::<Vec<_>>();
    manifest.transcript = Some(TranscriptVersion {
        id: "transcript-main".into(),
        source_asset_id: SOURCE_ID.into(),
        source_clock_duration_us: Microseconds(20_000_000),
        language: Some("en".into()),
        timing_source: TranscriptTimingSource::SoundArWhisper,
        preserved_source_gaps: true,
        segments: vec![
            TranscriptSegment {
                id: "segment-first".into(),
                range: range(1_000_000, 4_000_000),
                text: "one two three four".into(),
                speaker_id: None,
                word_ids: vec![
                    "word-one".into(),
                    "word-two".into(),
                    "word-three".into(),
                    "word-four".into(),
                ],
            },
            TranscriptSegment {
                id: "segment-second".into(),
                range: range(8_000_000, 11_000_000),
                text: "five six".into(),
                speaker_id: None,
                word_ids: vec!["word-five".into(), "word-six".into()],
            },
        ],
        words,
        content_sha256: "b".repeat(64),
        created_at: NOW.into(),
    });
    manifest.candidates = vec![
        ClipCandidate {
            id: "candidate-first".into(),
            source_asset_id: SOURCE_ID.into(),
            source_range: range(1_000_000, 4_000_000),
            title: "First".into(),
            rationale: "First source selection".into(),
            transcript_segment_ids: vec!["segment-first".into()],
            score_milli: 900,
            status: CandidateStatus::Accepted,
        },
        ClipCandidate {
            id: "candidate-second".into(),
            source_asset_id: SOURCE_ID.into(),
            source_range: range(8_000_000, 11_000_000),
            title: "Second".into(),
            rationale: "Second source selection".into(),
            transcript_segment_ids: vec!["segment-second".into()],
            score_milli: 850,
            status: CandidateStatus::Accepted,
        },
    ];
    manifest.reviewed_scenes = vec![
        ReviewedScene {
            id: FIRST_SCENE_ID.into(),
            candidate_id: Some("candidate-first".into()),
            source_asset_id: Some(SOURCE_ID.into()),
            source_range: Some(range(1_000_000, 4_000_000)),
            timeline_start_us: Microseconds::zero(),
            timeline_duration_us: Microseconds(3_000_000),
            title: "First".into(),
            script: "one two three four".into(),
            review_state: ReviewState::Approved,
            revision: 1,
        },
        ReviewedScene {
            id: SECOND_SCENE_ID.into(),
            candidate_id: Some("candidate-second".into()),
            source_asset_id: Some(SOURCE_ID.into()),
            source_range: Some(range(8_000_000, 11_000_000)),
            timeline_start_us: Microseconds(4_000_000),
            timeline_duration_us: Microseconds(3_000_000),
            title: "Second".into(),
            script: "five six".into(),
            review_state: ReviewState::Approved,
            revision: 1,
        },
    ];
    manifest.tracks = vec![
        TimelineTrack {
            id: "video-main".into(),
            kind: TrackKind::Video,
            clips: vec![
                clip(
                    "clip-video-first",
                    FIRST_SCENE_ID,
                    1_000_000,
                    4_000_000,
                    0,
                    3_000_000,
                ),
                clip(
                    "clip-video-second",
                    SECOND_SCENE_ID,
                    8_000_000,
                    11_000_000,
                    4_000_000,
                    7_000_000,
                ),
            ],
            preserve_gaps: true,
        },
        TimelineTrack {
            id: "audio-main".into(),
            kind: TrackKind::Audio,
            clips: vec![
                clip(
                    "clip-audio-first",
                    FIRST_SCENE_ID,
                    1_000_000,
                    4_000_000,
                    0,
                    3_000_000,
                ),
                clip(
                    "clip-audio-second",
                    SECOND_SCENE_ID,
                    8_000_000,
                    11_000_000,
                    4_000_000,
                    7_000_000,
                ),
            ],
            preserve_gaps: true,
        },
        TimelineTrack {
            id: "overlay-empty".into(),
            kind: TrackKind::Overlay,
            clips: Vec::new(),
            preserve_gaps: true,
        },
    ];
    manifest.gaps = vec![
        TimelineGap {
            id: "gap-video-transition".into(),
            track_id: "video-main".into(),
            range: range(3_000_000, 4_000_000),
            reason: GapReason::Transition,
            source_asset_id: None,
            source_range: None,
        },
        TimelineGap {
            id: "gap-audio-transition".into(),
            track_id: "audio-main".into(),
            range: range(3_000_000, 4_000_000),
            reason: GapReason::Editorial,
            source_asset_id: None,
            source_range: None,
        },
        TimelineGap {
            id: "gap-overlay-first".into(),
            track_id: "overlay-empty".into(),
            range: range(0, 3_000_000),
            reason: GapReason::Padding,
            source_asset_id: None,
            source_range: None,
        },
        TimelineGap {
            id: "gap-overlay-transition".into(),
            track_id: "overlay-empty".into(),
            range: range(3_000_000, 4_000_000),
            reason: GapReason::Transition,
            source_asset_id: None,
            source_range: None,
        },
        TimelineGap {
            id: "gap-overlay-second".into(),
            track_id: "overlay-empty".into(),
            range: range(4_000_000, 7_000_000),
            reason: GapReason::Padding,
            source_asset_id: None,
            source_range: None,
        },
    ];
    manifest.captions = vec![
        CaptionCue {
            id: "caption-first".into(),
            range: range(100_000, 2_900_000),
            text: "one two three four".into(),
            style_id: "caption-clean-white".into(),
            speaker_id: None,
            transcript_segment_id: Some("segment-first".into()),
            scene_id: Some(FIRST_SCENE_ID.into()),
        },
        CaptionCue {
            id: "caption-second".into(),
            range: range(4_100_000, 6_900_000),
            text: "five six".into(),
            style_id: "caption-clean-white".into(),
            speaker_id: None,
            transcript_segment_id: Some("segment-second".into()),
            scene_id: Some(SECOND_SCENE_ID.into()),
        },
    ];
    manifest.layout.elements.push(LayoutElement {
        id: "layout-first".into(),
        role: LayoutRole::PrimaryVideo,
        scene_id: Some(FIRST_SCENE_ID.into()),
        bounds: NormalizedRect {
            x_bp: 0,
            y_bp: 0,
            width_bp: 10_000,
            height_bp: 10_000,
        },
        z_index: 0,
        style_id: None,
    });
    manifest.audio_mix.tracks.push(AudioMixTrack {
        track_id: "audio-main".into(),
        gain_db_milli: 0,
        pan_milli: 0,
        ducking: None,
    });
    manifest.validate_strict().unwrap();
    manifest
}

fn add_visual_layer(manifest: &mut VideoProjectManifest, range: TimeRange, scene_id: &str) {
    manifest.visual_assets.push(VisualAsset {
        id: "visual-editor".into(),
        managed_path: "visuals/editor.png".into(),
        sha256: "e".repeat(64),
        mime_type: VisualMimeType::Png,
        width: 1600,
        height: 900,
        has_alpha: false,
        size_bytes: 1_024,
        provenance: Provenance {
            kind: ProvenanceKind::GeneratedLocally,
            original_uri: None,
            imported_at: NOW.into(),
            producer: "editor-image-test".into(),
            producer_version: Some("1".into()),
            metadata: Vec::new(),
        },
        created_at: NOW.into(),
    });
    manifest.visual_layers.push(VisualLayer {
        id: "visual-layer-editor".into(),
        asset_id: "visual-editor".into(),
        scene_id: Some(scene_id.into()),
        range,
        fit: VisualFit::Contain,
        crop: None,
        z_index: 2,
        motion: VisualMotion {
            start_bounds: NormalizedRect {
                x_bp: 1_000,
                y_bp: 2_000,
                width_bp: 8_000,
                height_bp: 4_500,
            },
            end_bounds: NormalizedRect {
                x_bp: 200,
                y_bp: 1_500,
                width_bp: 9_600,
                height_bp: 5_400,
            },
            start_opacity_milli: 1_000,
            end_opacity_milli: 1_000,
            start_rotation_milli_degrees: 0,
            end_rotation_milli_degrees: 0,
            easing: VisualEasing::EaseInOut,
        },
        transition_in_us: Microseconds(100_000),
        transition_out_us: Microseconds(100_000),
    });
}

/// Add a two-character exchange to the editor fixture so beat edits have real turns.
fn with_dialogue(manifest: &VideoProjectManifest) -> VideoProjectManifest {
    let mut manifest = manifest.clone();
    for (id, name, voice) in [
        ("narrator", "NARRATOR", "af-heart"),
        ("adaeze", "ADAEZE", "af-bella"),
    ] {
        manifest.cast.push(CastMember {
            id: id.into(),
            name: name.into(),
            display_name: name.into(),
            voice_id: voice.into(),
            model_id: "hexgrad/Kokoro-82M".into(),
            language: "en-US".into(),
            delivery: CastDelivery::default(),
            consent_reference_id: None,
            notes: None,
            created_at: NOW.into(),
        });
    }
    for (index, (id, character, text)) in [
        ("turn-a", "narrator", "He asked her name."),
        ("turn-b", "adaeze", "Adaeze."),
    ]
    .into_iter()
    .enumerate()
    {
        manifest.dialogue.push(DialogueTurn {
            id: id.into(),
            scene_id: None,
            order: index as u32,
            character_id: character.into(),
            text: text.into(),
            direction: None,
            source_line: index as u32 + 1,
            revision: 1,
        });
    }
    manifest.turn_beats =
        derive_turn_beats(&manifest);
    manifest.validate_strict().unwrap();
    manifest
}

#[test]
fn holding_a_beat_marks_it_explicit_and_clearing_it_restores_the_derived_one() {
    let manifest = with_dialogue(&manifest());
    let derived = manifest.turn_beats[1].lead_in_us;

    let held = apply_timeline_edit(
        &manifest,
        &request(vec![VideoTimelineOperation::SetTurnBeat {
            turn_id: "turn-b".into(),
            lead_in_us: Microseconds(2_000_000),
            overlap_us: Microseconds::zero(),
        }]),
    )
    .unwrap();
    let beat = held
        .manifest
        .turn_beats
        .iter()
        .find(|beat| beat.turn_id == "turn-b")
        .unwrap();
    assert_eq!(beat.lead_in_us, Microseconds(2_000_000));
    assert_eq!(beat.source, BeatSource::Explicit);
    assert!(held
        .receipt
        .invalidated_stages
        .contains(&RevisionStage::SceneRender));
    assert!(
        !held
            .receipt
            .invalidated_stages
            .contains(&RevisionStage::Speech),
        "retiming a pause must not re-read any line"
    );

    let cleared = apply_timeline_edit(
        &held.manifest,
        &request(vec![VideoTimelineOperation::ClearTurnBeat {
            turn_id: "turn-b".into(),
        }]),
    )
    .unwrap();
    let restored = cleared
        .manifest
        .turn_beats
        .iter()
        .find(|beat| beat.turn_id == "turn-b")
        .unwrap();
    assert_eq!(restored.lead_in_us, derived);
    assert_eq!(restored.source, BeatSource::Derived);
}

/// Give both turns a published take so a rule change has something to stale.
fn with_takes(manifest: &VideoProjectManifest) -> VideoProjectManifest {
    let mut manifest = manifest.clone();
    for (index, turn) in manifest.dialogue.clone().iter().enumerate() {
        let artifact_id = format!("take-{}", turn.id);
        manifest.render_artifacts.push(RenderArtifact {
            id: artifact_id.clone(),
            role: RenderArtifactRole::SceneSegment,
            scene_id: None,
            managed_path: format!("renders/{artifact_id}.wav"),
            sha256: format!("{index:064}"),
            cache_key: format!("{:064}", index + 100),
            mime_type: "audio/wav".into(),
            duration_us: Microseconds(1_500_000).into(),
            width: None,
            height: None,
            publication_state: PublicationState::Published,
            created_at: NOW.into(),
        });
        let member = manifest
            .cast
            .iter()
            .find(|member| member.id == turn.character_id)
            .unwrap()
            .clone();
        manifest.narration_bindings.push(NarrationBinding {
            id: format!("binding-{}", turn.id),
            scene_id: None,
            turn_id: Some(turn.id.clone()),
            character_id: Some(turn.character_id.clone()),
            lexicon_fingerprint: fingerprint_for_character(&manifest.lexicon, &member.id),
            fidelity: TakeFidelity::Final,
            render_artifact_id: artifact_id,
            history_id: format!("history-{}", turn.id),
            generation_job_id: format!("job-{}", turn.id),
            voice_id: member.voice_id.clone(),
            model_id: member.model_id.clone(),
            speaker: member.name.clone(),
            language: member.language.clone(),
            script_sha256: format!("{:x}", Sha256::digest(turn.text.as_bytes())),
            created_at: NOW.into(),
        });
    }
    manifest.validate_strict().unwrap();
    manifest
}

fn rule(
    id: &str,
    scope: LexiconScope,
    character: Option<&str>,
) -> LexiconEntry {
    LexiconEntry {
        id: id.into(),
        scope,
        character_id: character.map(str::to_string),
        match_text: "Adaeze".into(),
        replacement: "Ah-DAH-eh-zeh".into(),
        matching: LexiconMatch::Word,
        notes: None,
        created_at: NOW.into(),
    }
}

#[test]
fn a_character_rule_drops_only_that_characters_takes() {
    let manifest = with_takes(&with_dialogue(&manifest()));
    assert_eq!(manifest.narration_bindings.len(), 2);

    let edited = apply_timeline_edit(
        &manifest,
        &request(vec![VideoTimelineOperation::SetLexiconEntry {
            entry: rule("rule-adaeze", LexiconScope::Character, Some("adaeze")),
        }]),
    )
    .unwrap();

    let surviving = edited
        .manifest
        .narration_bindings
        .iter()
        .map(|binding| binding.turn_id.clone().unwrap())
        .collect::<Vec<_>>();
    assert_eq!(
        surviving,
        vec!["turn-a".to_string()],
        "only ADAEZE's line is re-read"
    );
    assert!(edited
        .receipt
        .invalidated_stages
        .contains(&RevisionStage::Speech));
}

#[test]
fn a_project_rule_drops_every_take_and_removing_it_drops_them_again() {
    let manifest = with_takes(&with_dialogue(&manifest()));
    let applied = apply_timeline_edit(
        &manifest,
        &request(vec![VideoTimelineOperation::SetLexiconEntry {
            entry: rule("rule-project", LexiconScope::Project, None),
        }]),
    )
    .unwrap();
    assert!(applied.manifest.narration_bindings.is_empty());

    // Re-record both takes under the new rules, then prove removing the rule stales them too.
    let mut rerecorded = applied.manifest.clone();
    rerecorded.narration_bindings = manifest
        .narration_bindings
        .iter()
        .map(|binding| {
            let mut binding = binding.clone();
            binding.lexicon_fingerprint =
                fingerprint_for_character(&rerecorded.lexicon, "narrator");
            binding
        })
        .collect();
    rerecorded.validate_strict().unwrap();

    let removed = apply_timeline_edit(
        &rerecorded,
        &request(vec![VideoTimelineOperation::RemoveLexiconEntry {
            entry_id: "rule-project".into(),
        }]),
    )
    .unwrap();
    assert!(removed.manifest.lexicon.is_empty());
    assert!(removed.manifest.narration_bindings.is_empty());
}

#[test]
fn removing_a_rule_that_does_not_exist_is_rejected() {
    let manifest = with_dialogue(&manifest());
    let error = apply_timeline_edit(
        &manifest,
        &request(vec![VideoTimelineOperation::RemoveLexiconEntry {
            entry_id: "rule-absent".into(),
        }]),
    )
    .unwrap_err();
    assert_eq!(error.code, VideoErrorCode::MissingReference);
}

#[test]
fn a_rule_that_no_line_uses_re_reads_nothing() {
    let manifest = with_takes(&with_dialogue(&manifest()));
    let mut unused = rule("rule-unused", LexiconScope::Project, None);
    unused.match_text = "Enugu".into();
    let added = apply_timeline_edit(
        &manifest,
        &request(vec![VideoTimelineOperation::SetLexiconEntry { entry: unused }]),
    )
    .unwrap();
    assert_eq!(added.manifest.lexicon.len(), 1);
    assert_eq!(added.manifest.narration_bindings, manifest.narration_bindings);

    let removed = apply_timeline_edit(
        &added.manifest,
        &request(vec![VideoTimelineOperation::RemoveLexiconEntry {
            entry_id: "rule-unused".into(),
        }]),
    )
    .unwrap();
    assert!(removed.manifest.lexicon.is_empty());
    assert_eq!(removed.manifest.narration_bindings, manifest.narration_bindings);
}

/// Place a narration take on its own audio track and add an empty music track beside it, so a
/// bed cue has something real to duck against and somewhere real to sit.
fn with_music_track(manifest: &VideoProjectManifest) -> VideoProjectManifest {
    let mut manifest = with_takes(manifest);
    let narration_artifact = manifest.narration_bindings[0].render_artifact_id.clone();
    manifest.tracks.push(TimelineTrack {
        id: "speech".into(),
        kind: TrackKind::Audio,
        preserve_gaps: false,
        clips: vec![TimelineClip {
            id: "speech-clip".into(),
            scene_id: None,
            turn_id: manifest.narration_bindings[0].turn_id.clone(),
            media: MediaReference {
                source_asset_id: None,
                render_artifact_id: Some(narration_artifact),
            },
            source_range: range(0, 1_500_000),
            timeline_start_us: Microseconds::zero(),
            timeline_duration_us: Microseconds(1_500_000),
            playback_rate: RationalRate {
                numerator: 1,
                denominator: 1,
            },
            gain_db_milli: 0,
            muted: false,
            crop: None,
        }],
    });
    manifest.tracks.push(TimelineTrack {
        id: "music".into(),
        kind: TrackKind::Audio,
        preserve_gaps: false,
        clips: Vec::new(),
    });
    manifest.validate_strict().unwrap();
    manifest
}

/// A registered soundAr music artifact for a cue to point at.
fn music_asset() -> SourceAsset {
    SourceAsset {
        id: "music-one".into(),
        kind: SourceAssetKind::SoundArMusic,
        managed_path: "sources/music-one.wav".into(),
        sha256: "c".repeat(64),
        probe: MediaProbe {
            duration_us: Microseconds(45_000_000),
            width: None,
            height: None,
            frame_rate: None,
            has_video: false,
            has_audio: true,
            format_name: "wav".into(),
        },
        provenance: Provenance {
            kind: ProvenanceKind::UserUpload,
            original_uri: None,
            imported_at: NOW.into(),
            producer: "editor-test".into(),
            producer_version: None,
            metadata: Vec::new(),
        },
        rights_confirmation_id: None,
    }
}

fn bed_cue(track_id: Option<&str>) -> MusicCue {
    MusicCue {
        id: "cue-bed".into(),
        role: CueRole::Bed,
        anchor: CueAnchor::Turn {
            turn_id: "turn-a".into(),
        },
        target_duration_us: Microseconds(30_000_000),
        direction: "warm, restrained, low strings".into(),
        source_asset_id: track_id.map(|_| "music-one".into()),
        track_id: track_id.map(str::to_string),
        gain_db_milli: -9_000,
        fade_in_us: Microseconds(500_000),
        fade_out_us: Microseconds(1_000_000),
        created_at: NOW.into(),
    }
}

#[test]
fn a_bed_placed_on_a_track_is_given_its_ducking_envelope() {
    let mut manifest = with_music_track(&with_dialogue(&manifest()));
    manifest.source_assets.push(music_asset());
    manifest.validate_strict().unwrap();

    let edited = apply_timeline_edit(
        &manifest,
        &request(vec![VideoTimelineOperation::SetMusicCue {
            cue: bed_cue(Some("music")),
        }]),
    )
    .unwrap();

    let mix = edited
        .manifest
        .audio_mix
        .tracks
        .iter()
        .find(|mix| mix.track_id == "music")
        .expect("the bed has a mix entry");
    let ducking = mix.ducking.as_ref().expect("a bed always ducks");
    assert_eq!(ducking.sidechain_track_id, "speech");
    assert_eq!(ducking.reduction_db_milli, DEFAULT_BED_DUCK_DB_MILLI);
    assert_eq!(mix.gain_db_milli, -9_000);

    // Removing the cue takes its mix entry with it, so no envelope is left pointing at music
    // the project no longer has.
    let removed = apply_timeline_edit(
        &edited.manifest,
        &request(vec![VideoTimelineOperation::RemoveMusicCue {
            cue_id: "cue-bed".into(),
        }]),
    )
    .unwrap();
    assert!(removed.manifest.music_cues.is_empty());
    assert!(!removed
        .manifest
        .audio_mix
        .tracks
        .iter()
        .any(|mix| mix.track_id == "music"));
}

#[test]
fn a_bed_cannot_be_placed_without_narration_to_duck_against() {
    let mut manifest = with_dialogue(&manifest());
    manifest.source_assets.push(music_asset());
    manifest.tracks.push(TimelineTrack {
        id: "music".into(),
        kind: TrackKind::Audio,
        preserve_gaps: false,
        clips: Vec::new(),
    });
    manifest.validate_strict().unwrap();

    let error = apply_timeline_edit(
        &manifest,
        &request(vec![VideoTimelineOperation::SetMusicCue {
            cue: bed_cue(Some("music")),
        }]),
    )
    .unwrap_err();
    assert_eq!(error.code, VideoErrorCode::InvalidCue);
}

#[test]
fn placing_a_cue_fits_it_anchors_it_and_gives_a_bed_its_envelope() {
    let mut manifest = with_music_track(&with_dialogue(&manifest()));
    manifest.source_assets.push(music_asset());
    // A bed anchored to the first narrated turn, shorter than the 45s generated piece.
    let mut cue = bed_cue(None);
    cue.anchor = CueAnchor::Turn {
        turn_id: "turn-a".into(),
    };
    cue.target_duration_us = Microseconds(1_000_000);
    cue.fade_in_us = Microseconds(200_000);
    cue.fade_out_us = Microseconds(200_000);
    manifest.music_cues.push(cue);
    manifest.validate_strict().unwrap();

    let placed = apply_timeline_edit(
        &manifest,
        &request(vec![VideoTimelineOperation::PlaceMusicCue {
            cue_id: "cue-bed".into(),
            source_asset_id: "music-one".into(),
        }]),
    )
    .unwrap();

    let cue = &placed.manifest.music_cues[0];
    assert_eq!(cue.source_asset_id.as_deref(), Some("music-one"));
    assert_eq!(cue.track_id.as_deref(), Some("music-cue-bed"));
    assert!(!cue.needs_generation());

    let track = placed
        .manifest
        .tracks
        .iter()
        .find(|track| track.id == "music-cue-bed")
        .expect("the cue has a timeline track");
    assert!(matches!(track.kind, TrackKind::Audio));
    // The generated piece is trimmed to the cue's target and starts at its anchored turn.
    assert_eq!(track.clips[0].timeline_duration_us, Microseconds(1_000_000));
    assert_eq!(track.clips[0].timeline_start_us, Microseconds::zero());

    let ducking = placed
        .manifest
        .audio_mix
        .tracks
        .iter()
        .find(|mix| mix.track_id == "music-cue-bed")
        .and_then(|mix| mix.ducking.clone())
        .expect("a placed bed always ducks");
    assert_eq!(ducking.sidechain_track_id, "speech");

    // Placing the same cue twice would put its music on the timeline a second time.
    let error = apply_timeline_edit(
        &placed.manifest,
        &request(vec![VideoTimelineOperation::PlaceMusicCue {
            cue_id: "cue-bed".into(),
            source_asset_id: "music-one".into(),
        }]),
    )
    .unwrap_err();
    assert_eq!(error.code, VideoErrorCode::InvalidCue);
}

#[test]
fn a_cue_whose_music_is_too_short_is_reported_rather_than_placed() {
    let mut manifest = with_music_track(&with_dialogue(&manifest()));
    manifest.source_assets.push(music_asset());
    let mut cue = bed_cue(None);
    cue.anchor = CueAnchor::Turn {
        turn_id: "turn-a".into(),
    };
    // The registered music is 45 seconds; this cue asks for two minutes.
    cue.target_duration_us = Microseconds(120_000_000);
    manifest.music_cues.push(cue);
    manifest.validate_strict().unwrap();

    let error = apply_timeline_edit(
        &manifest,
        &request(vec![VideoTimelineOperation::PlaceMusicCue {
            cue_id: "cue-bed".into(),
            source_asset_id: "music-one".into(),
        }]),
    )
    .unwrap_err();
    assert_eq!(error.code, VideoErrorCode::CueFitFailed);
}

#[test]
fn a_cue_can_only_be_placed_from_registered_music() {
    let mut manifest = with_music_track(&with_dialogue(&manifest()));
    let mut cue = bed_cue(None);
    cue.anchor = CueAnchor::Turn {
        turn_id: "turn-a".into(),
    };
    cue.target_duration_us = Microseconds(1_000_000);
    cue.fade_in_us = Microseconds(200_000);
    cue.fade_out_us = Microseconds(200_000);
    manifest.music_cues.push(cue);

    // The project's only other source is video, not soundAr music.
    let error = apply_timeline_edit(
        &manifest,
        &request(vec![VideoTimelineOperation::PlaceMusicCue {
            cue_id: "cue-bed".into(),
            source_asset_id: SOURCE_ID.into(),
        }]),
    )
    .unwrap_err();
    assert_eq!(error.code, VideoErrorCode::InvalidCue);
}

#[test]
fn an_outro_cannot_be_placed_before_there_is_narration_to_follow() {
    let mut manifest = with_dialogue(&manifest());
    manifest.source_assets.push(music_asset());
    let mut outro = bed_cue(None);
    outro.id = "cue-outro".into();
    outro.role = CueRole::Outro;
    outro.anchor = CueAnchor::AfterFinalTurn;
    outro.target_duration_us = Microseconds(1_000_000);
    outro.fade_in_us = Microseconds(200_000);
    outro.fade_out_us = Microseconds(200_000);
    manifest.music_cues.push(outro);
    manifest.validate_strict().unwrap();

    let error = apply_timeline_edit(
        &manifest,
        &request(vec![VideoTimelineOperation::PlaceMusicCue {
            cue_id: "cue-outro".into(),
            source_asset_id: "music-one".into(),
        }]),
    )
    .unwrap_err();
    assert_eq!(error.code, VideoErrorCode::MissingReference);
}

#[test]
fn a_planned_cue_needs_no_track_and_no_mix_entry() {
    let manifest = with_dialogue(&manifest());
    let edited = apply_timeline_edit(
        &manifest,
        &request(vec![VideoTimelineOperation::SetMusicCue {
            cue: bed_cue(None),
        }]),
    )
    .unwrap();
    assert_eq!(edited.manifest.music_cues.len(), 1);
    assert!(edited.manifest.music_cues[0].needs_generation());
    // Nothing is placed in the mix until there is music to place.
    assert_eq!(edited.manifest.audio_mix.tracks, manifest.audio_mix.tracks);
}

#[test]
fn removing_a_cue_that_does_not_exist_is_rejected() {
    let manifest = with_dialogue(&manifest());
    let error = apply_timeline_edit(
        &manifest,
        &request(vec![VideoTimelineOperation::RemoveMusicCue {
            cue_id: "cue-absent".into(),
        }]),
    )
    .unwrap_err();
    assert_eq!(error.code, VideoErrorCode::MissingReference);
}

fn sound_asset() -> SoundAsset {
    SoundAsset {
        id: "sound-tone".into(),
        name: "Quiet room".into(),
        source_asset_id: "music-one".into(),
        tags: vec!["room tone".into()],
        created_at: NOW.into(),
    }
}

fn room_tone_layer(scene_id: &str, start: i64, end: i64) -> SoundLayer {
    SoundLayer {
        id: "tone-one".into(),
        asset_id: "sound-tone".into(),
        kind: SoundPlacementKind::RoomTone,
        scene_id: Some(scene_id.into()),
        turn_id: None,
        range: range(start, end),
        gain_db_milli: -26_000,
        fade_in_us: Microseconds(250_000),
        fade_out_us: Microseconds(250_000),
        loop_to_fill: true,
        duck_under_speech: false,
    }
}

#[test]
fn room_tone_runs_under_a_whole_scene_and_can_be_removed() {
    let mut manifest = manifest();
    manifest.source_assets.push(music_asset());
    manifest.sound_assets.push(sound_asset());
    manifest.validate_strict().unwrap();
    let scene = manifest.reviewed_scenes[0].clone();
    let scene_end = scene.timeline_start_us.0 + scene.timeline_duration_us.0;

    let placed = apply_timeline_edit(
        &manifest,
        &request(vec![VideoTimelineOperation::SetSoundLayer {
            layer: room_tone_layer(&scene.id, scene.timeline_start_us.0, scene_end),
        }]),
    )
    .unwrap();
    assert_eq!(placed.manifest.sound_layers.len(), 1);

    let removed = apply_timeline_edit(
        &placed.manifest,
        &request(vec![VideoTimelineOperation::RemoveSoundLayer {
            layer_id: "tone-one".into(),
        }]),
    )
    .unwrap();
    assert!(removed.manifest.sound_layers.is_empty());
}

#[test]
fn registering_a_sound_labels_imported_media_and_removing_it_takes_its_placements() {
    let mut manifest = manifest();
    manifest.source_assets.push(music_asset());
    manifest.validate_strict().unwrap();
    let scene = manifest.reviewed_scenes[0].clone();
    let scene_end = scene.timeline_start_us.0 + scene.timeline_duration_us.0;

    let registered = apply_timeline_edit(
        &manifest,
        &request(vec![
            VideoTimelineOperation::RegisterSoundAsset {
                asset_id: "sound-tone".into(),
                source_asset_id: "music-one".into(),
                name: "Quiet room".into(),
                tags: vec!["room tone".into()],
            },
            VideoTimelineOperation::SetSoundLayer {
                layer: room_tone_layer(&scene.id, scene.timeline_start_us.0, scene_end),
            },
        ]),
    )
    .unwrap();
    assert_eq!(registered.manifest.sound_assets.len(), 1);
    assert_eq!(registered.manifest.sound_layers.len(), 1);

    // Removing the sound removes its uses rather than leaving a placement with no audio.
    let removed = apply_timeline_edit(
        &registered.manifest,
        &request(vec![VideoTimelineOperation::RemoveSoundAsset {
            asset_id: "sound-tone".into(),
        }]),
    )
    .unwrap();
    assert!(removed.manifest.sound_assets.is_empty());
    assert!(removed.manifest.sound_layers.is_empty());
}

#[test]
fn sound_design_can_only_label_media_the_project_already_imported() {
    let manifest = manifest();
    let error = apply_timeline_edit(
        &manifest,
        &request(vec![VideoTimelineOperation::RegisterSoundAsset {
            asset_id: "sound-tone".into(),
            source_asset_id: "source-absent".into(),
            name: "Quiet room".into(),
            tags: vec![],
        }]),
    )
    .unwrap_err();
    assert_eq!(error.code, VideoErrorCode::MissingReference);

    // Media with no audio track cannot become sound design, however it was imported.
    let mut silent = manifest.clone();
    let mut silent_source = music_asset();
    silent_source.id = "silent-clip".into();
    // A silent video: it has picture and no audio, so it can never be sound design.
    silent_source.probe.has_audio = false;
    silent_source.probe.has_video = true;
    silent_source.probe.width = Some(1920);
    silent_source.probe.height = Some(1080);
    silent_source.probe.frame_rate = Some(RationalFrameRate::fps_30());
    silent.source_assets.push(silent_source);
    silent.validate_strict().unwrap();
    let error = apply_timeline_edit(
        &silent,
        &request(vec![VideoTimelineOperation::RegisterSoundAsset {
            asset_id: "sound-tone".into(),
            source_asset_id: "silent-clip".into(),
            name: "Quiet room".into(),
            tags: vec![],
        }]),
    )
    .unwrap_err();
    assert_eq!(error.code, VideoErrorCode::InvalidAsset);
}

#[test]
fn one_managed_source_is_registered_as_one_sound() {
    let mut manifest = manifest();
    manifest.source_assets.push(music_asset());
    let first = apply_timeline_edit(
        &manifest,
        &request(vec![VideoTimelineOperation::RegisterSoundAsset {
            asset_id: "sound-tone".into(),
            source_asset_id: "music-one".into(),
            name: "Quiet room".into(),
            tags: vec![],
        }]),
    )
    .unwrap();
    let error = apply_timeline_edit(
        &first.manifest,
        &request(vec![VideoTimelineOperation::RegisterSoundAsset {
            asset_id: "sound-other".into(),
            source_asset_id: "music-one".into(),
            name: "Same audio, different label".into(),
            tags: vec![],
        }]),
    )
    .unwrap_err();
    assert_eq!(error.code, VideoErrorCode::DuplicateId);
}

#[test]
fn a_placement_cannot_invent_a_sound_the_project_does_not_have() {
    let manifest = manifest();
    let scene = manifest.reviewed_scenes[0].clone();
    let scene_end = scene.timeline_start_us.0 + scene.timeline_duration_us.0;
    let error = apply_timeline_edit(
        &manifest,
        &request(vec![VideoTimelineOperation::SetSoundLayer {
            layer: room_tone_layer(&scene.id, scene.timeline_start_us.0, scene_end),
        }]),
    )
    .unwrap_err();
    assert_eq!(error.code, VideoErrorCode::MissingReference);
}

#[test]
fn room_tone_that_stops_early_is_rejected_by_the_manifest() {
    let mut manifest = manifest();
    manifest.source_assets.push(music_asset());
    manifest.sound_assets.push(sound_asset());
    let scene = manifest.reviewed_scenes[0].clone();
    let short_end = scene.timeline_start_us.0 + scene.timeline_duration_us.0 / 2;
    let error = apply_timeline_edit(
        &manifest,
        &request(vec![VideoTimelineOperation::SetSoundLayer {
            layer: room_tone_layer(&scene.id, scene.timeline_start_us.0, short_end),
        }]),
    )
    .unwrap_err();
    assert_eq!(error.code, VideoErrorCode::InvalidSoundPlacement);
}

#[test]
fn removing_a_placement_that_does_not_exist_is_rejected() {
    let manifest = manifest();
    let error = apply_timeline_edit(
        &manifest,
        &request(vec![VideoTimelineOperation::RemoveSoundLayer {
            layer_id: "tone-absent".into(),
        }]),
    )
    .unwrap_err();
    assert_eq!(error.code, VideoErrorCode::MissingReference);
}

#[test]
fn promoting_a_draft_line_re_reads_only_that_line() {
    let mut manifest = with_takes(&with_dialogue(&manifest()));
    // Hear the whole episode with stand-ins first.
    for binding in &mut manifest.narration_bindings {
        binding.fidelity = TakeFidelity::Draft;
    }
    manifest.validate_strict().unwrap();
    assert_eq!(manifest.draft_turn_ids().len(), 2);

    let promoted = apply_timeline_edit(
        &manifest,
        &request(vec![VideoTimelineOperation::PromoteTurnsToFinal {
            turn_ids: vec!["turn-b".into()],
        }]),
    )
    .unwrap();

    // Only the promoted line loses its take, so only it is re-read.
    let surviving = promoted
        .manifest
        .narration_bindings
        .iter()
        .map(|binding| binding.turn_id.clone().unwrap())
        .collect::<Vec<_>>();
    assert_eq!(surviving, vec!["turn-a".to_string()]);
    assert!(promoted
        .receipt
        .invalidated_stages
        .contains(&RevisionStage::Speech));
}

#[test]
fn a_line_that_is_already_final_cannot_be_promoted() {
    let manifest = with_takes(&with_dialogue(&manifest()));
    let error = apply_timeline_edit(
        &manifest,
        &request(vec![VideoTimelineOperation::PromoteTurnsToFinal {
            turn_ids: vec!["turn-a".into()],
        }]),
    )
    .unwrap_err();
    assert_eq!(error.code, VideoErrorCode::InvalidPerformance);
}

#[test]
fn a_master_cannot_be_published_while_a_line_is_still_a_stand_in() {
    let mut manifest = with_takes(&with_dialogue(&manifest()));
    manifest.render_artifacts.push(RenderArtifact {
        id: "master".into(),
        role: RenderArtifactRole::FinalMaster,
        scene_id: None,
        managed_path: "renders/master.mp4".into(),
        sha256: "9".repeat(64),
        cache_key: "8".repeat(64),
        mime_type: "video/mp4".into(),
        duration_us: Some(Microseconds(3_000_000)),
        width: Some(1080),
        height: Some(1920),
        publication_state: PublicationState::Published,
        created_at: NOW.into(),
    });
    manifest.validate_strict().unwrap();

    manifest.narration_bindings[0].fidelity = TakeFidelity::Draft;
    let error = manifest.validate_strict().unwrap_err();
    assert_eq!(error.code, VideoErrorCode::DraftNotPromoted);
}

#[test]
fn a_beat_edit_must_name_a_turn_that_exists() {
    let manifest = with_dialogue(&manifest());
    let error = apply_timeline_edit(
        &manifest,
        &request(vec![VideoTimelineOperation::SetTurnBeat {
            turn_id: "turn-absent".into(),
            lead_in_us: Microseconds(500_000),
            overlap_us: Microseconds::zero(),
        }]),
    )
    .unwrap_err();
    assert_eq!(error.code, VideoErrorCode::MissingReference);
}

#[test]
fn clearing_a_beat_that_is_already_derived_is_rejected_as_no_change() {
    let manifest = with_dialogue(&manifest());
    let error = apply_timeline_edit(
        &manifest,
        &request(vec![VideoTimelineOperation::ClearTurnBeat {
            turn_id: "turn-b".into(),
        }]),
    )
    .unwrap_err();
    assert_eq!(error.code, VideoErrorCode::InvalidPerformance);
}

#[test]
fn a_beat_cannot_both_hold_and_overlap() {
    let manifest = with_dialogue(&manifest());
    let error = apply_timeline_edit(
        &manifest,
        &request(vec![VideoTimelineOperation::SetTurnBeat {
            turn_id: "turn-b".into(),
            lead_in_us: Microseconds(500_000),
            overlap_us: Microseconds(500_000),
        }]),
    )
    .unwrap_err();
    assert_eq!(error.code, VideoErrorCode::InvalidPerformance);
}

fn request(operations: Vec<VideoTimelineOperation>) -> VideoTimelineEditRequest {
    VideoTimelineEditRequest {
        project_id: "project-editor".into(),
        expected_revision: 0,
        base_version_id: "store-version-1".into(),
        operation_id: "timeline-operation-1".into(),
        operations,
    }
}

fn add_narration_dependency(manifest: &mut VideoProjectManifest, scene_id: &str, suffix: &str) {
    let artifact_id = format!("artifact-narration-{suffix}");
    manifest.render_artifacts.push(RenderArtifact {
        id: artifact_id.clone(),
        role: RenderArtifactRole::SceneSegment,
        scene_id: None,
        managed_path: format!("renders/narration-{suffix}.wav"),
        sha256: "e".repeat(64),
        cache_key: "f".repeat(64),
        mime_type: "audio/wav".into(),
        duration_us: Some(Microseconds(3_000_000)),
        width: None,
        height: None,
        publication_state: PublicationState::Published,
        created_at: NOW.into(),
    });
    let script = manifest
        .reviewed_scenes
        .iter()
        .find(|scene| scene.id == scene_id)
        .unwrap()
        .script
        .clone();
    manifest.narration_bindings.push(NarrationBinding {
        id: format!("narration-{suffix}"),
        scene_id: Some(scene_id.into()),
        turn_id: None,
        character_id: None,
        lexicon_fingerprint: None,
        fidelity: TakeFidelity::Final,
        render_artifact_id: artifact_id,
        history_id: format!("history-{suffix}"),
        generation_job_id: format!("job-{suffix}"),
        voice_id: format!("voice-{suffix}"),
        model_id: "model-test".into(),
        speaker: "speaker".into(),
        language: "en".into(),
        script_sha256: format!("{:x}", Sha256::digest(script.as_bytes())),
        created_at: NOW.into(),
    });
    manifest.validate_strict().unwrap();
}

fn split_operation(at_timeline_us: i64) -> VideoTimelineOperation {
    VideoTimelineOperation::SplitScene {
        scene_id: FIRST_SCENE_ID.into(),
        at_timeline_us: Microseconds(at_timeline_us),
    }
}

#[test]
fn split_uses_exact_source_clock_and_partitions_tracks_gaps_captions_and_layout() {
    let original = manifest();
    let applied =
        apply_timeline_edit(&original, &request(vec![split_operation(1_500_000)])).unwrap();
    let right_id = deterministic_split_id("scene", FIRST_SCENE_ID, Microseconds(1_500_000));
    assert_eq!(applied.manifest.reviewed_scenes.len(), 3);
    assert_eq!(
        applied.manifest.reviewed_scenes[0].source_range,
        Some(range(1_000_000, 2_500_000))
    );
    assert_eq!(applied.manifest.reviewed_scenes[1].id, right_id);
    assert_eq!(
        applied.manifest.reviewed_scenes[1].source_range,
        Some(range(2_500_000, 4_000_000))
    );
    let first_video = &applied.manifest.tracks[0].clips[0];
    let right_video = &applied.manifest.tracks[0].clips[1];
    assert_eq!(first_video.source_range, range(1_000_000, 2_500_000));
    assert_eq!(right_video.source_range, range(2_500_000, 4_000_000));
    assert_eq!(right_video.scene_id.as_deref(), Some(right_id.as_str()));
    let split_overlay = applied
        .manifest
        .gaps
        .iter()
        .filter(|gap| gap.track_id == "overlay-empty" && gap.range.end_us.0 <= 3_000_000)
        .collect::<Vec<_>>();
    assert_eq!(split_overlay.len(), 2);
    assert_eq!(split_overlay[0].range, range(0, 1_500_000));
    assert_eq!(split_overlay[1].range, range(1_500_000, 3_000_000));
    let first_caption = &applied.manifest.captions[0];
    let right_caption = &applied.manifest.captions[1];
    assert_eq!(first_caption.range, range(100_000, 1_500_000));
    assert_eq!(right_caption.range, range(1_500_000, 2_900_000));
    assert_eq!(first_caption.text, "one two ");
    assert_eq!(right_caption.text, "three four");
    assert_eq!(
        format!("{}{}", first_caption.text, right_caption.text),
        "one two three four"
    );
    assert_eq!(right_caption.scene_id.as_deref(), Some(right_id.as_str()));
    assert!(applied
        .manifest
        .layout
        .elements
        .iter()
        .any(|element| element.scene_id.as_deref() == Some(right_id.as_str())));
    assert_eq!(applied.manifest.revision, original.revision);
    assert_eq!(applied.manifest.revision_history, original.revision_history);
    assert_eq!(applied.manifest.updated_at, original.updated_at);
    assert_eq!(
        applied.receipt.changed_paths,
        vec![
            "/captions",
            "/gaps",
            "/layout/elements",
            "/reviewed_scenes",
            "/tracks",
        ]
    );
    assert!(applied
        .receipt
        .invalidated_stages
        .contains(&RevisionStage::Plan));
    assert!(applied
        .receipt
        .invalidated_stages
        .contains(&RevisionStage::PublishPackage));
    applied.manifest.validate_strict().unwrap();
}

#[test]
fn split_enforces_minimums_and_rejects_inexact_rational_boundaries() {
    let original = manifest();
    let error =
        apply_timeline_edit(&original, &request(vec![split_operation(99_999)])).unwrap_err();
    assert_eq!(error.code, VideoErrorCode::InvalidScene);
    apply_timeline_edit(&original, &request(vec![split_operation(100_000)])).unwrap();

    let mut rational = manifest();
    rational.reviewed_scenes[0].source_range = Some(range(1_000_000, 5_500_000));
    rational.candidates[0].source_range = range(1_000_000, 5_500_000);
    for clip in rational
        .tracks
        .iter_mut()
        .flat_map(|track| &mut track.clips)
        .filter(|clip| clip.scene_id.as_deref() == Some(FIRST_SCENE_ID))
    {
        clip.source_range = range(1_000_000, 5_500_000);
        clip.playback_rate = RationalRate {
            numerator: 3,
            denominator: 2,
        };
    }
    rational.validate_strict().unwrap();
    let error =
        apply_timeline_edit(&rational, &request(vec![split_operation(1_500_001)])).unwrap_err();
    assert_eq!(error.code, VideoErrorCode::DurationMismatch);
}

#[test]
fn trim_clamps_source_derived_caption_text_and_preserves_inter_scene_gaps() {
    let original = manifest();
    let applied = apply_timeline_edit(
        &original,
        &request(vec![VideoTimelineOperation::TrimScene {
            scene_id: FIRST_SCENE_ID.into(),
            source_start_us: Microseconds(1_500_000),
            source_end_us: Microseconds(3_500_000),
        }]),
    )
    .unwrap();
    assert_eq!(
        applied.manifest.timeline_duration_us,
        Microseconds(6_000_000)
    );
    assert_eq!(
        applied.manifest.reviewed_scenes[0].source_range,
        Some(range(1_500_000, 3_500_000))
    );
    assert_eq!(
        applied.manifest.reviewed_scenes[1].timeline_start_us,
        Microseconds(3_000_000)
    );
    assert_eq!(
        applied.manifest.tracks[0].clips[0].source_range,
        range(1_500_000, 3_500_000)
    );
    assert!(
        applied
            .manifest
            .gaps
            .iter()
            .filter(|gap| gap.range == range(2_000_000, 3_000_000))
            .count()
            >= 3
    );
    assert_eq!(applied.manifest.captions[0].range, range(0, 2_000_000));
    assert_eq!(applied.manifest.captions[0].text, "two three four");
    assert!(applied
        .receipt
        .changed_paths
        .contains(&"/timeline_duration_us".to_string()));
    applied.manifest.validate_strict().unwrap();
}

#[test]
fn trim_drops_empty_caption_intersections_and_rejects_subminimum_ranges() {
    let original = manifest();
    let applied = apply_timeline_edit(
        &original,
        &request(vec![VideoTimelineOperation::TrimScene {
            scene_id: FIRST_SCENE_ID.into(),
            source_start_us: Microseconds(2_800_000),
            source_end_us: Microseconds(3_000_000),
        }]),
    )
    .unwrap();
    assert!(applied
        .manifest
        .captions
        .iter()
        .all(|caption| caption.scene_id.as_deref() != Some(FIRST_SCENE_ID)));
    let error = apply_timeline_edit(
        &original,
        &request(vec![VideoTimelineOperation::TrimScene {
            scene_id: FIRST_SCENE_ID.into(),
            source_start_us: Microseconds(2_800_000),
            source_end_us: Microseconds(2_899_999),
        }]),
    )
    .unwrap_err();
    assert_eq!(error.code, VideoErrorCode::InvalidScene);
}

#[test]
fn reorder_moves_scene_local_media_while_preserving_gap_slots_and_source_ranges() {
    let original = manifest();
    let applied = apply_timeline_edit(
        &original,
        &request(vec![VideoTimelineOperation::ReorderScene {
            scene_id: FIRST_SCENE_ID.into(),
            to_index: 1,
        }]),
    )
    .unwrap();
    assert_eq!(applied.manifest.reviewed_scenes[0].id, SECOND_SCENE_ID);
    assert_eq!(
        applied.manifest.reviewed_scenes[0].source_range,
        original.reviewed_scenes[1].source_range
    );
    assert_eq!(
        applied.manifest.reviewed_scenes[1].timeline_start_us,
        Microseconds(4_000_000)
    );
    assert!(
        applied
            .manifest
            .gaps
            .iter()
            .filter(|gap| gap.range == range(3_000_000, 4_000_000))
            .count()
            >= 3
    );
    let second_clip = applied.manifest.tracks[0]
        .clips
        .iter()
        .find(|clip| clip.scene_id.as_deref() == Some(SECOND_SCENE_ID))
        .unwrap();
    assert_eq!(second_clip.timeline_start_us, Microseconds::zero());
    assert_eq!(second_clip.source_range, range(8_000_000, 11_000_000));
    assert_eq!(
        applied.manifest.layout.elements[0].scene_id.as_deref(),
        Some(FIRST_SCENE_ID)
    );
    applied.manifest.validate_strict().unwrap();
}

#[test]
fn visual_layers_follow_reorder_and_fail_closed_when_a_split_would_change_motion() {
    let mut original = manifest();
    add_visual_layer(&mut original, range(500_000, 1_000_000), FIRST_SCENE_ID);
    original.validate_strict().unwrap();
    let reordered = apply_timeline_edit(
        &original,
        &request(vec![VideoTimelineOperation::ReorderScene {
            scene_id: FIRST_SCENE_ID.into(),
            to_index: 1,
        }]),
    )
    .unwrap();
    assert_eq!(
        reordered.manifest.visual_layers[0].range,
        range(4_500_000, 5_000_000)
    );
    assert_eq!(
        reordered.manifest.visual_layers[0].scene_id.as_deref(),
        Some(FIRST_SCENE_ID)
    );
    assert!(reordered
        .receipt
        .changed_paths
        .iter()
        .any(|path| path == "/visual_layers"));

    let mut crossing = manifest();
    add_visual_layer(&mut crossing, range(500_000, 2_000_000), FIRST_SCENE_ID);
    crossing.validate_strict().unwrap();
    let error = apply_timeline_edit(&crossing, &request(vec![split_operation(1_500_000)]))
        .expect_err("a split cannot silently retime an active visual motion curve");
    assert_eq!(error.code, VideoErrorCode::InvalidLayout);
    assert_eq!(error.field.as_deref(), Some("visual_layers.range"));
}

#[test]
fn visual_layer_motion_is_revisioned_without_replacing_the_managed_asset() {
    let mut original = manifest();
    add_visual_layer(&mut original, range(500_000, 2_500_000), FIRST_SCENE_ID);
    original.validate_strict().unwrap();
    let original_asset = original.visual_assets[0].clone();
    let motion = VisualMotion {
        start_bounds: NormalizedRect {
            x_bp: 2_000,
            y_bp: 3_000,
            width_bp: 6_400,
            height_bp: 3_600,
        },
        end_bounds: NormalizedRect {
            x_bp: 1_000,
            y_bp: 2_000,
            width_bp: 8_000,
            height_bp: 4_500,
        },
        start_opacity_milli: 900,
        end_opacity_milli: 900,
        start_rotation_milli_degrees: 0,
        end_rotation_milli_degrees: 0,
        easing: VisualEasing::Linear,
    };
    let update = VideoTimelineOperation::UpdateVisualLayer {
        layer_id: "visual-layer-editor".into(),
        placement: VisualPlacement {
            scene_id: Some(FIRST_SCENE_ID.into()),
            range: range(750_000, 2_250_000),
            fit: VisualFit::Cover,
            crop: None,
            z_index: 7,
            motion: motion.clone(),
            transition_in_us: Microseconds(200_000),
            transition_out_us: Microseconds(150_000),
        },
    };
    let applied = apply_timeline_edit(&original, &request(vec![update.clone()])).unwrap();
    assert_eq!(applied.manifest.visual_assets[0], original_asset);
    let layer = &applied.manifest.visual_layers[0];
    assert_eq!(layer.asset_id, "visual-editor");
    assert_eq!(layer.range, range(750_000, 2_250_000));
    assert_eq!(layer.fit, VisualFit::Cover);
    assert_eq!(layer.z_index, 7);
    assert_eq!(layer.motion, motion);
    assert_eq!(
        applied.receipt.changed_paths,
        vec!["/visual_layers".to_string()]
    );
    assert_eq!(applied.manifest.revision, original.revision);

    let mut outside_scene = update;
    if let VideoTimelineOperation::UpdateVisualLayer { placement, .. } = &mut outside_scene {
        placement.range = TimeRange::new(2_500_000, 3_500_000).unwrap();
    }
    let error = apply_timeline_edit(&original, &request(vec![outside_scene])).unwrap_err();
    assert_eq!(error.code, VideoErrorCode::InvalidLayout);
    assert_eq!(error.field.as_deref(), Some("visual_layers.range"));
}

#[test]
fn deterministic_split_merge_is_an_exact_manifest_round_trip() {
    let original = manifest();
    let split =
        apply_timeline_edit(&original, &request(vec![split_operation(1_500_000)])).unwrap();
    let right_id = split.manifest.reviewed_scenes[1].id.clone();
    let merged = apply_timeline_edit(
        &split.manifest,
        &request(vec![VideoTimelineOperation::MergeScenes {
            first_scene_id: FIRST_SCENE_ID.into(),
            second_scene_id: right_id,
        }]),
    )
    .unwrap();
    assert_eq!(merged.manifest, original);
    assert_eq!(merged.manifest.revision, split.manifest.revision);
}

#[test]
fn merge_rejects_modified_or_arbitrary_siblings() {
    let original = manifest();
    let split =
        apply_timeline_edit(&original, &request(vec![split_operation(1_500_000)])).unwrap();
    let right_id = split.manifest.reviewed_scenes[1].id.clone();
    let mut incompatible = split.manifest;
    incompatible.tracks[0].clips[1].muted = true;
    incompatible.validate_strict().unwrap();
    let error = apply_timeline_edit(
        &incompatible,
        &request(vec![VideoTimelineOperation::MergeScenes {
            first_scene_id: FIRST_SCENE_ID.into(),
            second_scene_id: right_id,
        }]),
    )
    .unwrap_err();
    assert_eq!(error.code, VideoErrorCode::InvalidScene);

    let error = apply_timeline_edit(
        &original,
        &request(vec![VideoTimelineOperation::MergeScenes {
            first_scene_id: FIRST_SCENE_ID.into(),
            second_scene_id: SECOND_SCENE_ID.into(),
        }]),
    )
    .unwrap_err();
    assert_eq!(error.code, VideoErrorCode::InvalidScene);
}

#[test]
fn split_fails_closed_for_rendered_scene_dependencies() {
    let mut rendered = manifest();
    rendered.render_artifacts.push(RenderArtifact {
        id: "artifact-scene-first".into(),
        role: RenderArtifactRole::SceneSegment,
        scene_id: Some(FIRST_SCENE_ID.into()),
        managed_path: "renders/scene-first.mp4".into(),
        sha256: "c".repeat(64),
        cache_key: "d".repeat(64),
        mime_type: "video/mp4".into(),
        duration_us: Some(Microseconds(3_000_000)),
        width: Some(1080),
        height: Some(1920),
        publication_state: PublicationState::Published,
        created_at: NOW.into(),
    });
    rendered.validate_strict().unwrap();
    let error =
        apply_timeline_edit(&rendered, &request(vec![split_operation(1_500_000)])).unwrap_err();
    assert_eq!(error.code, VideoErrorCode::InvalidScene);
}

#[test]
fn narration_dependencies_fail_closed_for_split_and_merge_but_survive_reorder() {
    let mut narrated = manifest();
    add_narration_dependency(&mut narrated, FIRST_SCENE_ID, "first");
    let error =
        apply_timeline_edit(&narrated, &request(vec![split_operation(1_500_000)])).unwrap_err();
    assert_eq!(error.code, VideoErrorCode::InvalidScene);

    let reordered = apply_timeline_edit(
        &narrated,
        &request(vec![VideoTimelineOperation::ReorderScene {
            scene_id: FIRST_SCENE_ID.into(),
            to_index: 1,
        }]),
    )
    .unwrap();
    assert_eq!(
        reordered.manifest.narration_bindings[0].scene_id.as_deref(),
        Some(FIRST_SCENE_ID)
    );
    reordered.manifest.validate_strict().unwrap();

    let original = manifest();
    let split =
        apply_timeline_edit(&original, &request(vec![split_operation(1_500_000)])).unwrap();
    let right_id = split.manifest.reviewed_scenes[1].id.clone();
    let mut right_narrated = split.manifest;
    add_narration_dependency(&mut right_narrated, &right_id, "right");
    let error = apply_timeline_edit(
        &right_narrated,
        &request(vec![VideoTimelineOperation::MergeScenes {
            first_scene_id: FIRST_SCENE_ID.into(),
            second_scene_id: right_id,
        }]),
    )
    .unwrap_err();
    assert_eq!(error.code, VideoErrorCode::InvalidScene);
}

#[test]
fn deterministic_id_collisions_and_scene_revision_overflow_fail_closed() {
    let mut collision = manifest();
    let derived = deterministic_split_id("scene", FIRST_SCENE_ID, Microseconds(1_500_000));
    collision.reviewed_scenes[1].id = derived.clone();
    for clip in collision
        .tracks
        .iter_mut()
        .flat_map(|track| &mut track.clips)
        .filter(|clip| clip.scene_id.as_deref() == Some(SECOND_SCENE_ID))
    {
        clip.scene_id = Some(derived.clone());
    }
    for caption in &mut collision.captions {
        if caption.scene_id.as_deref() == Some(SECOND_SCENE_ID) {
            caption.scene_id = Some(derived.clone());
        }
    }
    collision.validate_strict().unwrap();
    let error = apply_timeline_edit(&collision, &request(vec![split_operation(1_500_000)]))
        .unwrap_err();
    assert_eq!(error.code, VideoErrorCode::DuplicateId);

    let mut overflow = manifest();
    overflow.reviewed_scenes[0].revision = u32::MAX;
    overflow.validate_strict().unwrap();
    let error =
        apply_timeline_edit(&overflow, &request(vec![split_operation(1_500_000)])).unwrap_err();
    assert_eq!(error.code, VideoErrorCode::ArithmeticOverflow);
}

#[test]
fn stale_project_or_revision_is_rejected_but_opaque_store_version_is_echoed() {
    let original = manifest();
    let mut stale_project = request(vec![split_operation(1_500_000)]);
    stale_project.project_id = "project-other".into();
    assert_eq!(
        apply_timeline_edit(&original, &stale_project)
            .unwrap_err()
            .code,
        VideoErrorCode::MissingReference
    );
    let mut stale_revision = request(vec![split_operation(1_500_000)]);
    stale_revision.expected_revision = 1;
    assert_eq!(
        apply_timeline_edit(&original, &stale_revision)
            .unwrap_err()
            .code,
        VideoErrorCode::InvalidRevision
    );
    let mut current = request(vec![split_operation(1_500_000)]);
    current.base_version_id = "opaque-store-version".into();
    let applied = apply_timeline_edit(&original, &current).unwrap();
    assert_eq!(applied.receipt.base_version_id, "opaque-store-version");
}

#[test]
fn deterministic_replay_and_ordered_batch_do_not_advance_revision() {
    let original = manifest();
    let replay_request = request(vec![split_operation(1_500_000)]);
    assert_eq!(
        apply_timeline_edit(&original, &replay_request).unwrap(),
        apply_timeline_edit(&original, &replay_request).unwrap()
    );

    let batch = request(vec![
        VideoTimelineOperation::TrimScene {
            scene_id: FIRST_SCENE_ID.into(),
            source_start_us: Microseconds(1_500_000),
            source_end_us: Microseconds(3_500_000),
        },
        VideoTimelineOperation::ReorderScene {
            scene_id: SECOND_SCENE_ID.into(),
            to_index: 0,
        },
    ]);
    let applied = apply_timeline_edit(&original, &batch).unwrap();
    assert_eq!(applied.manifest.revision, original.revision);
    assert_eq!(applied.receipt.operation_id, batch.operation_id);
    assert_eq!(applied.receipt.expected_revision, original.revision);
    applied.manifest.validate_strict().unwrap();
}

#[test]
fn an_edit_keeps_commit_metadata_and_leaves_a_valid_project() {
    let original = manifest();
    let applied = apply_timeline_edit(&original, &request(vec![split_operation(1_500_000)])).unwrap();
    assert_eq!(applied.manifest.revision, original.revision);
    assert_eq!(applied.manifest.revision_history, original.revision_history);
    assert_eq!(applied.manifest.updated_at, original.updated_at);
    assert!(!applied.receipt.changed_paths.is_empty());
    applied.manifest.validate_strict().unwrap();
}

#[test]
fn the_halves_of_a_split_clip_play_what_it_played() {
    let original = manifest();
    let applied = apply_timeline_edit(&original, &request(vec![split_operation(1_500_000)])).unwrap();
    let whole = &original.tracks[0].clips[0];
    let left = &applied.manifest.tracks[0].clips[0];
    let right = &applied.manifest.tracks[0].clips[1];
    assert_eq!(left.source_range.start_us, whole.source_range.start_us);
    assert_eq!(left.source_range.end_us, right.source_range.start_us);
    assert_eq!(right.source_range.end_us, whole.source_range.end_us);
    assert_eq!(left.timeline_range().unwrap().end_us, right.timeline_start_us);
    assert_eq!(right.timeline_range().unwrap().end_us, whole.timeline_range().unwrap().end_us);
}

#[test]
fn a_reorder_keeps_every_clip_and_the_total_length() {
    let original = manifest();
    let applied = apply_timeline_edit(
        &original,
        &request(vec![VideoTimelineOperation::ReorderScene {
            scene_id: FIRST_SCENE_ID.into(),
            to_index: 1,
        }]),
    )
    .unwrap();
    let end = |manifest: &VideoProjectManifest| {
        manifest
            .reviewed_scenes
            .iter()
            .map(|scene| scene.timeline_start_us.0 + scene.timeline_duration_us.0)
            .max()
    };
    assert_eq!(end(&applied.manifest), end(&original));
    for (before, after) in original.tracks.iter().zip(&applied.manifest.tracks) {
        assert_eq!(before.clips.len(), after.clips.len());
        for clip in &before.clips {
            let moved = after.clips.iter().find(|other| other.id == clip.id).unwrap();
            assert_eq!(
                TimelineClip { timeline_start_us: clip.timeline_start_us, ..moved.clone() },
                *clip
            );
        }
    }
}

#[test]
fn stale_stages_are_the_union_over_the_changed_paths_in_order() {
    let table = vec![
        PathStages { path: "/tracks".into(), stages: vec![RevisionStage::Preview, RevisionStage::SceneRender] },
        PathStages { path: "/captions".into(), stages: vec![RevisionStage::Captions, RevisionStage::Preview] },
        PathStages { path: "/lexicon".into(), stages: vec![RevisionStage::Speech] },
        PathStages { path: "/tracks".into(), stages: vec![RevisionStage::Ingest] },
    ];
    let stale = |paths: &[&str]| {
        invalidated_stages_for_manifest_changes(&paths.iter().map(|path| path.to_string()).collect(), &table)
    };
    assert_eq!(
        stale(&["/captions", "/tracks"]),
        vec![RevisionStage::Ingest, RevisionStage::Captions, RevisionStage::SceneRender, RevisionStage::Preview]
    );
    assert_eq!(stale(&["/lexicon", "/unknown"]), vec![RevisionStage::Speech]);
    assert!(stale(&[]).is_empty());
    assert!(stale(&["/track"]).is_empty());
}

#[test]
fn a_taken_identifier_is_refused_before_the_halves_are_checked() {
    let at = Microseconds(1_500_000);
    let mut captions = manifest();
    captions.captions[0].style_id = "not a style".into();
    let error = split_scene(&captions, FIRST_SCENE_ID, at).unwrap_err();
    assert_ne!(error.code, VideoErrorCode::DuplicateId);
    captions.captions[1].id = deterministic_split_id("caption", "caption-first", at);
    let error = split_scene(&captions, FIRST_SCENE_ID, at).unwrap_err();
    assert_eq!(error.code, VideoErrorCode::DuplicateId);
    assert_eq!(error.message, "deterministic split caption identifier already exists");

    let mut gaps = manifest();
    gaps.gaps[2].source_range = Some(TimeRange { start_us: Microseconds(i64::MAX), end_us: Microseconds(i64::MAX) });
    gaps.gaps[3].id = deterministic_split_id("gap", "gap-overlay-first", at);
    let error = split_scene(&gaps, FIRST_SCENE_ID, at).unwrap_err();
    assert_eq!(error.message, "deterministic split gap identifier already exists");
}

#[test]
fn a_gap_whose_source_leaves_the_clock_cannot_be_split() {
    let mut project = manifest();
    project.gaps[2].source_range = Some(TimeRange { start_us: Microseconds(i64::MAX), end_us: Microseconds(i64::MAX) });
    let error = split_scene(&project, FIRST_SCENE_ID, Microseconds(1_500_000)).unwrap_err();
    assert_eq!(error.code, VideoErrorCode::ArithmeticOverflow);
    assert_eq!(error.message, "microsecond addition overflowed");
}

#[test]
fn a_right_half_without_a_length_is_refused_with_its_own_error() {
    let mut split = split_scene(&manifest(), FIRST_SCENE_ID, Microseconds(1_500_000)).unwrap();
    let right_id = split.reviewed_scenes[1].id.clone();
    split.tracks[0].clips[1].timeline_duration_us = Microseconds(0);
    let error = merge_scenes(&split, FIRST_SCENE_ID, &right_id).unwrap_err();
    assert_eq!(error.code, VideoErrorCode::InvalidTimestamp);
    assert_eq!(error.message, "a time range must have 0 <= start_us < end_us");
}

#[test]
fn scenes_that_share_an_identifier_cannot_be_edited() {
    let mut project = manifest();
    project.reviewed_scenes[1].id = FIRST_SCENE_ID.into();
    let error = validate_editable_scene_references(&project).unwrap_err();
    assert_eq!(error.code, VideoErrorCode::TimelineOverlap);
    // They move as one, to where the last of them goes.
    for track in &mut project.tracks {
        track.clips.clear();
    }
    project.gaps.clear();
    project.captions.clear();
    let moved = reorder_scene(&project, FIRST_SCENE_ID, 1).unwrap();
    assert_eq!(moved.reviewed_scenes[0].timeline_start_us, Microseconds(4_000_000));
    assert_eq!(moved.reviewed_scenes[1].timeline_start_us, Microseconds(4_000_000));
}
