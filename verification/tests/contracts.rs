//! The rules on a project.

use sha2::{Digest, Sha256};
use soundar_video::error::{VideoError, VideoErrorCode};
use soundar_video::manifest::{
    AudioMix, AudioMixTrack, CanvasMode, CanvasSpec, CaptionCue, DuckingSpec, GapReason, LayoutPlan, MediaProbe,
    MediaReference, NarrationBinding, NormalizedRect, Provenance, ProvenanceKind, PublicationState, RenderArtifact,
    RenderArtifactRole, ReviewState, ReviewedScene, RightsBasis, RightsConfirmation, SourceAsset, SourceAssetKind,
    TakeFidelity, TimelineClip, TimelineGap, TimelineTrack, TrackKind, VideoProjectManifest,
};
use soundar_video::manifest_rules::VIDEO_MANIFEST_SCHEMA_VERSION;
use soundar_video::rules::validate_timestamp_text;
use soundar_video::spans::complete_track_spans;
use soundar_video::time::{Microseconds, RationalFrameRate, RationalRate, TimeRange, Validate};
use soundar_video::timeline::{map_source_endpoint_to_timeline, map_timeline_endpoint_to_source, QuantizeMode};
use soundar_video::validate::{CaptionPresetId, MAX_SOURCE_DURATION_US, MAX_TIMELINE_DURATION_US};

fn hash(byte: char) -> String {
    std::iter::repeat(byte).take(64).collect()
}

fn timestamp() -> String {
    "2026-08-27T12:00:00Z".to_owned()
}

fn source() -> SourceAsset {
    SourceAsset {
        id: "source-1".into(),
        kind: SourceAssetKind::LocalVideo,
        managed_path: "video/source-1/original.mp4".into(),
        sha256: hash('a'),
        probe: MediaProbe {
            duration_us: Microseconds(3_000_000),
            width: Some(1920),
            height: Some(1080),
            frame_rate: Some(RationalFrameRate::fps_30000_1001()),
            has_video: true,
            has_audio: true,
            format_name: "mov,mp4".into(),
        },
        provenance: Provenance {
            kind: ProvenanceKind::UserUpload,
            original_uri: None,
            imported_at: timestamp(),
            producer: "soundar".into(),
            producer_version: Some("0.6.0".into()),
            metadata: Vec::new(),
        },
        rights_confirmation_id: None,
    }
}

fn clip(id: &str, source_start: i64, timeline_start: i64, duration: i64) -> TimelineClip {
    TimelineClip {
        id: id.into(),
        scene_id: None,
        turn_id: None,
        media: MediaReference {
            source_asset_id: Some("source-1".into()),
            render_artifact_id: None,
        },
        source_range: TimeRange::new(source_start, source_start + duration).unwrap(),
        timeline_start_us: Microseconds(timeline_start),
        timeline_duration_us: Microseconds(duration),
        playback_rate: RationalRate::one(),
        gain_db_milli: 0,
        muted: false,
        crop: None,
    }
}

fn manifest() -> VideoProjectManifest {
    VideoProjectManifest {
        schema_version: VIDEO_MANIFEST_SCHEMA_VERSION,
        project_id: "project-1".into(),
        name: "Test reel".into(),
        revision: 0,
        frame_rate: RationalFrameRate::fps_30000_1001(),
        timeline_duration_us: Microseconds(3_000_000),
        source_assets: vec![source()],
        rights_confirmations: vec![],
        transcript: None,
        candidates: vec![],
        reviewed_scenes: vec![],
        tracks: vec![TimelineTrack {
            id: "video-main".into(),
            kind: TrackKind::Video,
            clips: vec![
                clip("clip-1", 0, 0, 1_000_000),
                clip("clip-2", 2_000_000, 2_000_000, 1_000_000),
            ],
            preserve_gaps: true,
        }],
        gaps: vec![TimelineGap {
            id: "gap-1".into(),
            track_id: "video-main".into(),
            range: TimeRange::new(1_000_000, 2_000_000).unwrap(),
            reason: GapReason::SourceSilence,
            source_asset_id: Some("source-1".into()),
            source_range: Some(TimeRange::new(1_000_000, 2_000_000).unwrap()),
        }],
        captions: vec![],
        layout: LayoutPlan {
            mode: CanvasMode::Portrait,
            canvas: CanvasSpec {
                width: 1080,
                height: 1920,
                pixel_aspect_numerator: 1,
                pixel_aspect_denominator: 1,
            },
            safe_area: NormalizedRect {
                x_bp: 500,
                y_bp: 500,
                width_bp: 9_000,
                height_bp: 9_000,
            },
            background_rgba: [245, 245, 244, 255],
            elements: vec![],
        },
        audio_mix: AudioMix {
            target_lufs_milli: -16_000,
            true_peak_db_milli: -1_000,
            tracks: vec![],
        },
        cast: vec![],
        dialogue: vec![],
        turn_beats: vec![],
        lexicon: vec![],
        music_cues: vec![],
        sound_assets: vec![],
        sound_layers: vec![],
        visual_assets: vec![],
        visual_layers: vec![],
        length_target: None,
        format_origin: None,
        narration_bindings: vec![],
        render_artifacts: vec![],
        revision_history: vec![],
        created_at: timestamp(),
        updated_at: timestamp(),
    }
}

#[test]
fn valid_manifest_preserves_explicit_gap() {
    manifest().validate_strict().unwrap();
}

#[test]
fn curated_caption_ids_are_stable_and_unknown_styles_fail_closed() {
    for preset in CaptionPresetId::all() {
        assert_eq!(CaptionPresetId::parse(preset.public_id()).unwrap(), preset);
        assert_eq!(
            CaptionPresetId::parse(preset.manifest_id()).unwrap(),
            preset
        );
    }
    assert_eq!(
        CaptionPresetId::parse("clean").unwrap(),
        CaptionPresetId::CleanWhite
    );

    let mut manifest = manifest();
    manifest.captions.push(CaptionCue {
        id: "caption-unsupported".into(),
        range: TimeRange::new(0, 1_000_000).unwrap(),
        text: "A caption must never silently change style.".into(),
        style_id: "surprise-template".into(),
        speaker_id: None,
        transcript_segment_id: None,
        scene_id: None,
    });
    let error = manifest.validate_strict().unwrap_err();
    assert_eq!(error.code, VideoErrorCode::InvalidCaption);
    assert_eq!(error.field.as_deref(), Some("captions.style_id"));
}

#[test]
fn implicit_gap_is_rejected_with_stable_code() {
    let mut manifest = manifest();
    manifest.gaps.clear();
    let error = manifest.validate_strict().unwrap_err();
    assert_eq!(error.code, VideoErrorCode::TimelineGap);
    assert_eq!(error.stable_code(), "video.timeline_gap");
}

#[test]
fn imported_links_require_per_url_rights() {
    let mut asset = source();
    asset.kind = SourceAssetKind::ImportedLink;
    asset.provenance.kind = ProvenanceKind::AuthorizedLink;
    asset.provenance.original_uri = Some("https://example.com/watch?v=one".into());
    let error = asset.validate().unwrap_err();
    assert_eq!(error.code, VideoErrorCode::MissingRightsConfirmation);
}

#[test]
fn rights_confirmation_is_cryptographically_bound_to_one_exact_url() {
    let source_uri = "https://example.com/watch?v=one";
    let mut rights = RightsConfirmation {
        id: "rights-1".into(),
        source_uri: source_uri.into(),
        source_uri_sha256: format!("{:x}", Sha256::digest(source_uri.as_bytes())),
        basis: RightsBasis::Owned,
        confirmation_text: "I own this source and authorize this import.".into(),
        confirmed_by: "local-user".into(),
        confirmed_at: timestamp(),
        single_source_only: true,
    };
    rights.validate().unwrap();
    rights.source_uri = "https://example.com/watch?v=two".into();
    let error = rights.validate().unwrap_err();
    assert_eq!(error.code, VideoErrorCode::InvalidRightsConfirmation);
}

#[test]
fn new_manifest_constructs_a_strict_empty_service_document() {
    let template = manifest();
    let created = VideoProjectManifest::new(
        "project-new",
        "New video",
        RationalFrameRate::fps_24(),
        Microseconds(1_000_000),
        template.layout,
        template.audio_mix,
        &timestamp(),
    )
    .unwrap();
    assert_eq!(created.schema_version, VIDEO_MANIFEST_SCHEMA_VERSION);
    assert_eq!(created.revision, 0);
    assert!(created.source_assets.is_empty());
    created.validate_strict().unwrap();
}

#[test]
fn narration_binding_is_audio_backed_and_bound_to_current_scene_script() {
    let mut manifest = manifest();
    let script = "This narration belongs to the reviewed scene.";
    manifest.reviewed_scenes.push(ReviewedScene {
        id: "scene-narration".into(),
        candidate_id: None,
        source_asset_id: Some("source-1".into()),
        source_range: Some(TimeRange::new(0, 3_000_000).unwrap()),
        timeline_start_us: Microseconds::zero(),
        timeline_duration_us: Microseconds(3_000_000),
        title: "Narrated scene".into(),
        script: script.into(),
        review_state: ReviewState::Approved,
        revision: 1,
    });
    manifest.render_artifacts.push(RenderArtifact {
        id: "narration-audio".into(),
        role: RenderArtifactRole::SceneSegment,
        scene_id: Some("scene-narration".into()),
        managed_path: "renders/narration-audio.wav".into(),
        sha256: hash('b'),
        cache_key: hash('c'),
        mime_type: "audio/wav".into(),
        duration_us: Some(Microseconds(3_000_000)),
        width: None,
        height: None,
        publication_state: PublicationState::Published,
        created_at: timestamp(),
    });
    manifest.narration_bindings.push(NarrationBinding {
        id: "narration-binding".into(),
        scene_id: Some("scene-narration".into()),
        turn_id: None,
        character_id: None,
        render_artifact_id: "narration-audio".into(),
        history_id: "history-narration".into(),
        generation_job_id: "job-narration".into(),
        voice_id: "af-heart".into(),
        model_id: "hexgrad/Kokoro-82M".into(),
        speaker: "af_heart".into(),
        language: "en-US".into(),
        script_sha256: format!("{:x}", Sha256::digest(script.as_bytes())),
        lexicon_fingerprint: None,
        fidelity: TakeFidelity::Final,
        created_at: timestamp(),
    });
    manifest.validate_strict().unwrap();

    manifest.reviewed_scenes[0].script = "The script changed.".into();
    let error = manifest.validate_strict().unwrap_err();
    assert_eq!(error.code, VideoErrorCode::InvalidNarration);
    assert_eq!(
        error.field.as_deref(),
        Some("narration_bindings.script_sha256")
    );

    manifest.reviewed_scenes[0].script = script.into();
    manifest.render_artifacts[0].mime_type = "video/mp4".into();
    manifest.render_artifacts[0].width = Some(1080);
    manifest.render_artifacts[0].height = Some(1920);
    let error = manifest.validate_strict().unwrap_err();
    assert_eq!(error.code, VideoErrorCode::InvalidNarration);
}

#[test]
fn playback_rate_requires_exact_integer_microsecond_relation() {
    let mut clip = clip("clip-1", 0, 0, 1_000_000);
    clip.playback_rate = RationalRate {
        numerator: 2,
        denominator: 1,
    };
    let error = clip.validate().unwrap_err();
    assert_eq!(error.code, VideoErrorCode::DurationMismatch);
    clip.timeline_duration_us = Microseconds(500_000);
    clip.validate().unwrap();
}

#[test]
fn playback_rate_enforces_inclusive_product_bounds() {
    for rate in [RationalRate::slowest(), RationalRate::one(), RationalRate::fastest()] {
        rate.validate().unwrap();
    }

    for rate in [
        RationalRate {
            numerator: 1,
            denominator: 9,
        },
        RationalRate {
            numerator: 9,
            denominator: 1,
        },
    ] {
        let error = rate.validate().unwrap_err();
        assert_eq!(error.code, VideoErrorCode::DurationMismatch);
    }
}

#[test]
fn source_and_timeline_duration_enforce_inclusive_product_bounds() {
    let mut probe = source().probe;
    probe.duration_us = Microseconds(MAX_SOURCE_DURATION_US);
    probe.validate().unwrap();
    probe.duration_us = Microseconds(MAX_SOURCE_DURATION_US + 1);
    let error = probe.validate().unwrap_err();
    assert_eq!(error.code, VideoErrorCode::InvalidAsset);
    assert_eq!(error.field.as_deref(), Some("media.duration_us"));

    let template = manifest();
    VideoProjectManifest::new(
        "project-six-hours",
        "Six-hour project",
        RationalFrameRate::fps_30(),
        Microseconds(MAX_TIMELINE_DURATION_US),
        template.layout.clone(),
        template.audio_mix.clone(),
        &timestamp(),
    )
    .unwrap();
    let error = VideoProjectManifest::new(
        "project-too-long",
        "Overlong project",
        RationalFrameRate::fps_30(),
        Microseconds(MAX_TIMELINE_DURATION_US + 1),
        template.layout,
        template.audio_mix,
        &timestamp(),
    )
    .unwrap_err();
    assert_eq!(error.code, VideoErrorCode::InvalidTimestamp);
    assert_eq!(error.field.as_deref(), Some("timeline_duration_us"));
}

#[test]
fn rational_and_timestamp_representations_are_canonical() {
    assert_eq!(
        RationalFrameRate {
            numerator: 60,
            denominator: 2,
        }
        .validate()
        .unwrap_err()
        .code,
        VideoErrorCode::InvalidFrameRate
    );
    let mut manifest = manifest();
    manifest.updated_at = "2026-99-99T99:99:99Z".into();
    assert_eq!(
        manifest.validate_strict().unwrap_err().code,
        VideoErrorCode::InvalidTimestamp
    );
}

#[test]
fn parent_traversal_is_never_a_managed_path() {
    let mut asset = source();
    asset.managed_path = "video/../../etc/passwd".into();
    assert_eq!(
        asset.validate().unwrap_err().code,
        VideoErrorCode::InvalidAsset
    );
}

#[test]
fn media_sample_ranges_are_half_open_but_edit_endpoints_are_explicit() {
    let range = TimeRange::new(10, 20).unwrap();
    assert!(range.contains(Microseconds(10)));
    assert!(range.contains(Microseconds(19)));
    assert!(!range.contains(Microseconds(20)));
    assert!(range.contains_endpoint(Microseconds(20)));
}

#[test]
fn artifact_backed_clips_must_fit_declared_artifact_duration() {
    let mut manifest = manifest();
    manifest.render_artifacts.push(RenderArtifact {
        id: "artifact-1".into(),
        role: RenderArtifactRole::SceneSegment,
        scene_id: None,
        managed_path: "renders/artifact-1.mp4".into(),
        sha256: hash('b'),
        cache_key: hash('c'),
        mime_type: "video/mp4".into(),
        duration_us: Some(Microseconds(500_000)),
        width: Some(1080),
        height: Some(1920),
        publication_state: PublicationState::Published,
        created_at: timestamp(),
    });
    manifest.tracks[0].clips[0].media = MediaReference {
        source_asset_id: None,
        render_artifact_id: Some("artifact-1".into()),
    };
    let error = manifest.validate_strict().unwrap_err();
    assert_eq!(error.code, VideoErrorCode::InvalidTrack);
    assert_eq!(error.field.as_deref(), Some("tracks.clips.source_range"));
}

#[test]
fn timeline_artifacts_require_duration_and_a_compatible_stream_kind() {
    let mut manifest = manifest();
    manifest.render_artifacts.push(RenderArtifact {
        id: "artifact-1".into(),
        role: RenderArtifactRole::SceneSegment,
        scene_id: None,
        managed_path: "renders/artifact-1.wav".into(),
        sha256: hash('b'),
        cache_key: hash('c'),
        mime_type: "audio/wav".into(),
        duration_us: None,
        width: None,
        height: None,
        publication_state: PublicationState::Published,
        created_at: timestamp(),
    });
    manifest.tracks[0].clips[0].media = MediaReference {
        source_asset_id: None,
        render_artifact_id: Some("artifact-1".into()),
    };
    assert_eq!(
        manifest.validate_strict().unwrap_err().code,
        VideoErrorCode::InvalidArtifact
    );

    manifest.render_artifacts[0].duration_us = Some(Microseconds(3_000_000));
    assert_eq!(
        manifest.validate_strict().unwrap_err().code,
        VideoErrorCode::InvalidTrack
    );

    manifest.render_artifacts[0].mime_type = "video/mp4".into();
    manifest.render_artifacts[0].width = Some(1080);
    manifest.render_artifacts[0].height = Some(1920);
    manifest.render_artifacts[0].publication_state = PublicationState::Staged;
    assert_eq!(
        manifest.validate_strict().unwrap_err().code,
        VideoErrorCode::InvalidArtifact
    );
}

#[test]
fn track_stream_kinds_and_audio_mix_references_are_enforced() {
    let mut no_audio = manifest();
    no_audio.tracks[0].kind = TrackKind::Audio;
    no_audio.source_assets[0].probe.has_audio = false;
    assert_eq!(
        no_audio.validate_strict().unwrap_err().code,
        VideoErrorCode::InvalidTrack
    );

    let mut mixed_as_video = manifest();
    mixed_as_video.audio_mix.tracks.push(AudioMixTrack {
        track_id: "video-main".into(),
        gain_db_milli: 0,
        pan_milli: 0,
        ducking: None,
    });
    assert_eq!(
        mixed_as_video.validate_strict().unwrap_err().code,
        VideoErrorCode::InvalidAudioMix
    );

    let mut invalid_sidechain = manifest();
    invalid_sidechain.tracks.push(TimelineTrack {
        id: "audio-main".into(),
        kind: TrackKind::Audio,
        clips: vec![],
        preserve_gaps: false,
    });
    invalid_sidechain.audio_mix.tracks.push(AudioMixTrack {
        track_id: "audio-main".into(),
        gain_db_milli: 0,
        pan_milli: 0,
        ducking: Some(DuckingSpec {
            sidechain_track_id: "video-main".into(),
            reduction_db_milli: -12_000,
            attack_us: Microseconds(10_000),
            release_us: Microseconds(100_000),
        }),
    });
    assert_eq!(
        invalid_sidechain.validate_strict().unwrap_err().code,
        VideoErrorCode::InvalidAudioMix
    );
}

#[test]
fn each_rule_reports_its_own_code() {
    let mut future = manifest();
    future.schema_version = VIDEO_MANIFEST_SCHEMA_VERSION + 1;
    assert_eq!(future.validate_strict().unwrap_err().code, VideoErrorCode::UnsupportedSchema);

    let mut unnamed = manifest();
    unnamed.project_id = "no spaces allowed".into();
    assert_eq!(unnamed.validate_strict().unwrap_err().code, VideoErrorCode::InvalidIdentifier);

    let mut twice = manifest();
    twice.tracks[0].clips[1].id = "clip-1".into();
    assert_eq!(twice.validate_strict().unwrap_err().code, VideoErrorCode::DuplicateId);

    let mut lost = manifest();
    lost.tracks[0].clips[0].media.source_asset_id = Some("source-unknown".into());
    assert_eq!(lost.validate_strict().unwrap_err().code, VideoErrorCode::MissingReference);

    let mut overlapping = manifest();
    overlapping.tracks[0].clips[1].timeline_start_us = Microseconds(500_000);
    assert_eq!(overlapping.validate_strict().unwrap_err().code, VideoErrorCode::TimelineOverlap);

    let mut half_known = manifest();
    half_known.gaps[0].source_range = None;
    assert_eq!(half_known.validate_strict().unwrap_err().code, VideoErrorCode::InvalidGap);
}

#[test]
fn timestamps_are_utc_instants() {
    for good in ["2026-08-27T12:00:00Z", "2026-08-27T12:00:00.123456Z", "2024-02-29T23:59:60Z"] {
        validate_timestamp_text(good, "created_at").unwrap();
    }
    for bad in [
        "",
        "Z",
        "2026-08-27",
        "2026-08-27T12:00:00",
        "2026-08-27T12:00:00+00:00",
        "2026-13-01T00:00:00Z",
        "2026-02-29T00:00:00Z",
        "tomorrowZ",
    ] {
        let error = validate_timestamp_text(bad, "created_at").unwrap_err();
        assert_eq!(error.code, VideoErrorCode::InvalidTimestamp, "{bad}");
        assert_eq!(error.field.as_deref(), Some("created_at"));
    }
}

#[test]
fn an_error_reads_as_one_line() {
    let error = VideoError::new(VideoErrorCode::TimelineGap, "nothing plays");
    assert_eq!(error.describe(), "video.timeline_gap: nothing plays");
    assert!(!error.retryable && error.details.is_none());
    let error = error.at("tracks").retryable().with_details("{\"at\":5}");
    assert_eq!(error.describe(), "video.timeline_gap at tracks: nothing plays");
    assert_eq!(error.stable_code(), "video.timeline_gap");
    assert!(error.retryable);
    assert_eq!(error.details.as_deref(), Some("{\"at\":5}"));
}

#[test]
fn the_ends_of_a_clip_map_to_each_other() {
    let fast = TimelineClip {
        source_range: TimeRange::new(500_000, 2_500_000).unwrap(),
        playback_rate: RationalRate { numerator: 2, denominator: 1 },
        ..clip("clip-fast", 0, 100_000, 1_000_000)
    };
    for (timeline, source) in [(100_000, 500_000), (600_000, 1_500_000), (1_100_000, 2_500_000)] {
        let there = map_timeline_endpoint_to_source(&fast, Microseconds(timeline), QuantizeMode::Floor).unwrap();
        assert_eq!(there, Microseconds(source));
        let back = map_source_endpoint_to_timeline(&fast, there, QuantizeMode::Floor).unwrap();
        assert_eq!(back, Microseconds(timeline));
    }
    assert!(map_timeline_endpoint_to_source(&fast, Microseconds(1_100_001), QuantizeMode::Floor).is_err());
}

#[test]
fn every_instant_of_a_track_is_owned_once() {
    let manifest = manifest();
    let spans = complete_track_spans(&manifest.tracks[0], &manifest.gaps, manifest.timeline_duration_us).unwrap();
    assert_eq!(spans.len(), 3);
    for instant in [0, 999_999, 1_000_000, 1_500_000, 2_000_000, 2_999_999] {
        let clips = manifest.tracks[0]
            .clips
            .iter()
            .filter(|clip| clip.timeline_range().unwrap().contains(Microseconds(instant)))
            .count();
        let gaps = manifest.gaps.iter().filter(|gap| gap.range.contains(Microseconds(instant))).count();
        assert_eq!(clips + gaps, 1, "{instant}");
    }
}
