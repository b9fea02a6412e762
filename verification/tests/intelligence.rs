//! Transcripts, suggestions and reviewed timelines.

use sha2::{Digest, Sha256};
use soundar_video::cache::{JsonEntry, JsonValue};
use soundar_video::candidates::{identify_clip_candidates, source_range_fingerprint, CandidatePolicy};
use soundar_video::error::VideoErrorCode;
use soundar_video::evidence::transcript_from_runtime_json;
use soundar_video::manifest::{
    AudioMix, CandidateStatus, CanvasMode, CanvasSpec, ClipCandidate, LayoutPlan, MediaProbe, NormalizedRect, Provenance,
    ProvenanceKind, SourceAsset, SourceAssetKind, TrackKind, TranscriptTimingSource, TranscriptVersion,
    VideoProjectManifest,
};
use soundar_video::scene_plan::{apply_scene_plan, plan_reviewed_timeline, ScenePlanRequest};
use soundar_video::time::{Microseconds, RationalFrameRate, TimeRange};
use soundar_video::transcript::TranscriptImportRequest;

fn timestamp() -> String {
    "2026-08-27T18:30:00.000Z".into()
}

fn transcript_request() -> TranscriptImportRequest {
    TranscriptImportRequest {
        source_asset_id: "source-1".into(),
        source_clock_duration_us: Microseconds(12_000_000),
        timing_source: TranscriptTimingSource::FasterWhisper,
        created_at: timestamp(),
    }
}

fn text(value: &str) -> JsonValue {
    JsonValue::Text(value.into())
}

fn number(value: f64) -> JsonValue {
    JsonValue::Decimal { text: format!("{value:?}"), bits: value.to_bits() }
}

fn object(members: Vec<(&str, JsonValue)>) -> JsonValue {
    JsonValue::Object(members.into_iter().map(|(name, value)| JsonEntry { name: name.into(), value }).collect())
}

/// Something said between two instants, in seconds.
fn segment(start: f64, end: f64, said: &str) -> JsonValue {
    object(vec![("start_seconds", number(start)), ("end_seconds", number(end)), ("text", text(said))])
}

fn word(start: f64, end: f64, said: &str, confidence: f64) -> JsonValue {
    object(vec![
        ("start_seconds", number(start)),
        ("end_seconds", number(end)),
        ("text", text(said)),
        ("confidence", number(confidence)),
    ])
}

fn evidence() -> JsonValue {
    object(vec![
        ("detected_language", text("en")),
        (
            "segments",
            JsonValue::List(vec![
                segment(1.0, 4.0, "Why does a strong opening matter?"),
                segment(5.0, 8.0, "It earns the next few seconds."),
                segment(9.0, 11.5, "Then one concrete example makes it memorable."),
            ]),
        ),
        (
            "words",
            JsonValue::List(vec![
                word(1.0, 1.4, "Why", 0.98),
                word(1.5, 2.0, "does", 0.96),
                word(5.0, 5.4, "It", 0.95),
            ]),
        ),
    ])
}

fn manifest_with_transcript(transcript: TranscriptVersion) -> VideoProjectManifest {
    let layout = LayoutPlan {
        mode: CanvasMode::Portrait,
        canvas: CanvasSpec {
            width: 1080,
            height: 1920,
            pixel_aspect_numerator: 1,
            pixel_aspect_denominator: 1,
        },
        safe_area: NormalizedRect {
            x_bp: 500,
            y_bp: 500,
            width_bp: 9_000,
            height_bp: 9_000,
        },
        background_rgba: [16, 16, 16, 255],
        elements: vec![],
    };
    let mut manifest = VideoProjectManifest::new(
        "project-1",
        "Source reel",
        RationalFrameRate::fps_30(),
        Microseconds(12_000_000),
        layout,
        AudioMix {
            target_lufs_milli: -14_000,
            true_peak_db_milli: -1_000,
            tracks: vec![],
        },
        &timestamp(),
    )
    .unwrap();
    manifest.source_assets.push(SourceAsset {
        id: "source-1".into(),
        kind: SourceAssetKind::LocalVideo,
        managed_path: "projects/project-1/source.mp4".into(),
        sha256: "a".repeat(64),
        probe: MediaProbe {
            duration_us: Microseconds(12_000_000),
            width: Some(1920),
            height: Some(1080),
            frame_rate: Some(RationalFrameRate::fps_30()),
            has_video: true,
            has_audio: true,
            format_name: "mov,mp4".into(),
        },
        provenance: Provenance {
            kind: ProvenanceKind::UserUpload,
            original_uri: None,
            imported_at: timestamp(),
            producer: "soundAr Video Studio".into(),
            producer_version: Some("1".into()),
            metadata: Vec::new(),
        },
        rights_confirmation_id: None,
    });
    manifest.transcript = Some(transcript);
    manifest.validate_strict().unwrap();
    manifest
}

#[test]
fn runtime_transcript_preserves_measured_source_gaps_and_is_stable() {
    let first = transcript_from_runtime_json(&evidence(), &transcript_request()).unwrap();
    let second = transcript_from_runtime_json(&evidence(), &transcript_request()).unwrap();
    assert_eq!(first.id, second.id);
    assert_eq!(first.content_sha256, second.content_sha256);
    assert_eq!(first.segments[0].range.start_us, Microseconds(1_000_000));
    assert_eq!(first.segments[1].range.start_us, Microseconds(5_000_000));
    assert!(first.preserved_source_gaps);
    assert_eq!(first.segments[0].word_ids.len(), 2);
}

#[test]
fn invalid_external_timing_is_rejected_for_local_fallback() {
    let invalid = object(vec![(
        "segments",
        JsonValue::List(vec![object(vec![("start", number(11.0)), ("end", number(13.0)), ("text", text("outside"))])]),
    )]);
    let error = transcript_from_runtime_json(&invalid, &transcript_request()).unwrap_err();
    assert_eq!(error.code, VideoErrorCode::InvalidTranscript);

    let missing = object(vec![("text", text("untimed transcript"))]);
    let error = transcript_from_runtime_json(&missing, &transcript_request()).unwrap_err();
    assert_eq!(error.code, VideoErrorCode::InvalidTranscript);
}

#[test]
fn rejected_source_ranges_do_not_reappear_after_analysis() {
    let transcript = transcript_from_runtime_json(&evidence(), &transcript_request()).unwrap();
    let policy = CandidatePolicy {
        minimum_duration_us: Microseconds(2_000_000),
        target_duration_us: Microseconds(5_000_000),
        maximum_duration_us: Microseconds(8_000_000),
        maximum_candidates: 10,
    };
    let initial = identify_clip_candidates(&transcript, &policy, &vec![]).unwrap();
    assert_eq!(initial.candidates.len(), 2);
    let excluded = vec![initial
        .source_range_fingerprints
        .iter()
        .find(|entry| entry.candidate_id == initial.candidates[0].id)
        .unwrap()
        .fingerprint
        .clone()];
    let rerun = identify_clip_candidates(&transcript, &policy, &excluded).unwrap();
    assert_eq!(rerun.candidates.len(), 1);
    assert_eq!(rerun.candidates[0].id, initial.candidates[1].id);
}

#[test]
fn reviewed_plan_maps_captions_and_keeps_internal_source_silence() {
    let transcript = transcript_from_runtime_json(&evidence(), &transcript_request()).unwrap();
    let analysis = identify_clip_candidates(
        &transcript,
        &CandidatePolicy {
            minimum_duration_us: Microseconds(2_000_000),
            target_duration_us: Microseconds(5_000_000),
            maximum_duration_us: Microseconds(8_000_000),
            maximum_candidates: 10,
        },
        &vec![],
    )
    .unwrap();
    let mut manifest = manifest_with_transcript(transcript);
    manifest.candidates = analysis.candidates;
    manifest.validate_strict().unwrap();
    let plan = plan_reviewed_timeline(
        &manifest,
        &ScenePlanRequest {
            selected_candidate_ids: manifest
                .candidates
                .iter()
                .map(|candidate| candidate.id.clone())
                .collect(),
            caption_style_id: "caption-calm".into(),
            inter_scene_gap_us: Microseconds(250_000),
        },
    )
    .unwrap();
    assert_eq!(plan.reviewed_scenes.len(), 2);
    assert_eq!(plan.tracks.len(), 2);
    assert_eq!(plan.gaps.len(), 2);
    assert_eq!(plan.captions.len(), 3);
    // The first source clip spans 1s..8s, including the measured 4s..5s pause.
    assert_eq!(
        plan.tracks[0].clips[0].source_range.duration().unwrap().0,
        7_000_000
    );
    let mut applied = manifest;
    apply_scene_plan(&mut applied, plan).unwrap();
    applied.validate_strict().unwrap();
}

#[test]
fn mixed_stream_sources_form_complete_partitions_on_every_track() {
    let transcript = transcript_from_runtime_json(&evidence(), &transcript_request()).unwrap();
    let mut manifest = manifest_with_transcript(transcript);
    manifest.source_assets[0].probe.has_audio = false;
    manifest.source_assets.push(SourceAsset {
        id: "source-audio".into(),
        kind: SourceAssetKind::LocalVideo,
        managed_path: "projects/project-1/audio.wav".into(),
        sha256: "b".repeat(64),
        probe: MediaProbe {
            duration_us: Microseconds(12_000_000),
            width: None,
            height: None,
            frame_rate: None,
            has_video: false,
            has_audio: true,
            format_name: "wav".into(),
        },
        provenance: Provenance {
            kind: ProvenanceKind::UserUpload,
            original_uri: None,
            imported_at: timestamp(),
            producer: "soundAr Video Studio".into(),
            producer_version: Some("1".into()),
            metadata: Vec::new(),
        },
        rights_confirmation_id: None,
    });
    manifest.candidates = vec![
        ClipCandidate {
            id: "video".into(),
            source_asset_id: "source-1".into(),
            source_range: TimeRange::new(1_000_000, 4_000_000).unwrap(),
            title: "Video scene".into(),
            rationale: "Exercises a video-only timeline scene.".into(),
            transcript_segment_ids: vec!["segment-000000".into()],
            score_milli: 900,
            status: CandidateStatus::Proposed,
        },
        ClipCandidate {
            id: "audio".into(),
            source_asset_id: "source-audio".into(),
            source_range: TimeRange::new(5_000_000, 8_000_000).unwrap(),
            title: "Audio scene".into(),
            rationale: "Exercises an audio-only timeline scene.".into(),
            transcript_segment_ids: vec![],
            score_milli: 850,
            status: CandidateStatus::Proposed,
        },
    ];
    manifest.validate_strict().unwrap();

    let plan = plan_reviewed_timeline(
        &manifest,
        &ScenePlanRequest {
            selected_candidate_ids: vec!["video".into(), "audio".into()],
            caption_style_id: "caption-calm".into(),
            inter_scene_gap_us: Microseconds(250_000),
        },
    )
    .unwrap();

    assert_eq!(plan.tracks.len(), 2);
    let video = plan
        .tracks
        .iter()
        .find(|track| matches!(track.kind, TrackKind::Video))
        .unwrap();
    let audio = plan
        .tracks
        .iter()
        .find(|track| matches!(track.kind, TrackKind::Audio))
        .unwrap();
    assert_eq!(video.clips.len(), 1);
    assert_eq!(audio.clips.len(), 1);
    assert_eq!(plan.gaps.len(), 4);
    assert_eq!(
        plan.gaps
            .iter()
            .filter(|gap| gap.track_id == video.id)
            .count(),
        2
    );
    assert_eq!(
        plan.gaps
            .iter()
            .filter(|gap| gap.track_id == audio.id)
            .count(),
        2
    );

    let mut applied = manifest;
    apply_scene_plan(&mut applied, plan).unwrap();
    applied.validate_strict().unwrap();
}

#[test]
fn a_transcript_is_named_by_its_content() {
    let first = transcript_from_runtime_json(&evidence(), &transcript_request()).unwrap();
    let later = TranscriptImportRequest {
        timing_source: TranscriptTimingSource::WhisperCpp,
        created_at: "2027-01-01T00:00:00Z".into(),
        ..transcript_request()
    };
    let second = transcript_from_runtime_json(&evidence(), &later).unwrap();
    assert_eq!(first.id, second.id);
    assert_eq!(first.content_sha256, second.content_sha256);
    let other = TranscriptImportRequest { source_asset_id: "source-2".into(), ..transcript_request() };
    assert_ne!(first.id, transcript_from_runtime_json(&evidence(), &other).unwrap().id);
}

#[test]
fn the_name_of_a_transcript_is_the_digest_of_its_canonical_json() {
    let said = "A \"quoted\" word";
    let document = object(vec![(
        "segments",
        JsonValue::List(vec![object(vec![
            ("start", JsonValue::Integer(1)),
            ("end", JsonValue::Natural(2)),
            ("text", text("  A \"quoted\"\tword ")),
            ("speaker", text(" Host ")),
        ])]),
    )]);
    let transcript = transcript_from_runtime_json(&document, &transcript_request()).unwrap();
    let quoted = serde_json::Value::String(said.into()).to_string();
    let canonical = format!(
        "{{\"language\":null,\"schema\":1,\"segments\":[{{\"id\":\"segment-000000\",\"range\":{{\"end_us\":2000000,\"start_us\":1000000}},\"speaker_id\":\"Host\",\"text\":{quoted},\"word_ids\":[]}}],\"source_asset_id\":\"source-1\",\"source_clock_duration_us\":12000000,\"words\":[]}}"
    );
    let digest = format!("{:x}", Sha256::digest(canonical.as_bytes()));
    assert_eq!(transcript.content_sha256, digest);
    assert_eq!(transcript.id, format!("transcript-{}", &digest[..24]));
    assert_eq!(transcript.segments[0].text, said);
    assert_eq!(transcript.segments[0].speaker_id.as_deref(), Some("Host"));
}

#[test]
fn evidence_goes_by_the_names_that_transcribers_use() {
    let document = object(vec![
        ("language", text("de")),
        ("detected_language", text("  ")),
        (
            "segments",
            JsonValue::List(vec![object(vec![
                ("start", number(9.0)),
                ("start_seconds", number(0.5)),
                ("end", number(1.5)),
                ("text", text("one")),
                ("speaker_id", text(" ")),
                ("speaker", text("B")),
            ])]),
        ),
        (
            "words",
            JsonValue::List(vec![object(vec![
                ("start_seconds", text("0.6")),
                ("start", number(0.6)),
                ("end", JsonValue::Integer(1)),
                ("text", text("one")),
                ("alignment_score", number(0.1)),
                ("probability", number(0.9995)),
            ])]),
        ),
    ]);
    let transcript = transcript_from_runtime_json(&document, &transcript_request()).unwrap();
    assert_eq!(transcript.language.as_deref(), Some("de"));
    assert_eq!(transcript.segments[0].range, TimeRange::new(500_000, 1_500_000).unwrap());
    assert_eq!(transcript.segments[0].speaker_id.as_deref(), Some("B"));
    assert_eq!(transcript.segments[0].word_ids, vec!["word-000000".to_string()]);
    assert_eq!(transcript.words[0].range, TimeRange::new(600_000, 1_000_000).unwrap());
    assert_eq!(transcript.words[0].confidence_milli, Some(1_000));
}

#[test]
fn imported_ranges_lie_on_the_source_clock() {
    // A timestamp a little past the end is the end; one further out is refused.
    let ending = |end: f64| {
        object(vec![("segments", JsonValue::List(vec![segment(11.0, end, "late")]))])
    };
    let transcript = transcript_from_runtime_json(&ending(12.02), &transcript_request()).unwrap();
    assert_eq!(transcript.segments[0].range.end_us, Microseconds(12_000_000));
    let error = transcript_from_runtime_json(&ending(12.020_001), &transcript_request()).unwrap_err();
    assert_eq!(error.code, VideoErrorCode::InvalidTranscript);
    assert_eq!(error.field.as_deref(), Some("segments.0"));
    let error = transcript_from_runtime_json(&ending(1e300), &transcript_request()).unwrap_err();
    assert_eq!(error.code, VideoErrorCode::ArithmeticOverflow);
    let error = transcript_from_runtime_json(&ending(10.0), &transcript_request()).unwrap_err();
    assert_eq!(error.message, "timestamp bounds must be finite and satisfy 0 <= start < end");
}

#[test]
fn suggestions_follow_one_another_and_are_long_enough() {
    let transcript = transcript_from_runtime_json(&evidence(), &transcript_request()).unwrap();
    let policy = CandidatePolicy {
        minimum_duration_us: Microseconds(2_000_000),
        target_duration_us: Microseconds(2_500_000),
        maximum_duration_us: Microseconds(3_000_000),
        maximum_candidates: 10,
    };
    let analysis = identify_clip_candidates(&transcript, &policy, &vec![]).unwrap();
    assert_eq!(analysis.candidates.len(), 3);
    for pair in analysis.candidates.windows(2) {
        assert!(pair[0].source_range.end_us <= pair[1].source_range.start_us);
    }
    for candidate in &analysis.candidates {
        assert!(candidate.source_range.duration().unwrap() >= policy.minimum_duration_us);
        let fingerprint = source_range_fingerprint(
            &candidate.source_asset_id,
            candidate.source_range,
            &candidate.transcript_segment_ids,
        );
        let recorded = analysis.source_range_fingerprints.iter().find(|entry| entry.candidate_id == candidate.id);
        assert_eq!(recorded.map(|entry| entry.fingerprint.clone()), Some(fingerprint));
    }
    let first = &analysis.candidates[0];
    assert_eq!(first.title, "Why does a strong opening matter?");
    assert!(first.rationale.contains("3.0-second edit"));
}

#[test]
fn a_source_range_is_fingerprinted_byte_by_byte() {
    let range = TimeRange::new(1_000_000, 4_000_000).unwrap();
    let mut digest = Sha256::new();
    digest.update(b"soundar-video-source-range-v1\0source-1\0");
    digest.update(1_000_000i64.to_be_bytes());
    digest.update(4_000_000i64.to_be_bytes());
    digest.update(b"\0segment-000000\0segment-000001");
    let ids = vec!["segment-000000".to_string(), "segment-000001".to_string()];
    assert_eq!(source_range_fingerprint("source-1", range, &ids), format!("{:x}", digest.finalize()));
}

#[test]
fn an_unusable_policy_is_refused() {
    let transcript = transcript_from_runtime_json(&evidence(), &transcript_request()).unwrap();
    let policy = CandidatePolicy { maximum_candidates: 0, ..CandidatePolicy::default() };
    let error = identify_clip_candidates(&transcript, &policy, &vec![]).unwrap_err();
    assert_eq!(error.code, VideoErrorCode::InvalidCandidate);
}

#[test]
fn planned_scenes_follow_one_another_with_the_pause_between_them() {
    let transcript = transcript_from_runtime_json(&evidence(), &transcript_request()).unwrap();
    let policy = CandidatePolicy {
        minimum_duration_us: Microseconds(2_000_000),
        target_duration_us: Microseconds(5_000_000),
        maximum_duration_us: Microseconds(8_000_000),
        maximum_candidates: 10,
    };
    let analysis = identify_clip_candidates(&transcript, &policy, &vec![]).unwrap();
    let mut manifest = manifest_with_transcript(transcript);
    manifest.candidates = analysis.candidates;
    let request = ScenePlanRequest {
        selected_candidate_ids: manifest.candidates.iter().map(|candidate| candidate.id.clone()).collect(),
        caption_style_id: "caption-calm".into(),
        inter_scene_gap_us: Microseconds(250_000),
    };
    let plan = plan_reviewed_timeline(&manifest, &request).unwrap();
    let first = &plan.reviewed_scenes[0];
    let second = &plan.reviewed_scenes[1];
    assert_eq!(first.timeline_start_us, Microseconds(0));
    assert_eq!(
        second.timeline_start_us.0,
        first.timeline_start_us.0 + first.timeline_duration_us.0 + 250_000
    );
    assert_eq!(plan.timeline_duration_us.0, second.timeline_start_us.0 + second.timeline_duration_us.0);

    let nothing = ScenePlanRequest { selected_candidate_ids: vec!["candidate-unknown".into()], ..request };
    assert_eq!(plan_reviewed_timeline(&manifest, &nothing).unwrap_err().code, VideoErrorCode::MissingReference);
}
