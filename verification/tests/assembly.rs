//! Captions, subtitle documents and render plans.

use soundar_video::assembly::{build_timeline_render_plan, VideoEncoder};
use soundar_video::canvas::{AssemblyOptions, PortraitLayout, RenderProfile};
use soundar_video::caption_pages::{caption_line_breaks, paginate_caption_tokens};
use soundar_video::caption_presets::{ass_color_to_css, caption_preset, present_caption_presets, CaptionTheme};
use soundar_video::captions::{timed_caption_tokens, weighted_ranges};
use soundar_video::error::VideoErrorCode;
use soundar_video::inputs::{MediaInput, ResolvedMedia};
use soundar_video::manifest::{
    AudioMix, AudioMixTrack, CanvasMode, CanvasSpec, CaptionCue, CastDelivery, CastMember, DialogueTurn, GapReason,
    LayoutElement, LayoutPlan, LayoutRole,
    MediaProbe, MediaReference, NormalizedRect, Provenance, ProvenanceKind, ReviewState, ReviewedScene, SourceAsset,
    SourceAssetKind, TimelineClip, TimelineGap, TimelineTrack, TrackKind, TranscriptSegment, TranscriptTimingSource,
    TranscriptVersion, TranscriptWord, VideoProjectManifest, VisualAsset, VisualEasing, VisualFit, VisualLayer,
    VisualMimeType, VisualMotion,
};
use soundar_video::preview::{plan_caption_preview_pages, CaptionPreviewPage};
use soundar_video::subtitles::build_ass_document;
use soundar_video::time::{Microseconds, RationalFrameRate, RationalRate, TimeRange};
use soundar_video::validate::CaptionPresetId;

#[test]
fn ass_colours_become_css_with_inverted_alpha() {
    // ASS stores &HAABBGGRR: channels reversed, and alpha is transparency, so 00 is opaque.
    assert_eq!(
        ass_color_to_css("&H00FFFFFF"),
        Some("rgba(255, 255, 255, 1.000)".to_string())
    );
    assert_eq!(
        ass_color_to_css("&H003DD9FF"),
        Some("rgba(255, 217, 61, 1.000)".to_string())
    );
    assert_eq!(
        ass_color_to_css("&H50000000"),
        Some("rgba(0, 0, 0, 0.686)".to_string())
    );
    assert_eq!(
        ass_color_to_css("&HFF000000"),
        Some("rgba(0, 0, 0, 0.000)".to_string())
    );
    assert_eq!(ass_color_to_css("not-a-colour"), None);
}

#[test]
fn every_preset_is_presented_with_a_renderable_web_spec() {
    let presets = present_caption_presets();
    assert_eq!(presets.len(), CaptionPresetId::all().len());
    for (preset, id) in presets.iter().zip(CaptionPresetId::all()) {
        assert_eq!(preset.id, id.public_id());
        assert!(!preset.label.is_empty());
        assert!(preset
            .text_color
            .as_deref()
            .is_some_and(|c| c.starts_with("rgba(")));
        assert!(preset
            .active_color
            .as_deref()
            .is_some_and(|c| c.starts_with("rgba(")));
        let size = f64::from(preset.relative_size_milli) / 1_000.0;
        assert!((0.02..0.10).contains(&size), "{id:?} size {size}");
        assert!(["page", "active-word", "karaoke", "typewriter"].contains(&preset.reveal.as_str()));
        assert!(["as-is", "upper", "lower"].contains(&preset.casing.as_str()));
    }
}

#[test]
fn only_opaque_box_presets_carry_a_background() {
    let presets = present_caption_presets();
    let background = |id: &str| {
        presets
            .iter()
            .find(|preset| preset.id == id)
            .expect("preset")
            .background_color
            .clone()
    };
    // The renderer paints the back colour only in opaque-box mode. Presets that draw an outline
    // instead must not grow a pill in the preview that the export never renders.
    assert_ne!(background("typewriter"), None);
    assert_ne!(background("podcast"), None);
    for outlined in [
        "clean-white",
        "calm",
        "kinetic",
        "bold-pop",
        "highlight",
        "karaoke",
    ] {
        assert_eq!(background(outlined), None, "{outlined} must not paint a box");
    }
}

#[test]
fn presets_that_emphasise_words_expose_a_distinct_active_colour() {
    let presets = present_caption_presets();
    for preset in presets.iter().filter(|preset| preset.reveal != "page") {
        if preset.reveal == "typewriter" {
            continue;
        }
        assert_ne!(
            preset.active_color, preset.text_color,
            "{} reveals words but cannot show which one is active",
            preset.id
        );
    }
}

/// Where captions stand that the layout does not place.
fn default_bounds() -> NormalizedRect {
    NormalizedRect {
        x_bp: 500,
        y_bp: 7_000,
        width_bp: 9_000,
        height_bp: 2_000,
    }
}

/// A media file that was found and may be read.
fn opened(id: &str) -> ResolvedMedia {
    ResolvedMedia {
        id: id.into(),
        unopened: None,
        is_file: true,
        input: MediaInput::Allowed(vec!["-i".into(), format!("/media/{id}.mp4")]),
    }
}

fn timestamp() -> String {
    "2026-08-27T20:00:00.000Z".into()
}

fn fixture_manifest() -> VideoProjectManifest {
    let mut manifest = VideoProjectManifest::new(
        "assembly-project",
        "Assembly fixture",
        RationalFrameRate::fps_30(),
        Microseconds(1_000_000),
        LayoutPlan {
            mode: CanvasMode::Portrait,
            canvas: CanvasSpec {
                width: 1080,
                height: 1920,
                pixel_aspect_numerator: 1,
                pixel_aspect_denominator: 1,
            },
            safe_area: NormalizedRect {
                x_bp: 500,
                y_bp: 500,
                width_bp: 9_000,
                height_bp: 9_000,
            },
            background_rgba: [24, 24, 24, 255],
            elements: vec![],
        },
        AudioMix {
            target_lufs_milli: -14_000,
            true_peak_db_milli: -1_000,
            tracks: vec![],
        },
        &timestamp(),
    )
    .unwrap();
    manifest.source_assets.push(SourceAsset {
        id: "source-1".into(),
        kind: SourceAssetKind::LocalVideo,
        managed_path: "source.mp4".into(),
        sha256: "a".repeat(64),
        probe: MediaProbe {
            duration_us: Microseconds(1_000_000),
            width: Some(320),
            height: Some(180),
            frame_rate: Some(RationalFrameRate::fps_30()),
            has_video: true,
            has_audio: true,
            format_name: "mov,mp4".into(),
        },
        provenance: Provenance {
            kind: ProvenanceKind::UserUpload,
            original_uri: None,
            imported_at: timestamp(),
            producer: "assembly-test".into(),
            producer_version: None,
            metadata: Vec::new(),
        },
        rights_confirmation_id: None,
    });
    manifest.reviewed_scenes.push(ReviewedScene {
        id: "scene-1".into(),
        candidate_id: None,
        source_asset_id: Some("source-1".into()),
        source_range: Some(TimeRange::new(0, 1_000_000).unwrap()),
        timeline_start_us: Microseconds::zero(),
        timeline_duration_us: Microseconds(1_000_000),
        title: "A clear opening".into(),
        script: "A clear opening matters.".into(),
        review_state: ReviewState::Approved,
        revision: 1,
    });
    let make_clip = |id: &str| TimelineClip {
        id: id.into(),
        scene_id: Some("scene-1".into()),
        turn_id: None,
        media: MediaReference {
            source_asset_id: Some("source-1".into()),
            render_artifact_id: None,
        },
        source_range: TimeRange::new(0, 1_000_000).unwrap(),
        timeline_start_us: Microseconds::zero(),
        timeline_duration_us: Microseconds(1_000_000),
        playback_rate: RationalRate::one(),
        gain_db_milli: 0,
        muted: false,
        crop: None,
    };
    manifest.tracks = vec![
        TimelineTrack {
            id: "video-main".into(),
            kind: TrackKind::Video,
            clips: vec![make_clip("video-clip")],
            preserve_gaps: true,
        },
        TimelineTrack {
            id: "audio-main".into(),
            kind: TrackKind::Audio,
            clips: vec![make_clip("audio-clip")],
            preserve_gaps: true,
        },
    ];
    manifest.audio_mix.tracks.push(AudioMixTrack {
        track_id: "audio-main".into(),
        gain_db_milli: 0,
        pan_milli: 0,
        ducking: None,
    });
    manifest.captions.push(CaptionCue {
        id: "caption-1".into(),
        range: TimeRange::new(100_000, 900_000).unwrap(),
        text: "A clear {opening}, safely.".into(),
        style_id: "clean-white".into(),
        speaker_id: Some("Host".into()),
        transcript_segment_id: None,
        scene_id: Some("scene-1".into()),
    });
    manifest.validate_strict().unwrap();
    manifest
}

fn canonical_timeline_fixture() -> VideoProjectManifest {
    let mut manifest = VideoProjectManifest::new(
        "canonical-assembly-project",
        "Canonical assembly fixture",
        RationalFrameRate::fps_30(),
        Microseconds(2_250_000),
        LayoutPlan {
            mode: CanvasMode::Custom,
            canvas: CanvasSpec {
                width: 320,
                height: 240,
                pixel_aspect_numerator: 1,
                pixel_aspect_denominator: 1,
            },
            safe_area: NormalizedRect {
                x_bp: 500,
                y_bp: 500,
                width_bp: 9_000,
                height_bp: 9_000,
            },
            background_rgba: [16, 32, 48, 255],
            elements: vec![],
        },
        AudioMix {
            target_lufs_milli: -14_000,
            true_peak_db_milli: -1_000,
            tracks: vec![],
        },
        &timestamp(),
    )
    .unwrap();
    manifest.source_assets.push(SourceAsset {
        id: "source-canonical".into(),
        kind: SourceAssetKind::LocalVideo,
        managed_path: "source.mp4".into(),
        sha256: "d".repeat(64),
        probe: MediaProbe {
            duration_us: Microseconds(3_000_000),
            width: Some(640),
            height: Some(360),
            frame_rate: Some(RationalFrameRate::fps_30()),
            has_video: true,
            has_audio: true,
            format_name: "mov,mp4".into(),
        },
        provenance: Provenance {
            kind: ProvenanceKind::UserUpload,
            original_uri: None,
            imported_at: timestamp(),
            producer: "assembly-test".into(),
            producer_version: None,
            metadata: Vec::new(),
        },
        rights_confirmation_id: None,
    });
    manifest.reviewed_scenes = vec![
        ReviewedScene {
            id: "scene-fast".into(),
            candidate_id: None,
            source_asset_id: Some("source-canonical".into()),
            source_range: Some(TimeRange::new(0, 2_000_000).unwrap()),
            timeline_start_us: Microseconds::zero(),
            timeline_duration_us: Microseconds(1_000_000),
            title: "Fast cropped opening".into(),
            script: "Metadata for the title card only.".into(),
            review_state: ReviewState::Approved,
            revision: 1,
        },
        ReviewedScene {
            id: "scene-normal".into(),
            candidate_id: None,
            source_asset_id: Some("source-canonical".into()),
            source_range: Some(TimeRange::new(2_000_000, 3_000_000).unwrap()),
            timeline_start_us: Microseconds(1_250_000),
            timeline_duration_us: Microseconds(1_000_000),
            title: "Normal close".into(),
            script: "Second title metadata.".into(),
            review_state: ReviewState::Approved,
            revision: 1,
        },
    ];
    let make_clip = |id: &str,
                     scene_id: &str,
                     source_start: i64,
                     source_end: i64,
                     timeline_start: i64,
                     timeline_duration: i64,
                     playback_rate: RationalRate,
                     gain_db_milli: i32,
                     crop: Option<NormalizedRect>| TimelineClip {
        id: id.into(),
        scene_id: Some(scene_id.into()),
        turn_id: None,
        media: MediaReference {
            source_asset_id: Some("source-canonical".into()),
            render_artifact_id: None,
        },
        source_range: TimeRange::new(source_start, source_end).unwrap(),
        timeline_start_us: Microseconds(timeline_start),
        timeline_duration_us: Microseconds(timeline_duration),
        playback_rate,
        gain_db_milli,
        muted: false,
        crop,
    };
    let fast_rate = RationalRate {
        numerator: 2,
        denominator: 1,
    };
    let center_crop = Some(NormalizedRect {
        x_bp: 2_500,
        y_bp: 0,
        width_bp: 5_000,
        height_bp: 10_000,
    });
    manifest.tracks = vec![
        TimelineTrack {
            id: "video-main".into(),
            kind: TrackKind::Video,
            clips: vec![
                make_clip(
                    "video-fast",
                    "scene-fast",
                    0,
                    2_000_000,
                    0,
                    1_000_000,
                    fast_rate,
                    0,
                    center_crop,
                ),
                make_clip(
                    "video-normal",
                    "scene-normal",
                    2_000_000,
                    3_000_000,
                    1_250_000,
                    1_000_000,
                    RationalRate::one(),
                    0,
                    None,
                ),
            ],
            preserve_gaps: true,
        },
        TimelineTrack {
            id: "audio-main".into(),
            kind: TrackKind::Audio,
            clips: vec![
                make_clip(
                    "audio-fast",
                    "scene-fast",
                    0,
                    2_000_000,
                    0,
                    1_000_000,
                    fast_rate,
                    -6_000,
                    None,
                ),
                make_clip(
                    "audio-normal",
                    "scene-normal",
                    2_000_000,
                    3_000_000,
                    1_250_000,
                    1_000_000,
                    RationalRate::one(),
                    0,
                    None,
                ),
            ],
            preserve_gaps: true,
        },
    ];
    manifest.gaps = vec![
        TimelineGap {
            id: "gap-video".into(),
            track_id: "video-main".into(),
            range: TimeRange::new(1_000_000, 1_250_000).unwrap(),
            reason: GapReason::Transition,
            source_asset_id: None,
            source_range: None,
        },
        TimelineGap {
            id: "gap-audio".into(),
            track_id: "audio-main".into(),
            range: TimeRange::new(1_000_000, 1_250_000).unwrap(),
            reason: GapReason::Editorial,
            source_asset_id: None,
            source_range: None,
        },
    ];
    manifest.audio_mix.tracks.push(AudioMixTrack {
        track_id: "audio-main".into(),
        gain_db_milli: -3_000,
        pan_milli: 0,
        ducking: None,
    });
    manifest.validate_strict().unwrap();
    manifest
}

#[test]
fn ass_document_escapes_text_and_uses_timeline_clock() {
    let manifest = fixture_manifest();
    let document = build_ass_document(&manifest, &AssemblyOptions::default(), default_bounds()).unwrap();
    assert!(document.contains("0:00:00.10"));
    assert!(document.contains(r"\{opening\}"));
    assert!(document.contains("Style: Speaker"));
    assert!(document.contains("0:00:00.10,0:00:00.90,Speaker"));
}

#[test]
fn every_curated_caption_preset_has_one_distinct_ass_style_and_round_trips() {
    let mut manifest = fixture_manifest();
    let mut style_lines = std::collections::BTreeSet::new();

    for id in CaptionPresetId::all() {
        manifest.captions[0].style_id = id.manifest_id().into();
        let document = build_ass_document(&manifest, &AssemblyOptions::default(), default_bounds()).unwrap();
        let preset = caption_preset(id);
        assert_eq!(
            document
                .lines()
                .filter(|line| line.starts_with(&format!("Style: {},", preset.ass_name)))
                .count(),
            1,
            "{} must be emitted exactly once",
            id.public_id()
        );
        assert!(document.lines().any(|line| {
            line.starts_with("Dialogue: 10,") && line.split(',').nth(3) == Some(preset.ass_name)
        }));
        style_lines.insert(
            document
                .lines()
                .find(|line| line.starts_with(&format!("Style: {},", preset.ass_name)))
                .unwrap()
                .to_string(),
        );
    }
    assert_eq!(style_lines.len(), CaptionPresetId::all().len());
}

#[test]
fn mixed_per_cue_styles_render_without_a_global_theme_override() {
    let mut manifest = fixture_manifest();
    manifest.captions[0].range = TimeRange::new(100_000, 480_000).unwrap();
    manifest.captions[0].text = "FIRST IDEA".into();
    manifest.captions[0].style_id = "caption-bold-pop".into();
    let mut second = manifest.captions[0].clone();
    second.id = "caption-2".into();
    second.range = TimeRange::new(480_000, 900_000).unwrap();
    second.text = "a measured response".into();
    second.style_id = "caption-podcast".into();
    manifest.captions.push(second);
    manifest.validate_strict().unwrap();

    let document = build_ass_document(
        &manifest,
        &AssemblyOptions {
            caption_theme: CaptionTheme::Kinetic,
            ..AssemblyOptions::default()
        },
        default_bounds(),
    )
    .unwrap();
    assert!(document.contains(",CaptionBoldPop,Host,"));
    assert!(document.contains(",CaptionPodcast,Host,"));
    assert!(!document.contains("Style: Caption,"));
}

#[test]
fn long_caption_text_pages_within_bounds_and_never_exceeds_line_limits() {
    let mut manifest = fixture_manifest();
    manifest.captions[0].range = TimeRange::new(20_000, 980_000).unwrap();
    manifest.captions[0].style_id = "caption-podcast".into();
    manifest.captions[0].text = "One thoughtful question can open a conversation, reveal an overlooked detail, connect an earlier idea, and leave the audience with a clear next step. extraordinarilylongunbrokenidentifierthatmustneverescape".into();
    let caption = manifest.captions[0].clone();
    let preset = caption_preset(CaptionPresetId::Podcast);
    let tokens = timed_caption_tokens(&manifest, &caption, &preset).unwrap();
    let pages = paginate_caption_tokens(&tokens, caption.range, preset.paging).unwrap();
    assert!(pages.len() >= 3);
    assert_eq!(pages.first().unwrap().start_us, caption.range.start_us);
    assert_eq!(pages.last().unwrap().end_us, caption.range.end_us);
    for pair in pages.windows(2) {
        assert_eq!(pair[0].end_us, pair[1].start_us);
        assert!(pair[0].end_us > pair[0].start_us);
    }
    for page in &pages {
        let breaks = caption_line_breaks(&page.tokens, preset.paging).unwrap();
        assert!(breaks.iter().filter(|value| **value).count() < 2);
        let mut line_chars = 0;
        for (index, token) in page.tokens.iter().enumerate() {
            if breaks[index] {
                assert!(line_chars <= preset.paging.max_chars_per_line);
                line_chars = token.text.chars().count();
            } else {
                line_chars +=
                    usize::from(index > 0 && token.space_before) + token.text.chars().count();
            }
        }
        assert!(line_chars <= preset.paging.max_chars_per_line);
    }
    let document = build_ass_document(&manifest, &AssemblyOptions::default(), default_bounds()).unwrap();
    assert!(document.matches(",CaptionPodcast,Host,").count() >= pages.len());
}

#[test]
fn exact_source_words_drive_active_timing_and_mismatch_uses_bounded_fallback() {
    let mut manifest = fixture_manifest();
    manifest.transcript = Some(TranscriptVersion {
        id: "transcript-1".into(),
        source_asset_id: "source-1".into(),
        source_clock_duration_us: Microseconds(1_000_000),
        language: Some("en".into()),
        timing_source: TranscriptTimingSource::Manual,
        preserved_source_gaps: true,
        segments: vec![TranscriptSegment {
            id: "segment-1".into(),
            range: TimeRange::new(100_000, 900_000).unwrap(),
            text: "Hello world".into(),
            speaker_id: Some("Host".into()),
            word_ids: vec!["word-1".into(), "word-2".into()],
        }],
        words: vec![
            TranscriptWord {
                id: "word-1".into(),
                range: TimeRange::new(200_000, 320_000).unwrap(),
                text: "Hello".into(),
                speaker_id: Some("Host".into()),
                confidence_milli: Some(990),
            },
            TranscriptWord {
                id: "word-2".into(),
                range: TimeRange::new(500_000, 650_000).unwrap(),
                text: "world".into(),
                speaker_id: Some("Host".into()),
                confidence_milli: Some(980),
            },
        ],
        content_sha256: "e".repeat(64),
        created_at: timestamp(),
    });
    manifest.captions[0].range = TimeRange::new(100_000, 900_000).unwrap();
    manifest.captions[0].text = "Hello world".into();
    manifest.captions[0].style_id = "caption-highlight".into();
    manifest.captions[0].transcript_segment_id = Some("segment-1".into());
    manifest.validate_strict().unwrap();

    let preset = caption_preset(CaptionPresetId::Highlight);
    let exact = timed_caption_tokens(&manifest, &manifest.captions[0], &preset).unwrap();
    assert_eq!(exact[0].start_us, Microseconds(200_000));
    assert_eq!(exact[0].end_us, Microseconds(320_000));
    assert_eq!(exact[1].start_us, Microseconds(500_000));
    assert_eq!(exact[1].end_us, Microseconds(650_000));
    let document = build_ass_document(&manifest, &AssemblyOptions::default(), default_bounds()).unwrap();
    assert!(document.contains("0:00:00.20,0:00:00.32,CaptionHighlight"));
    assert!(document.contains("0:00:00.50,0:00:00.65,CaptionHighlight"));

    manifest.captions[0].text = "Hello brave world".into();
    let fallback = timed_caption_tokens(&manifest, &manifest.captions[0], &preset).unwrap();
    assert_eq!(fallback.first().unwrap().start_us, Microseconds(100_000));
    assert_eq!(fallback.last().unwrap().end_us, Microseconds(900_000));
    assert!(fallback
        .windows(2)
        .all(|pair| pair[0].end_us == pair[1].start_us));
    assert!(fallback.iter().all(|token| {
        token.start_us >= manifest.captions[0].range.start_us
            && token.end_us <= manifest.captions[0].range.end_us
            && token.end_us > token.start_us
    }));
}

#[test]
fn caption_geometry_is_authoritative_without_changing_page_or_word_clocks() {
    let mut manifest = fixture_manifest();
    manifest.captions[0].style_id = "caption-karaoke".into();

    let default_pages = plan_caption_preview_pages(&manifest, default_bounds()).unwrap();
    let expected_default = default_bounds();
    assert!(default_pages
        .iter()
        .all(|page| page.bounds == expected_default));
    let default_document = build_ass_document(&manifest, &AssemblyOptions::default(), default_bounds()).unwrap();

    let moved = NormalizedRect {
        x_bp: 100,
        y_bp: 100,
        width_bp: 3_000,
        height_bp: 1_200,
    };
    manifest.layout.elements.push(LayoutElement {
        id: "caption-layout-scene-1".into(),
        role: LayoutRole::Captions,
        scene_id: Some("scene-1".into()),
        bounds: moved,
        z_index: 100,
        style_id: None,
    });
    manifest.validate_strict().unwrap();
    let moved_pages = plan_caption_preview_pages(&manifest, default_bounds()).unwrap();
    assert!(moved_pages.iter().all(|page| page.bounds == moved));
    assert_ne!(
        moved_pages[0].font_size_bp, default_pages[0].font_size_bp,
        "resize must bind the authoritative font size"
    );
    let page_clock = |pages: &[CaptionPreviewPage]| {
        pages
            .iter()
            .map(|page| {
                (
                    page.id.clone(),
                    page.start_us,
                    page.end_us,
                    page.text.clone(),
                    page.words
                        .iter()
                        .map(|word| (word.text.clone(), word.start_us, word.end_us))
                        .collect::<Vec<_>>(),
                )
            })
            .collect::<Vec<_>>()
    };
    assert_eq!(page_clock(&default_pages), page_clock(&moved_pages));

    let moved_document = build_ass_document(&manifest, &AssemblyOptions::default(), default_bounds()).unwrap();
    // Preview is 720x1280: center (1600,700) basis points maps to (115,90).
    assert!(moved_document.contains(r"{\an5\pos(115,90)\fs"));
    let event_clock = |document: &str| {
        document
            .lines()
            .filter(|line| line.starts_with("Dialogue: 10,"))
            .map(|line| line.splitn(6, ',').take(5).collect::<Vec<_>>().join(","))
            .collect::<Vec<_>>()
    };
    assert_eq!(event_clock(&default_document), event_clock(&moved_document));
}

#[test]
fn assembly_plan_is_shell_free_and_has_software_fallback() {
    let manifest = fixture_manifest();
    let sources = vec![opened("source-1")];
    let plan = build_timeline_render_plan(
        "/usr/bin/ffmpeg",
        &manifest,
        &sources,
        &None,
        "/renders/output.mp4",
        &AssemblyOptions::default(),
        true,
    )
    .unwrap();
    assert_eq!(plan.primary.encoder, VideoEncoder::H264Nvenc);
    assert_eq!(
        plan.software_fallback.as_ref().unwrap().encoder,
        VideoEncoder::Libx264
    );
    assert!(!plan
        .primary
        .args
        .iter()
        .any(|arg| arg == "sh" || arg == "-c"));
}

#[test]
fn explicit_silent_audio_track_does_not_fall_back_to_embedded_source_audio() {
    let mut manifest = fixture_manifest();
    manifest.tracks[1].clips.clear();
    manifest.gaps.push(TimelineGap {
        id: "gap-audio-full".into(),
        track_id: "audio-main".into(),
        range: TimeRange::new(0, 1_000_000).unwrap(),
        reason: GapReason::Editorial,
        source_asset_id: None,
        source_range: None,
    });
    manifest.validate_strict().unwrap();
    let plan = build_timeline_render_plan(
        "/usr/bin/ffmpeg",
        &manifest,
        &vec![opened("source-1")],
        &None,
        "/renders/output.mp4",
        &AssemblyOptions::default(),
        false,
    )
    .unwrap();
    let filter = plan
        .primary
        .args
        .windows(2)
        .find(|pair| pair[0] == "-filter_complex")
        .map(|pair| pair[1].clone())
        .unwrap();
    assert!(!filter.contains(":a:0]"));
    assert!(filter.contains("anullsrc=r=48000:cl=stereo"));
}

#[test]
fn audio_only_canonical_timeline_keeps_the_podcast_waveform_visual() {
    let mut manifest = fixture_manifest();
    manifest.tracks.remove(0);
    manifest.validate_strict().unwrap();
    let plan = build_timeline_render_plan(
        "/usr/bin/ffmpeg",
        &manifest,
        &vec![opened("source-1")],
        &None,
        "/renders/output.mp4",
        &AssemblyOptions::default(),
        false,
    )
    .unwrap();
    let filter = plan
        .primary
        .args
        .windows(2)
        .find(|pair| pair[0] == "-filter_complex")
        .map(|pair| pair[1].clone())
        .unwrap();
    assert!(filter.contains("showwaves="));
    assert!(filter.contains("asplit=2[waveform_audio][audio_for_master]"));
}


/// The filter graph of a plan's first command.
fn filter_graph(args: &[String]) -> String {
    args.windows(2)
        .find(|pair| pair[0] == "-filter_complex")
        .map(|pair| pair[1].clone())
        .unwrap()
}

#[test]
fn a_still_visual_layer_is_animated_on_the_canonical_clock() {
    let mut manifest = fixture_manifest();
    manifest.visual_assets.push(VisualAsset {
        id: "visual-illustration".into(),
        managed_path: "illustration.png".into(),
        sha256: "b".repeat(64),
        mime_type: VisualMimeType::Png,
        width: 128,
        height: 128,
        has_alpha: false,
        size_bytes: 2_048,
        provenance: Provenance {
            kind: ProvenanceKind::GeneratedLocally,
            original_uri: None,
            imported_at: timestamp(),
            producer: "assembly-test-image-generator".into(),
            producer_version: Some("1".into()),
            metadata: Vec::new(),
        },
        created_at: timestamp(),
    });
    manifest.visual_layers.push(VisualLayer {
        id: "layer-illustration".into(),
        asset_id: "visual-illustration".into(),
        scene_id: Some("scene-1".into()),
        range: TimeRange::new(0, 1_000_000).unwrap(),
        fit: VisualFit::Cover,
        crop: None,
        z_index: 10,
        motion: VisualMotion {
            start_bounds: NormalizedRect {
                x_bp: 500,
                y_bp: 500,
                width_bp: 2_000,
                height_bp: 2_000,
            },
            end_bounds: NormalizedRect {
                x_bp: 6_000,
                y_bp: 7_000,
                width_bp: 3_000,
                height_bp: 3_000,
            },
            start_opacity_milli: 1_000,
            end_opacity_milli: 1_000,
            start_rotation_milli_degrees: 0,
            end_rotation_milli_degrees: 0,
            easing: VisualEasing::EaseInOut,
        },
        transition_in_us: Microseconds(100_000),
        transition_out_us: Microseconds(100_000),
    });
    manifest.validate_strict().unwrap();
    let plan = build_timeline_render_plan(
        "/usr/bin/ffmpeg",
        &manifest,
        &vec![opened("source:source-1"), opened("visual:visual-illustration")],
        &None,
        "/renders/output.mp4",
        &AssemblyOptions {
            profile: RenderProfile::Preview,
            burn_captions: false,
            ..AssemblyOptions::default()
        },
        false,
    )
    .unwrap();
    let filter = filter_graph(&plan.primary.args);
    assert!(filter.contains("visual_source_0"));
    assert!(filter.contains("scale=w='max(2,trunc"));
    assert!(filter.contains("overlay=x='"));
    assert!(filter.contains("fade=t=in"));
    assert!(filter.contains("fade=t=out"));
    // The picture is the third input, behind both clips.
    assert!(filter.contains("[2:v:0]format=rgba,scale=w=144:h=256:force_original_aspect_ratio=increase"));
    assert!(filter.contains("fade=t=out:st=0.900000:d=0.100000:alpha=1[visual_animated_0]"));
    assert!(filter.contains("colorchannelmixer=aa=1.000,"));
}

#[test]
fn captions_are_placed_and_burned_where_the_layout_puts_them() {
    let mut manifest = fixture_manifest();
    manifest.captions[0].style_id = "caption-karaoke".into();
    manifest.layout.elements.push(LayoutElement {
        id: "caption-layout-smoke".into(),
        role: LayoutRole::Captions,
        scene_id: Some("scene-1".into()),
        bounds: NormalizedRect {
            x_bp: 1_000,
            y_bp: 1_200,
            width_bp: 4_000,
            height_bp: 1_000,
        },
        z_index: 100,
        style_id: None,
    });
    let options = AssemblyOptions {
        profile: RenderProfile::Proxy,
        portrait_layout: PortraitLayout::Contain,
        caption_theme: CaptionTheme::Calm,
        ..AssemblyOptions::default()
    };
    let document = build_ass_document(&manifest, &options, default_bounds()).unwrap();
    // Proxy is 540x960: center (3000,1700) basis points maps to (162,163).
    assert!(document.contains(r"{\an5\pos(162,163)\fs"));
    let plan = build_timeline_render_plan(
        "/usr/bin/ffmpeg",
        &manifest,
        &vec![opened("source-1")],
        &Some("/renders/it's [one]: captions.ass".into()),
        "/renders/assembled.mp4",
        &options,
        false,
    )
    .unwrap();
    let filter = filter_graph(&plan.primary.args);
    assert!(filter.contains(r"subtitles=filename='/renders/it\'s \[one\]\: captions.ass'[video_output]"));
    assert!(filter.contains("loudnorm=I=-14.0:TP=-1.0:LRA=11[audio_output]"));
    assert_eq!(plan.primary.args.last().unwrap(), "/renders/assembled.mp4");
    assert!(plan.software_fallback.is_none());
}

#[test]
fn canonical_tracks_keep_gap_crop_rate_gain_and_custom_canvas() {
    let manifest = canonical_timeline_fixture();
    let options = AssemblyOptions {
        profile: RenderProfile::Proxy,
        portrait_layout: PortraitLayout::Contain,
        burn_captions: false,
        ..AssemblyOptions::default()
    };
    let plan = build_timeline_render_plan(
        "/usr/bin/ffmpeg",
        &manifest,
        &vec![opened("source:source-canonical")],
        &None,
        "/renders/canonical.mp4",
        &options,
        false,
    )
    .unwrap();
    let filter = filter_graph(&plan.primary.args);
    assert!(filter.contains("setpts=(PTS-STARTPTS)*1/2"));
    assert!(filter.contains("crop=w='max(2\\,trunc(iw*5000/20000)*2)'"));
    assert!(filter.contains("d=0.250000"));
    assert!(filter.contains("volume=-6.000dB"));
    assert!(filter.contains("volume=-3.000dB"));
    assert!(filter.contains("pad=320:240"));
    assert!(filter.contains("atempo=2.00000000,"));
    assert!(filter.contains("color=c=0x102030:s=320x240:r=30/1:d=0.250000[vseg1]"));
}

#[test]
fn uppercase_presets_say_their_words_in_capitals() {
    let shouting = CaptionPresetId::all()
        .into_iter()
        .find(|id| caption_preset(*id).uppercase)
        .unwrap();
    let mut manifest = fixture_manifest();
    manifest.captions[0].text = "Stra\u{df}e f\u{fc}r alle".into();
    manifest.captions[0].style_id = shouting.manifest_id().into();
    let pages = plan_caption_preview_pages(&manifest, default_bounds()).unwrap();
    let spoken: Vec<String> =
        pages.iter().flat_map(|page| page.words.iter().map(|word| word.text.clone())).collect();
    assert_eq!(spoken.join(" "), "STRASSE F\u{dc}R ALLE");
}

#[test]
fn preview_pages_fill_their_cue_and_keep_to_their_lines() {
    for id in CaptionPresetId::all() {
        let mut manifest = fixture_manifest();
        manifest.captions[0].text = "one two three four five six seven eight nine ten eleven twelve".into();
        manifest.captions[0].style_id = id.manifest_id().into();
        let pages = plan_caption_preview_pages(&manifest, default_bounds()).unwrap();
        assert_eq!(pages[0].start_us, Microseconds(100_000));
        assert_eq!(pages.last().unwrap().end_us, Microseconds(900_000));
        for pair in pages.windows(2) {
            assert_eq!(pair[0].end_us, pair[1].start_us);
        }
        let words: usize = pages.iter().map(|page| page.words.len()).sum();
        assert_eq!(words, 12);
        for page in &pages {
            assert!(page.words.len() <= caption_preset(id).paging.max_words);
        }
    }
}

#[test]
fn a_hardware_plan_falls_back_on_the_software_plan() {
    let manifest = fixture_manifest();
    let plan = |hardware: bool| {
        build_timeline_render_plan(
            "/usr/bin/ffmpeg",
            &manifest,
            &vec![opened("source-1")],
            &None,
            "/out/video.mp4",
            &AssemblyOptions::default(),
            hardware,
        )
        .unwrap()
    };
    let hardware = plan(true);
    let software = plan(false);
    assert_eq!(hardware.primary.encoder, VideoEncoder::H264Nvenc);
    assert_eq!(hardware.software_fallback, Some(software.primary.clone()));
    assert_eq!(software.primary.encoder, VideoEncoder::Libx264);
    assert_eq!(software.software_fallback, None);
}

#[test]
fn media_that_cannot_be_read_is_refused_by_name() {
    let manifest = fixture_manifest();
    let refuse = |resolved: Vec<ResolvedMedia>| {
        build_timeline_render_plan(
            "/usr/bin/ffmpeg",
            &manifest,
            &resolved,
            &None,
            "/out/video.mp4",
            &AssemblyOptions::default(),
            false,
        )
        .unwrap_err()
    };
    let missing = refuse(vec![]);
    assert_eq!(missing.code, VideoErrorCode::MissingReference);
    assert_eq!(missing.message, "timeline media source-1 has no resolved managed file");
    let unopened = refuse(vec![ResolvedMedia { unopened: Some("gone".into()), ..opened("source-1") }]);
    assert_eq!(unopened.code, VideoErrorCode::InvalidAsset);
    assert_eq!(unopened.message, "timeline media source-1 could not be opened: gone");
    let folder = refuse(vec![ResolvedMedia { is_file: false, ..opened("source-1") }]);
    assert_eq!(folder.message, "timeline media source-1 is not a regular file");
}

#[test]
fn a_range_is_divided_by_weight_without_a_rest() {
    let range = TimeRange::new(100, 1_000).unwrap();
    let parts = weighted_ranges(range, &vec![1, 3, 5]).unwrap();
    assert_eq!(parts[0], TimeRange::new(100, 200).unwrap());
    assert_eq!(parts[1], TimeRange::new(200, 500).unwrap());
    assert_eq!(parts[2], TimeRange::new(500, 1_000).unwrap());
}

#[test]
fn a_weight_of_nothing_is_refused_beside_others() {
    let range = TimeRange::new(100, 1_000).unwrap();
    for weights in [vec![0, 3], vec![3, 0, 5]] {
        assert_eq!(weighted_ranges(range, &weights).unwrap_err().code, VideoErrorCode::InvalidCaption);
    }
    assert_eq!(weighted_ranges(range, &vec![0]).unwrap(), vec![range]);
    assert!(weighted_ranges(range, &vec![]).unwrap().is_empty());
}

#[test]
fn pages_have_no_upper_limit_on_lines_and_characters() {
    let manifest = fixture_manifest();
    let caption = manifest.captions[0].clone();
    let preset = caption_preset(CaptionPresetId::Podcast);
    let tokens = timed_caption_tokens(&manifest, &caption, &preset).unwrap();
    let mut rules = preset.paging;
    rules.max_words = usize::MAX;
    rules.max_lines = 1_000_000;
    rules.max_chars_per_line = 1_000_000;
    rules.break_on_punctuation = false;
    let pages = paginate_caption_tokens(&tokens, caption.range, rules).unwrap();
    assert_eq!(pages.len(), 1);
    assert_eq!(pages[0].tokens.len(), tokens.len());
    assert_eq!(caption_line_breaks(&tokens, rules).unwrap(), vec![false; tokens.len()]);
}

#[test]
fn every_look_is_declared_once_under_every_theme() {
    let mut manifest = fixture_manifest();
    manifest.captions[0].text = "Style: CaptionCalm,\\NStyle: CaptionKaraoke, {x}".into();
    let plain = build_ass_document(&manifest, &AssemblyOptions::default(), default_bounds()).unwrap();
    for caption_theme in [CaptionTheme::CleanWhite, CaptionTheme::Calm, CaptionTheme::Kinetic] {
        let options = AssemblyOptions { caption_theme, ..AssemblyOptions::default() };
        let document = build_ass_document(&manifest, &options, default_bounds()).unwrap();
        for id in CaptionPresetId::all() {
            let start = format!("Style: {},", caption_preset(id).ass_name);
            assert_eq!(document.lines().filter(|line| line.starts_with(&start)).count(), 1);
        }
        assert_eq!(document, plain);
    }
}

#[test]
fn a_card_names_the_last_turn_and_member_of_an_identifier() {
    let mut manifest = fixture_manifest();
    for (character, name) in [("host", "First Host"), ("guest", "First Guest"), ("guest", "Second Guest")] {
        manifest.cast.push(CastMember {
            id: character.into(),
            name: character.into(),
            display_name: name.into(),
            voice_id: "af-heart".into(),
            model_id: "kokoro-82m".into(),
            language: "en-US".into(),
            delivery: CastDelivery::default(),
            consent_reference_id: None,
            notes: None,
            created_at: "2026-01-01T00:00:00Z".into(),
        });
    }
    for character in ["host", "guest"] {
        manifest.dialogue.push(DialogueTurn {
            id: "turn-1".into(),
            scene_id: None,
            order: 0,
            character_id: character.into(),
            text: "One.".into(),
            direction: None,
            source_line: 1,
            revision: 1,
        });
    }
    let track = manifest.tracks.iter_mut().find(|track| track.kind == TrackKind::Audio).unwrap();
    track.clips[0].turn_id = Some("turn-1".into());
    let document = build_ass_document(&manifest, &AssemblyOptions::default(), default_bounds()).unwrap();
    assert!(document.contains(",Speaker,Second Guest,"));
    assert!(!document.contains("First"));
}
