//! What an episode sounds like.

use soundar_video::error::VideoErrorCode;
use soundar_video::listening::{can_be_heard, listen_to_episode, LoudnessMeasurement};
use soundar_video::manifest::{
    AudioMix, CanvasMode, CanvasSpec, CastDelivery, CastMember, CueAnchor, CueRole, DialogueTurn, LayoutPlan,
    MediaReference, MusicCue, NormalizedRect, PublicationState, RenderArtifact, RenderArtifactRole, TimelineClip,
    TimelineTrack, TrackKind, VideoProjectManifest,
};
use soundar_video::time::{Microseconds, RationalFrameRate, RationalRate, TimeRange};

const NOW: &str = "2026-01-01T00:00:00Z";

fn manifest() -> VideoProjectManifest {
    let mut manifest = VideoProjectManifest::new(
        "project-listen",
        "Episode 1",
        RationalFrameRate::fps_30(),
        Microseconds(60_000_000),
        LayoutPlan {
            mode: CanvasMode::Portrait,
            canvas: CanvasSpec {
                width: 1080,
                height: 1920,
                pixel_aspect_numerator: 1,
                pixel_aspect_denominator: 1,
            },
            safe_area: NormalizedRect {
                x_bp: 0,
                y_bp: 0,
                width_bp: 10_000,
                height_bp: 10_000,
            },
            background_rgba: [0, 0, 0, 255],
            elements: Vec::new(),
        },
        AudioMix {
            target_lufs_milli: -16_000,
            true_peak_db_milli: -1_000,
            tracks: Vec::new(),
        },
        NOW,
    )
    .unwrap();
    for (id, name) in [("narrator", "NARRATOR"), ("adaeze", "ADAEZE")] {
        manifest.cast.push(CastMember {
            id: id.into(),
            name: name.into(),
            display_name: format!("{name} display"),
            voice_id: "af-heart".into(),
            model_id: "hexgrad/Kokoro-82M".into(),
            language: "en-US".into(),
            delivery: CastDelivery::default(),
            consent_reference_id: None,
            notes: None,
            created_at: NOW.into(),
        });
    }
    manifest
}

/// `(character, start_us, duration_us, measured)` for each line.
fn perform(manifest: &mut VideoProjectManifest, lines: &[(&str, i64, i64, bool)]) {
    let mut clips = Vec::new();
    for (index, (character, start, duration, measured)) in lines.iter().enumerate() {
        let turn_id = format!("turn-{index}");
        let artifact_id = format!("take-{index}");
        manifest.dialogue.push(DialogueTurn {
            id: turn_id.clone(),
            scene_id: None,
            order: index as u32,
            character_id: (*character).into(),
            text: format!("Line {index}."),
            direction: None,
            source_line: index as u32 + 1,
            revision: 1,
        });
        manifest.render_artifacts.push(RenderArtifact {
            id: artifact_id.clone(),
            role: RenderArtifactRole::SceneSegment,
            scene_id: None,
            managed_path: format!("renders/{artifact_id}.wav"),
            sha256: format!("{index:064}"),
            cache_key: format!("{:064}", index + 700),
            mime_type: "audio/wav".into(),
            duration_us: measured.then_some(Microseconds(*duration)),
            width: None,
            height: None,
            publication_state: PublicationState::Published,
            created_at: NOW.into(),
        });
        clips.push(TimelineClip {
            id: format!("clip-{index}"),
            scene_id: None,
            turn_id: Some(turn_id),
            media: MediaReference {
                source_asset_id: None,
                render_artifact_id: Some(artifact_id),
            },
            source_range: TimeRange::new(0, *duration).unwrap(),
            timeline_start_us: Microseconds(*start),
            timeline_duration_us: Microseconds(*duration),
            playback_rate: RationalRate::one(),
            gain_db_milli: 0,
            muted: false,
            crop: None,
        });
    }
    manifest.tracks.push(TimelineTrack {
        id: "speech".into(),
        kind: TrackKind::Audio,
        clips,
        preserve_gaps: false,
    });
}

#[test]
fn speaking_time_is_measured_from_takes_not_estimated_from_words() {
    let mut manifest = manifest();
    perform(
        &mut manifest,
        &[
            ("narrator", 0, 6_000_000, true),
            ("adaeze", 6_500_000, 2_000_000, true),
        ],
    );
    let heard = listen_to_episode(&manifest, None).unwrap();

    assert_eq!(heard.spoken_us, Microseconds(8_000_000));
    assert_eq!(heard.narrated_turns, 2);
    // The narrator speaks three quarters of the episode despite the shorter line count.
    assert_eq!(heard.speakers[0].character_id, "narrator");
    assert_eq!(heard.speakers[0].share_bp, 7_500);
    assert_eq!(heard.speakers[1].share_bp, 2_500);
    assert_eq!(heard.speakers[0].display_name, "NARRATOR display");
}

#[test]
fn a_line_with_no_measured_take_is_reported_as_unnarrated_rather_than_counted() {
    let mut manifest = manifest();
    perform(
        &mut manifest,
        &[
            ("narrator", 0, 6_000_000, true),
            // Rendered but never measured: it cannot contribute a duration.
            ("adaeze", 6_000_000, 2_000_000, false),
        ],
    );
    let heard = listen_to_episode(&manifest, None).unwrap();
    assert_eq!(heard.narrated_turns, 1);
    assert_eq!(heard.unnarrated_turns, vec!["turn-1".to_string()]);
    assert_eq!(heard.spoken_us, Microseconds(6_000_000));
    assert_eq!(heard.speakers.len(), 1);
}

#[test]
fn the_reported_lead_in_is_the_silence_actually_rendered() {
    let mut manifest = manifest();
    perform(
        &mut manifest,
        &[
            ("narrator", 0, 5_000_000, true),
            ("adaeze", 6_000_000, 2_000_000, true),
            ("narrator", 12_000_000, 3_000_000, true),
        ],
    );
    let heard = listen_to_episode(&manifest, None).unwrap();
    assert_eq!(heard.lines[0].lead_in_us, Microseconds::zero());
    assert_eq!(heard.lines[1].lead_in_us, Microseconds(1_000_000));
    assert_eq!(heard.lines[2].lead_in_us, Microseconds(4_000_000));

    // The median resists one long pause in a way a mean would not.
    assert_eq!(heard.gaps.count, 2);
    assert_eq!(heard.gaps.longest_us, Microseconds(4_000_000));
    assert_eq!(heard.gaps.total_us, Microseconds(5_000_000));
}

#[test]
fn an_unmeasured_master_reports_no_loudness_rather_than_a_guess() {
    let mut manifest = manifest();
    perform(&mut manifest, &[("narrator", 0, 5_000_000, true)]);

    assert!(listen_to_episode(&manifest, None).unwrap().loudness.is_none());

    let measured = LoudnessMeasurement {
        integrated_lufs_milli: -16_100,
        true_peak_db_milli: -1_400,
    };
    let heard = listen_to_episode(&manifest, Some(measured)).unwrap();
    assert_eq!(heard.loudness, Some(measured));
}

#[test]
fn an_unperformed_script_reports_nothing_spoken() {
    let mut manifest = manifest();
    manifest.dialogue.push(DialogueTurn {
        id: "turn-unread".into(),
        scene_id: None,
        order: 0,
        character_id: "narrator".into(),
        text: "Never performed.".into(),
        direction: None,
        source_line: 1,
        revision: 1,
    });
    let heard = listen_to_episode(&manifest, None).unwrap();
    assert_eq!(heard.narrated_turns, 0);
    assert_eq!(heard.spoken_us, Microseconds::zero());
    assert_eq!(heard.unnarrated_turns, vec!["turn-unread".to_string()]);
    assert!(heard.speakers.is_empty());
    assert_eq!(heard.gaps.count, 0);
}

#[test]
fn planned_and_placed_score_are_counted_separately() {
    let mut manifest = manifest();
    perform(&mut manifest, &[("narrator", 0, 5_000_000, true)]);
    for (id, placed) in [("cue-planned", false), ("cue-placed", true)] {
        manifest.music_cues.push(MusicCue {
            id: id.into(),
            role: CueRole::Sting,
            anchor: CueAnchor::Turn {
                turn_id: "turn-0".into(),
            },
            target_duration_us: Microseconds(4_000_000),
            direction: "warm".into(),
            source_asset_id: placed.then(|| "music-one".to_string()),
            track_id: None,
            gain_db_milli: -6_000,
            fade_in_us: Microseconds(200_000),
            fade_out_us: Microseconds(200_000),
            created_at: NOW.into(),
        });
    }
    let heard = listen_to_episode(&manifest, None).unwrap();
    assert_eq!(heard.music_cues_planned, 1);
    assert_eq!(heard.music_cues_placed, 1);
}

#[test]
fn speaking_time_divides_between_the_characters_without_a_rest() {
    let mut manifest = manifest();
    perform(
        &mut manifest,
        &[
            ("narrator", 0, 3_000_000, true),
            ("adaeze", 3_000_000, 1_000_000, true),
            ("narrator", 4_500_000, 2_000_000, true),
        ],
    );
    let heard = listen_to_episode(&manifest, None).unwrap();
    assert_eq!(heard.speakers.iter().map(|share| share.spoken_us.0).sum::<i64>(), heard.spoken_us.0);
    assert_eq!(heard.speakers.iter().map(|share| share.narrated_turns).sum::<usize>(), heard.narrated_turns);
    assert_eq!(heard.speakers[0].share_bp, 8_333);
    assert_eq!(heard.speakers[1].share_bp, 1_666);
    assert_eq!(heard.gaps.median_us, Microseconds(500_000));
    for share in &heard.speakers {
        assert!(share.spoken_us.0 <= heard.spoken_us.0);
    }
}

#[test]
fn lines_beyond_the_clock_are_refused() {
    let mut manifest = manifest();
    perform(&mut manifest, &[("narrator", 0, 6_000_000, true)]);
    manifest.tracks[0].clips[0].timeline_start_us = Microseconds(i64::MAX);
    assert!(can_be_heard(&manifest));
    assert_eq!(listen_to_episode(&manifest, None).unwrap_err().code, VideoErrorCode::ArithmeticOverflow);
}

#[test]
fn a_clip_that_runs_backward_is_described_as_it_stands() {
    let mut manifest = manifest();
    perform(
        &mut manifest,
        &[
            ("narrator", 0, 6_000_000, true),
            ("adaeze", 7_000_000, 2_000_000, true),
        ],
    );
    manifest.tracks[0].clips[1].timeline_duration_us = Microseconds(-1_000_000);
    assert!(can_be_heard(&manifest));
    let heard = listen_to_episode(&manifest, None).unwrap();
    assert_eq!(heard.spoken_us, Microseconds(5_000_000));
    assert_eq!(heard.speakers[0].share_bp, 12_000);
    assert_eq!(heard.speakers[1].share_bp, -2_000);
}

#[test]
fn an_episode_whose_silences_cannot_be_counted_is_told_apart() {
    let mut manifest = manifest();
    perform(
        &mut manifest,
        &[
            ("narrator", 0, 1, true),
            ("adaeze", 0, 1, true),
            ("narrator", 0, 1, true),
            ("adaeze", 0, 1, true),
        ],
    );
    for clip in &mut manifest.tracks[0].clips {
        clip.timeline_start_us = Microseconds(i64::MAX / 2);
        clip.timeline_duration_us = Microseconds(-i64::MAX / 4);
    }
    assert!(!can_be_heard(&manifest));
}

#[test]
fn a_take_that_is_not_published_is_not_heard() {
    for state in [PublicationState::Staged, PublicationState::Superseded, PublicationState::Failed] {
        let mut manifest = manifest();
        perform(
            &mut manifest,
            &[("narrator", 0, 6_000_000, true), ("adaeze", 6_000_000, 2_000_000, true)],
        );
        manifest.render_artifacts[1].publication_state = state;
        let heard = listen_to_episode(&manifest, None).unwrap();
        assert_eq!(heard.narrated_turns, 1);
        assert_eq!(heard.unnarrated_turns, vec!["turn-1".to_string()]);
        assert_eq!(heard.spoken_us, Microseconds(6_000_000));
    }
}
