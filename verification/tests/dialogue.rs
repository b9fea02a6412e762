//! Scripts applied to a project.

use soundar_video::dialogue::{apply_dialogue_script, AppliedDialogueScript, BeatTiming, DialogueScriptRequest};
use soundar_video::error::VideoErrorCode;
use soundar_video::manifest::{
    AudioMix, AudioMixTrack, BeatSource, CanvasMode, CanvasSpec, CastDelivery, CastMember, LayoutPlan, NormalizedRect,
    RevisionStage, TurnBeat, VideoProjectManifest,
};
use soundar_video::stages::PathStages;
use soundar_video::time::{Microseconds, RationalFrameRate};

fn timestamp() -> String {
    "2026-01-01T00:00:00Z".to_string()
}

fn member(id: &str, name: &str, voice: &str) -> CastMember {
    CastMember {
        id: id.into(),
        name: name.into(),
        display_name: name.into(),
        voice_id: voice.into(),
        model_id: "hexgrad/Kokoro-82M".into(),
        language: "en-US".into(),
        delivery: CastDelivery::default(),
        consent_reference_id: None,
        notes: None,
        created_at: timestamp(),
    }
}

fn cast() -> Vec<CastMember> {
    vec![
        member("narrator", "NARRATOR", "af-heart"),
        member("adaeze", "ADAEZE", "af-bella"),
    ]
}

fn project() -> VideoProjectManifest {
    VideoProjectManifest::new(
        "project-1",
        "Story episode",
        RationalFrameRate::fps_30000_1001(),
        Microseconds(3_000_000),
        LayoutPlan {
            mode: CanvasMode::Portrait,
            canvas: CanvasSpec {
                width: 1080,
                height: 1920,
                pixel_aspect_numerator: 1,
                pixel_aspect_denominator: 1,
            },
            safe_area: NormalizedRect {
                x_bp: 500,
                y_bp: 500,
                width_bp: 9_000,
                height_bp: 9_000,
            },
            background_rgba: [245, 245, 244, 255],
            elements: vec![],
        },
        AudioMix {
            target_lufs_milli: -16_000,
            true_peak_db_milli: -1_000,
            tracks: Vec::<AudioMixTrack>::new(),
        },
        &timestamp(),
    )
    .unwrap()
}

/// The beats that a script implies: the first turn waits for nothing, the others for a breath.
fn implied_beats() -> Vec<BeatTiming> {
    (0..8)
        .map(|turn| BeatTiming {
            lead_in_us: Microseconds(if turn == 0 { 0 } else { 350_000 }),
            overlap_us: Microseconds(0),
        })
        .collect()
}

/// The stages that a change to each part of a project makes stale.
fn stage_table() -> Vec<PathStages> {
    let entry = |path: &str, stages: &[RevisionStage]| PathStages { path: path.into(), stages: stages.to_vec() };
    let renders = [
        RevisionStage::SceneRender,
        RevisionStage::Preview,
        RevisionStage::FinalRender,
        RevisionStage::PublishPackage,
    ];
    let spoken = [&[RevisionStage::Speech][..], &renders[..]].concat();
    let planned = [&[RevisionStage::Plan, RevisionStage::Captions][..], &renders[..]].concat();
    vec![
        entry("/cast", &spoken),
        entry("/dialogue", &spoken),
        entry("/lexicon", &spoken),
        entry("/narration_bindings", &spoken),
        entry("/turn_beats", &renders),
        entry("/tracks", &renders),
        entry("/reviewed_scenes", &planned),
        entry("/source_assets", &[RevisionStage::Ingest, RevisionStage::Transcript]),
    ]
}

const SCRIPT: &str = "NARRATOR: The harmattan came early.\n\nADAEZE: (quiet) You said you would come back.\n\nNARRATOR: She did not answer.\n";

fn apply(manifest: &VideoProjectManifest, script: &str) -> AppliedDialogueScript {
    apply_dialogue_script(
        manifest,
        &DialogueScriptRequest {
            cast: cast(),
            script: script.into(),
        },
        &implied_beats(),
        &stage_table(),
    )
    .unwrap()
}

#[test]
fn applies_a_script_as_ordered_turns() {
    let applied = apply(&project(), SCRIPT);
    let turns = &applied.manifest.dialogue;
    assert_eq!(turns.len(), 3);
    assert_eq!(turns[0].character_id, "narrator");
    assert_eq!(turns[1].character_id, "adaeze");
    assert_eq!(turns[1].direction.as_deref(), Some("quiet"));
    assert_eq!(
        turns.iter().map(|turn| turn.order).collect::<Vec<_>>(),
        vec![0, 1, 2]
    );
    assert_eq!(applied.new_turn_ids.len(), 3);
    assert!(applied.retained_turn_ids.is_empty());
    assert_eq!(applied.manifest.cast.len(), 2);
}

#[test]
fn the_same_script_applied_twice_produces_the_same_turn_ids() {
    let first = apply(&project(), SCRIPT);
    let second = apply(&project(), SCRIPT);
    assert_eq!(
        first
            .manifest
            .dialogue
            .iter()
            .map(|turn| turn.id.clone())
            .collect::<Vec<_>>(),
        second
            .manifest
            .dialogue
            .iter()
            .map(|turn| turn.id.clone())
            .collect::<Vec<_>>()
    );
}

#[test]
fn editing_one_line_mints_only_that_turn() {
    let first = apply(&project(), SCRIPT);
    let edited = SCRIPT.replace("She did not answer.", "She said nothing at all.");
    let second = apply(&first.manifest, &edited);

    assert_eq!(second.new_turn_ids.len(), 1);
    assert_eq!(second.retained_turn_ids.len(), 2);
    // The untouched turns keep the exact identifiers their takes are bound to.
    assert_eq!(
        second.retained_turn_ids,
        vec![
            first.manifest.dialogue[0].id.clone(),
            first.manifest.dialogue[1].id.clone()
        ]
    );
    assert_ne!(
        second.manifest.dialogue[2].id,
        first.manifest.dialogue[2].id
    );
}

#[test]
fn reordering_turns_preserves_every_identifier() {
    let first = apply(&project(), SCRIPT);
    let reordered = "ADAEZE: (quiet) You said you would come back.\n\nNARRATOR: The harmattan came early.\n\nNARRATOR: She did not answer.\n";
    let second = apply(&first.manifest, reordered);
    assert!(second.new_turn_ids.is_empty());
    assert_eq!(second.retained_turn_ids.len(), 3);
    assert_eq!(
        second.manifest.dialogue[0].id,
        first.manifest.dialogue[1].id
    );
    assert_eq!(second.manifest.dialogue[0].order, 0);
}

#[test]
fn a_repeated_line_keeps_both_of_its_turns() {
    let repeated = "NARRATOR: She waited.\n\nNARRATOR: She waited.\n";
    let first = apply(&project(), repeated);
    assert_eq!(first.manifest.dialogue.len(), 2);
    assert_ne!(first.manifest.dialogue[0].id, first.manifest.dialogue[1].id);
    // Appending a third identical line must reuse both existing turns rather than renaming
    // them, so the two takes already rendered for this line survive.
    let extended = "NARRATOR: She waited.\n\nNARRATOR: She waited.\n\nNARRATOR: She waited.\n";
    let second = apply(&first.manifest, extended);
    assert_eq!(second.retained_turn_ids.len(), 2);
    assert_eq!(second.new_turn_ids.len(), 1);
    assert_eq!(
        second.manifest.dialogue[0].id,
        first.manifest.dialogue[0].id
    );
    assert_eq!(
        second.manifest.dialogue[1].id,
        first.manifest.dialogue[1].id
    );
}

#[test]
fn changing_only_a_direction_keeps_the_turn_and_its_take() {
    let first = apply(
        &project(),
        "ADAEZE: (quiet) You said you would come back.\n",
    );
    let second = apply(
        &first.manifest,
        "ADAEZE: (furious) You said you would come back.\n",
    );
    assert_eq!(second.retained_turn_ids.len(), 1);
    assert!(second.new_turn_ids.is_empty());
    assert_eq!(
        second.manifest.dialogue[0].direction.as_deref(),
        Some("furious")
    );
}

#[test]
fn reapplying_an_unchanged_script_is_rejected_as_no_change() {
    let first = apply(&project(), SCRIPT);
    let error = apply_dialogue_script(
        &first.manifest,
        &DialogueScriptRequest {
            cast: cast(),
            script: SCRIPT.into(),
        },
        &implied_beats(),
        &stage_table(),
    )
    .unwrap_err();
    assert_eq!(error.code, VideoErrorCode::InvalidRevision);
}

#[test]
fn applying_a_script_derives_a_beat_for_every_turn() {
    let applied = apply(&project(), SCRIPT);
    assert_eq!(applied.manifest.turn_beats.len(), 3);
    assert_eq!(
        applied.manifest.turn_beats[0].lead_in_us,
        Microseconds::zero(),
        "the first turn waits for nothing"
    );
    assert!(applied
        .manifest
        .turn_beats
        .iter()
        .all(|beat| matches!(beat.source, BeatSource::Derived)));
}

/// Replace one derived beat with a deliberate, writer-chosen pause.
fn hold_beat(
    manifest: &VideoProjectManifest,
    turn_id: &str,
    lead_in_us: i64,
) -> VideoProjectManifest {
    let mut held = manifest.clone();
    held.turn_beats = held
        .turn_beats
        .into_iter()
        .map(|beat| {
            if beat.turn_id == turn_id {
                TurnBeat {
                    turn_id: beat.turn_id,
                    lead_in_us: Microseconds(lead_in_us),
                    overlap_us: Microseconds::zero(),
                    source: BeatSource::Explicit,
                }
            } else {
                beat
            }
        })
        .collect();
    held
}

#[test]
fn an_explicit_beat_survives_an_edit_to_a_different_line() {
    let first = apply(&project(), SCRIPT);
    let held_turn = first.manifest.dialogue[1].id.clone();
    let with_override = hold_beat(&first.manifest, &held_turn, 2_500_000);
    with_override.validate_strict().unwrap();

    // Rewriting the third line must not disturb the deliberate pause on the second.
    let edited = apply(
        &with_override,
        &SCRIPT.replace("She did not answer.", "She said nothing at all."),
    );
    let kept = edited
        .manifest
        .turn_beats
        .iter()
        .find(|beat| beat.turn_id == held_turn)
        .expect("the held beat survives");
    assert_eq!(kept.lead_in_us, Microseconds(2_500_000));
    assert_eq!(kept.source, BeatSource::Explicit);
}

#[test]
fn a_beat_is_dropped_with_the_line_it_belonged_to() {
    let first = apply(&project(), SCRIPT);
    let removed_turn = first.manifest.dialogue[2].id.clone();
    let with_override = hold_beat(&first.manifest, &removed_turn, 2_500_000);

    let edited = apply(
        &with_override,
        "NARRATOR: The harmattan came early.\n\nADAEZE: (quiet) You said you would come back.\n",
    );
    assert_eq!(edited.manifest.turn_beats.len(), 2);
    assert!(edited
        .manifest
        .turn_beats
        .iter()
        .all(|beat| beat.turn_id != removed_turn));
}

#[test]
fn a_script_change_invalidates_speech_but_not_ingest_or_transcript() {
    let applied = apply(&project(), SCRIPT);
    assert!(applied.invalidated_stages.contains(&RevisionStage::Speech));
    assert!(!applied.invalidated_stages.contains(&RevisionStage::Ingest));
    assert!(!applied
        .invalidated_stages
        .contains(&RevisionStage::Transcript));
}

#[test]
fn an_unknown_speaker_is_rejected_before_the_project_changes() {
    let error = apply_dialogue_script(
        &project(),
        &DialogueScriptRequest {
            cast: cast(),
            script: "EMEKA: Who am I?\n".into(),
        },
        &implied_beats(),
        &stage_table(),
    )
    .unwrap_err();
    assert_eq!(error.code, VideoErrorCode::UnknownSpeaker);
    assert!(error.message.contains("line 1"), "{}", error.message);
}

#[test]
fn a_script_keeps_commit_metadata_and_leaves_a_valid_project() {
    let before = project();
    let after = apply(&before, SCRIPT).manifest;
    assert_eq!(after.revision, before.revision);
    assert_eq!(after.revision_history, before.revision_history);
    assert_eq!(after.updated_at, before.updated_at);
    after.validate_strict().unwrap();
}

#[test]
fn every_turn_of_a_script_is_either_retained_or_minted() {
    let first = apply(&project(), SCRIPT);
    let second = apply(&first.manifest, "ADAEZE: (quiet) You said you would come back.\n\nADAEZE: And you did not.\n");
    assert_eq!(second.retained_turn_ids.len() + second.new_turn_ids.len(), second.manifest.dialogue.len());
    assert_eq!(second.retained_turn_ids, vec![first.manifest.dialogue[1].id.clone()]);
    assert_eq!(second.new_turn_ids, vec![second.manifest.dialogue[1].id.clone()]);
}

#[test]
fn a_script_with_fewer_beats_than_turns_is_refused() {
    let error = apply_dialogue_script(
        &project(),
        &DialogueScriptRequest {
            cast: cast(),
            script: SCRIPT.into(),
        },
        &implied_beats()[..2].to_vec(),
        &stage_table(),
    )
    .unwrap_err();
    assert_eq!(error.code, VideoErrorCode::InvalidPerformance);
}

#[test]
fn the_report_tells_the_kept_turns_from_the_new_ones() {
    let first = apply(&project(), SCRIPT);
    let script = "ADAEZE: And you did not.\n\nNARRATOR: She did not answer.\n\nADAEZE: (quiet) You said you would come back.\n\nADAEZE: And you did not.\n";
    let second = apply(&first.manifest, script);
    let turns = &second.manifest.dialogue;
    let known: Vec<&String> = first.manifest.dialogue.iter().map(|turn| &turn.id).collect();
    let kept: Vec<String> = turns.iter().filter(|turn| known.contains(&&turn.id)).map(|turn| turn.id.clone()).collect();
    let new: Vec<String> = turns.iter().filter(|turn| !known.contains(&&turn.id)).map(|turn| turn.id.clone()).collect();
    assert_eq!(second.retained_turn_ids, kept);
    assert_eq!(second.new_turn_ids, new);
    assert_eq!((kept.len(), new.len()), (2, 2));
    for (place, turn) in turns.iter().enumerate() {
        assert!(turns[..place].iter().all(|other| other.id != turn.id));
    }
}
