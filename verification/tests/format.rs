//! Show formats.

use soundar_video::error::VideoErrorCode;
use soundar_video::format::{instantiate_format, materialize_format_cues, CueTemplate, ShowFormat};
use soundar_video::manifest::{
    CanvasMode, CanvasSpec, CastDelivery, CastMember, CueAnchor, CueRole, DialogueTurn, LexiconEntry, LexiconMatch,
    LexiconScope,
};
use soundar_video::time::{Microseconds, RationalFrameRate, Validate};

const NOW: &str = "2026-01-01T00:00:00Z";

fn member(id: &str, name: &str, voice: &str) -> CastMember {
    CastMember {
        id: id.into(),
        name: name.into(),
        display_name: name.into(),
        voice_id: voice.into(),
        model_id: "hexgrad/Kokoro-82M".into(),
        language: "en-US".into(),
        delivery: CastDelivery::default(),
        consent_reference_id: None,
        notes: None,
        created_at: NOW.into(),
    }
}

fn template(id: &str, role: CueRole) -> CueTemplate {
    CueTemplate {
        id: id.into(),
        role,
        target_duration_us: Microseconds(8_000_000),
        direction: "warm, restrained, low strings".into(),
        gain_db_milli: -6_000,
        fade_in_us: Microseconds(500_000),
        fade_out_us: Microseconds(1_500_000),
    }
}

fn format() -> ShowFormat {
    ShowFormat {
        id: "show-harmattan".into(),
        name: "The Harmattan Letters".into(),
        revision: 3,
        cast: vec![
            member("narrator", "NARRATOR", "af-heart"),
            member("adaeze", "ADAEZE", "af-bella"),
        ],
        lexicon: vec![LexiconEntry {
            id: "rule-adaeze".into(),
            scope: LexiconScope::Project,
            character_id: None,
            match_text: "Adaeze".into(),
            replacement: "Ah-DAH-eh-zeh".into(),
            matching: LexiconMatch::Word,
            notes: None,
            created_at: NOW.into(),
        }],
        caption_preset_id: "podcast".into(),
        canvas_mode: CanvasMode::Portrait,
        canvas: CanvasSpec {
            width: 1080,
            height: 1920,
            pixel_aspect_numerator: 1,
            pixel_aspect_denominator: 1,
        },
        frame_rate: RationalFrameRate::fps_30(),
        target_lufs_milli: -16_000,
        true_peak_db_milli: -1_000,
        target_duration_us: Microseconds(600_000_000),
        duration_tolerance_bp: 2_000,
        opening: Some(template("cue-opening", CueRole::Sting)),
        closing: Some(template("cue-closing", CueRole::Outro)),
        show_notes_style: Some("Three short paragraphs, no bullet lists.".into()),
        created_at: NOW.into(),
        updated_at: NOW.into(),
    }
}

fn turn(id: &str, order: u32, character: &str, text: &str) -> DialogueTurn {
    DialogueTurn {
        id: id.into(),
        scene_id: None,
        order,
        character_id: character.into(),
        text: text.into(),
        direction: None,
        source_line: order + 1,
        revision: 1,
    }
}

#[test]
fn an_episode_inherits_the_shows_decisions() {
    let manifest = instantiate_format(&format(), "project-ep-1", "Episode 1", NOW).unwrap();
    assert_eq!(manifest.cast.len(), 2);
    assert_eq!(manifest.lexicon.len(), 1);
    assert_eq!(manifest.audio_mix.target_lufs_milli, -16_000);
    assert_eq!(manifest.layout.canvas.width, 1080);
    assert_eq!(manifest.timeline_duration_us, Microseconds(600_000_000));
    // A pristine draft: nothing has been written or rendered yet.
    assert!(manifest.dialogue.is_empty());
    assert!(manifest.music_cues.is_empty());
    assert!(manifest.source_assets.is_empty());
}

#[test]
fn an_episode_records_which_format_revision_it_came_from() {
    let manifest = instantiate_format(&format(), "project-ep-1", "Episode 1", NOW).unwrap();
    let origin = manifest
        .format_origin
        .expect("the episode records its origin");
    assert_eq!(origin.format_id, "show-harmattan");
    assert_eq!(origin.format_revision, 3);
}

#[test]
fn editing_a_format_cannot_reach_an_episode_that_already_exists() {
    let episode = instantiate_format(&format(), "project-ep-1", "Episode 1", NOW).unwrap();

    // The show recasts a character and drops the pronunciation rule.
    let mut revised = format();
    revised.revision = 4;
    revised.cast[1].voice_id = "af-nova".into();
    revised.lexicon.clear();
    revised.validate().unwrap();

    // The already-instantiated episode is untouched: instantiation copied, it did not link.
    assert_eq!(episode.cast[1].voice_id, "af-bella");
    assert_eq!(episode.lexicon.len(), 1);
    assert_eq!(
        episode
            .format_origin
            .as_ref()
            .map(|origin| origin.format_revision),
        Some(3)
    );

    // A new episode picks up the change.
    let next = instantiate_format(&revised, "project-ep-2", "Episode 2", NOW).unwrap();
    assert_eq!(next.cast[1].voice_id, "af-nova");
    assert!(next.lexicon.is_empty());
}

#[test]
fn cues_are_anchored_to_the_script_rather_than_invented() {
    let format = format();
    let mut manifest = instantiate_format(&format, "project-ep-1", "Episode 1", NOW).unwrap();

    // With no script there is nothing for an opening to begin on or a closing to follow.
    assert!(materialize_format_cues(
        &manifest,
        format.opening.as_ref(),
        format.closing.as_ref(),
        NOW
    )
    .unwrap()
    .is_empty());

    manifest.dialogue = vec![
        turn("turn-a", 0, "narrator", "The harmattan came early."),
        turn("turn-b", 1, "adaeze", "You said you would come back."),
    ];
    let cues = materialize_format_cues(
        &manifest,
        format.opening.as_ref(),
        format.closing.as_ref(),
        NOW,
    )
    .unwrap();
    assert_eq!(cues.len(), 2);
    assert_eq!(
        cues[0].anchor,
        CueAnchor::Turn {
            turn_id: "turn-a".into()
        }
    );
    assert_eq!(cues[1].anchor, CueAnchor::AfterFinalTurn);
    assert!(cues.iter().all(|cue| cue.needs_generation()));
}

#[test]
fn an_opening_cannot_be_an_outro_and_a_closing_must_be() {
    let mut wrong_opening = format();
    wrong_opening.opening = Some(template("cue-opening", CueRole::Outro));
    assert_eq!(
        wrong_opening.validate().unwrap_err().code,
        VideoErrorCode::InvalidShowFormat
    );

    let mut wrong_closing = format();
    wrong_closing.closing = Some(template("cue-closing", CueRole::Bed));
    assert_eq!(
        wrong_closing.validate().unwrap_err().code,
        VideoErrorCode::InvalidShowFormat
    );
}

#[test]
fn a_format_cannot_store_values_the_renderer_would_reject() {
    let mut loud = format();
    loud.target_lufs_milli = -2_000;
    assert_eq!(
        loud.validate().unwrap_err().code,
        VideoErrorCode::InvalidAudioMix
    );

    let mut unknown_captions = format();
    unknown_captions.caption_preset_id = "no-such-preset".into();
    assert!(unknown_captions.validate().is_err());

    let mut ambiguous_cast = format();
    ambiguous_cast.cast[1].name = "narrator".into();
    assert_eq!(
        ambiguous_cast.validate().unwrap_err().code,
        VideoErrorCode::InvalidCast
    );
}

#[test]
fn a_format_rule_cannot_name_a_character_outside_its_cast() {
    let mut stray = format();
    stray.lexicon[0].scope = LexiconScope::Character;
    stray.lexicon[0].character_id = Some("emeka".into());
    assert_eq!(
        stray.validate().unwrap_err().code,
        VideoErrorCode::UnknownSpeaker
    );
}

#[test]
fn an_episode_length_must_be_renderable() {
    let mut endless = format();
    endless.target_duration_us = Microseconds(0);
    assert_eq!(
        endless.validate().unwrap_err().code,
        VideoErrorCode::InvalidShowFormat
    );
}
