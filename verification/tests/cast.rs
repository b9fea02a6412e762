//! Casts and scripts.

use soundar_video::cast::{index_cast_by_name, parse_dialogue_script, MAX_SCRIPT_BYTES};
use soundar_video::error::VideoErrorCode;
use soundar_video::manifest::{CastDelivery, CastMember};
use soundar_video::time::Validate;

fn member(id: &str, name: &str) -> CastMember {
    CastMember {
        id: id.into(),
        name: name.into(),
        display_name: name.into(),
        voice_id: "af-heart".into(),
        model_id: "kokoro-82m".into(),
        language: "en-US".into(),
        delivery: CastDelivery::default(),
        consent_reference_id: None,
        notes: None,
        created_at: "2026-01-01T00:00:00Z".into(),
    }
}

fn cast() -> Vec<CastMember> {
    vec![member("narrator", "NARRATOR"), member("adaeze", "ADAEZE")]
}

#[test]
fn parses_speaker_turns_and_directions() {
    let script = "NARRATOR: The harmattan came early.\n\nADAEZE: (quiet) You said you would come back.\n  And you did not.\n";
    let turns = parse_dialogue_script(script, &cast()).unwrap();
    assert_eq!(turns.len(), 2);
    assert_eq!(turns[0].character_id, "narrator");
    assert_eq!(turns[0].text, "The harmattan came early.");
    assert_eq!(turns[0].direction, None);
    assert_eq!(turns[0].source_line, 1);
    assert_eq!(turns[1].character_id, "adaeze");
    assert_eq!(turns[1].direction.as_deref(), Some("quiet"));
    assert_eq!(
        turns[1].text,
        "You said you would come back. And you did not."
    );
    assert_eq!(turns[1].source_line, 3);
}

#[test]
fn matches_speaker_names_case_insensitively() {
    let turns = parse_dialogue_script("Narrator: One line.\n", &cast()).unwrap();
    assert_eq!(turns[0].character_id, "narrator");
    assert_eq!(turns[0].speaker_name, "NARRATOR");
}

#[test]
fn tolerates_crlf_line_endings() {
    let turns = parse_dialogue_script("NARRATOR: One.\r\nTwo.\r\n", &cast()).unwrap();
    assert_eq!(turns.len(), 1);
    assert_eq!(turns[0].text, "One. Two.");
}

#[test]
fn rejects_an_unknown_speaker_by_line() {
    let error = parse_dialogue_script("EMEKA: Who am I?\n", &cast()).unwrap_err();
    assert_eq!(error.code, VideoErrorCode::UnknownSpeaker);
    assert!(error.message.contains("line 1"), "{}", error.message);
    assert!(error.message.contains("EMEKA"), "{}", error.message);
}

#[test]
fn rejects_text_before_any_speaker() {
    let error = parse_dialogue_script("Once upon a time.\n", &cast()).unwrap_err();
    assert_eq!(error.code, VideoErrorCode::InvalidDialogue);
    assert!(error.message.contains("line 1"), "{}", error.message);
}

#[test]
fn rejects_an_empty_turn_by_line() {
    let error = parse_dialogue_script("NARRATOR: One.\n\nADAEZE:\n\n", &cast()).unwrap_err();
    assert_eq!(error.code, VideoErrorCode::InvalidDialogue);
    assert!(error.message.contains("line 3"), "{}", error.message);
}

#[test]
fn rejects_an_unbalanced_direction_by_line() {
    let error = parse_dialogue_script("ADAEZE: (quiet You said.\n", &cast()).unwrap_err();
    assert_eq!(error.code, VideoErrorCode::InvalidDialogue);
    assert!(error.message.contains("line 1"), "{}", error.message);
}

#[test]
fn rejects_a_direction_only_turn() {
    let error = parse_dialogue_script("ADAEZE: (quiet)\n", &cast()).unwrap_err();
    assert_eq!(error.code, VideoErrorCode::InvalidDialogue);
    assert!(
        error.message.contains("nothing to say"),
        "{}",
        error.message
    );
}

#[test]
fn prose_containing_a_colon_continues_the_current_turn() {
    let turns =
        parse_dialogue_script("NARRATOR: She spoke.\nAnd then she said: run.\n", &cast())
            .unwrap();
    assert_eq!(turns.len(), 1);
    assert_eq!(turns[0].text, "She spoke. And then she said: run.");
}

#[test]
fn rejects_an_empty_script() {
    let error = parse_dialogue_script("\n\n", &cast()).unwrap_err();
    assert_eq!(error.code, VideoErrorCode::InvalidDialogue);
}

#[test]
fn rejects_a_cast_with_indistinguishable_names() {
    let ambiguous = vec![member("a", "NARRATOR"), member("b", "narrator")];
    let error = index_cast_by_name(&ambiguous).unwrap_err();
    assert_eq!(error.code, VideoErrorCode::InvalidCast);
}

#[test]
fn rejects_a_script_with_no_cast() {
    let error = parse_dialogue_script("NARRATOR: One.\n", &[]).unwrap_err();
    assert_eq!(error.code, VideoErrorCode::InvalidCast);
}

#[test]
fn rejects_delivery_outside_the_supported_envelope() {
    let mut fast = CastDelivery::default();
    fast.rate_milli = 9_000;
    assert_eq!(
        fast.validate().unwrap_err().code,
        VideoErrorCode::InvalidCast
    );
    let mut loud = CastDelivery::default();
    loud.energy_milli = -1;
    assert_eq!(
        loud.validate().unwrap_err().code,
        VideoErrorCode::InvalidCast
    );
}

#[test]
fn rejects_a_script_larger_than_the_supported_envelope() {
    let script = "NARRATOR: ".to_string() + &"a".repeat(MAX_SCRIPT_BYTES);
    let error = parse_dialogue_script(&script, &cast()).unwrap_err();
    assert_eq!(error.code, VideoErrorCode::InvalidDialogue);
}

#[test]
fn every_parsed_turn_is_spoken_by_a_member_and_says_something() {
    let members = cast();
    let script = "narrator: One.\n  two.\nADAEZE: (soft) Three.\n\nNARRATOR: Four.";
    let turns = parse_dialogue_script(script, &members).unwrap();
    assert_eq!(turns.len(), 3);
    for turn in &turns {
        assert!(members.iter().any(|member| member.id == turn.character_id));
        assert!(!turn.text.trim().is_empty());
    }
}

#[test]
fn a_script_with_one_turn_too_many_is_refused_by_line() {
    let script = "NARRATOR: One.\n".repeat(5_001);
    let error = parse_dialogue_script(&script, &cast()).unwrap_err();
    assert_eq!(error.code, VideoErrorCode::InvalidDialogue);
    assert!(error.message.contains("line 5001"), "{}", error.message);
    assert_eq!(parse_dialogue_script(&"NARRATOR: One.\n".repeat(5_000), &cast()).unwrap().len(), 5_000);
}

#[test]
fn an_index_finds_each_member_under_the_key_of_their_name() {
    let members = vec![member("narrator", " NARRATOR "), member("adaeze", "Adaeze")];
    let index = index_cast_by_name(&members).unwrap();
    let found: Vec<(&str, &str)> = index.iter().map(|entry| (entry.key.as_str(), entry.member.id.as_str())).collect();
    assert_eq!(found, vec![("narrator", "narrator"), ("adaeze", "adaeze")]);
}
