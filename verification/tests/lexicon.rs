//! Pronunciation rules.

use soundar_video::error::VideoErrorCode;
use soundar_video::lexicon::{
    apply_lexicon, effective_entries, fingerprint_for_character, validate_lexicon, LexiconApplication,
};
use soundar_video::manifest::{LexiconEntry, LexiconMatch, LexiconScope};
use soundar_video::time::Validate;

fn entry(id: &str, scope: LexiconScope, match_text: &str, replacement: &str) -> LexiconEntry {
    LexiconEntry {
        id: id.into(),
        scope,
        character_id: match scope {
            LexiconScope::Character => Some("adaeze".into()),
            _ => None,
        },
        match_text: match_text.into(),
        replacement: replacement.into(),
        matching: LexiconMatch::Word,
        notes: None,
        created_at: "2026-01-01T00:00:00Z".into(),
    }
}

fn apply(text: &str, lexicon: &[LexiconEntry], character: &str) -> LexiconApplication {
    apply_lexicon(text, &effective_entries(lexicon, character))
}

#[test]
fn rewrites_a_name_wherever_it_appears() {
    let lexicon = vec![entry("e1", LexiconScope::Project, "Adaeze", "Ah-DAH-eh-zeh")];
    let applied = apply("Adaeze waited. Then adaeze left.", &lexicon, "narrator");
    assert_eq!(
        applied.spoken_text,
        "Ah-DAH-eh-zeh waited. Then Ah-DAH-eh-zeh left."
    );
    assert_eq!(applied.applied_entry_ids, vec!["e1"]);
}

#[test]
fn never_fires_inside_a_longer_word() {
    let lexicon = vec![entry("e1", LexiconScope::Project, "Ada", "AY-dah")];
    let applied = apply("Adaeze met Ada.", &lexicon, "narrator");
    assert_eq!(applied.spoken_text, "Adaeze met AY-dah.");
}

#[test]
fn a_longer_rule_wins_over_a_shorter_one() {
    let lexicon = vec![
        entry("short", LexiconScope::Project, "Adaeze", "AH-dah"),
        entry(
            "long",
            LexiconScope::Project,
            "Adaeze Nwosu",
            "AH-dah NWOH-soo",
        ),
    ];
    let applied = apply("Adaeze Nwosu arrived.", &lexicon, "narrator");
    assert_eq!(applied.spoken_text, "AH-dah NWOH-soo arrived.");
    assert_eq!(applied.applied_entry_ids, vec!["long"]);
}

#[test]
fn a_character_rule_overrides_the_project_and_global_ones() {
    let lexicon = vec![
        entry("global", LexiconScope::Global, "Kano", "KAH-noh"),
        entry("project", LexiconScope::Project, "Kano", "KAH-no"),
        entry("character", LexiconScope::Character, "Kano", "KAH-naw"),
    ];
    assert_eq!(apply("Kano.", &lexicon, "adaeze").spoken_text, "KAH-naw.");
    // Another character never sees the character-scoped rule.
    assert_eq!(apply("Kano.", &lexicon, "narrator").spoken_text, "KAH-no.");
}

#[test]
fn a_replacement_is_final_and_cannot_be_rewritten_again() {
    let lexicon = vec![
        entry("first", LexiconScope::Project, "Kano", "KAH-noh"),
        entry("second", LexiconScope::Global, "noh", "NO"),
    ];
    let applied = apply("Kano.", &lexicon, "narrator");
    assert_eq!(applied.spoken_text, "KAH-noh.");
    assert_eq!(applied.applied_entry_ids, vec!["first"]);
}

#[test]
fn an_exact_rule_respects_capitalisation() {
    let mut exact = entry("e1", LexiconScope::Project, "US", "U S");
    exact.matching = LexiconMatch::Exact;
    let lexicon = vec![exact];
    let applied = apply("The US told us.", &lexicon, "narrator");
    assert_eq!(applied.spoken_text, "The U S told us.");
}

#[test]
fn records_only_the_rules_that_actually_fired() {
    let lexicon = vec![
        entry("used", LexiconScope::Project, "Kano", "KAH-noh"),
        entry("unused", LexiconScope::Project, "Enugu", "EH-noo-goo"),
    ];
    let applied = apply("Kano.", &lexicon, "narrator");
    assert_eq!(applied.applied_entry_ids, vec!["used"]);
}

#[test]
fn text_with_no_matching_rule_is_returned_unchanged() {
    let lexicon = vec![entry("e1", LexiconScope::Project, "Kano", "KAH-noh")];
    let applied = apply("Nothing to change here.", &lexicon, "narrator");
    assert_eq!(applied.spoken_text, "Nothing to change here.");
    assert!(applied.applied_entry_ids.is_empty());
}

#[test]
fn handles_multibyte_text_without_splitting_a_character() {
    let lexicon = vec![entry("e1", LexiconScope::Project, "Chiamaka", "chee-ah-MAH-kah")];
    let applied = apply("Ọ bụ Chiamaka — nwanne m.", &lexicon, "narrator");
    assert_eq!(applied.spoken_text, "Ọ bụ chee-ah-MAH-kah — nwanne m.");
}

#[test]
fn the_fingerprint_changes_only_when_the_effective_rules_change() {
    let base = vec![entry("e1", LexiconScope::Project, "Kano", "KAH-noh")];
    let same = vec![entry("e1", LexiconScope::Project, "Kano", "KAH-noh")];
    let changed = vec![entry("e1", LexiconScope::Project, "Kano", "KAH-no")];
    assert_eq!(
        fingerprint_for_character(&base, "narrator"),
        fingerprint_for_character(&same, "narrator")
    );
    assert_ne!(
        fingerprint_for_character(&base, "narrator"),
        fingerprint_for_character(&changed, "narrator")
    );
}

#[test]
fn a_character_rule_does_not_change_another_characters_fingerprint() {
    let lexicon = vec![entry("e1", LexiconScope::Character, "Kano", "KAH-naw")];
    assert!(fingerprint_for_character(&lexicon, "adaeze").is_some());
    assert_eq!(fingerprint_for_character(&lexicon, "narrator"), None);
}

#[test]
fn an_empty_lexicon_has_no_fingerprint_so_older_takes_stay_valid() {
    assert_eq!(fingerprint_for_character(&[], "narrator"), None);
}

#[test]
fn a_character_rule_must_name_a_character_in_the_cast() {
    let cast = vec!["narrator".to_string()];
    let lexicon = vec![entry("e1", LexiconScope::Character, "Kano", "KAH-naw")];
    let error = validate_lexicon(&lexicon, &cast).unwrap_err();
    assert_eq!(error.code, VideoErrorCode::UnknownSpeaker);
}

#[test]
fn only_a_character_rule_may_name_a_character() {
    let mut stray = entry("e1", LexiconScope::Project, "Kano", "KAH-noh");
    stray.character_id = Some("adaeze".into());
    assert_eq!(
        stray.validate().unwrap_err().code,
        VideoErrorCode::InvalidLexicon
    );
}

#[test]
fn a_rule_must_change_the_text_it_matches() {
    let noop = entry("e1", LexiconScope::Project, "Kano", "Kano");
    assert_eq!(
        noop.validate().unwrap_err().code,
        VideoErrorCode::InvalidLexicon
    );
}

#[test]
fn two_rules_in_one_scope_cannot_match_the_same_text() {
    let cast = vec!["adaeze".to_string()];
    let lexicon = vec![
        entry("e1", LexiconScope::Project, "Kano", "KAH-noh"),
        entry("e2", LexiconScope::Project, "kano", "KAH-no"),
    ];
    let error = validate_lexicon(&lexicon, &cast).unwrap_err();
    assert_eq!(error.code, VideoErrorCode::InvalidLexicon);

    // The same word in two different scopes is the whole point of precedence.
    let scoped = vec![
        entry("e1", LexiconScope::Project, "Kano", "KAH-noh"),
        entry("e2", LexiconScope::Character, "Kano", "KAH-naw"),
    ];
    validate_lexicon(&scoped, &cast).unwrap();
}

#[test]
fn specific_rules_come_first_and_longer_ones_before_shorter_ones() {
    let lexicon = vec![
        entry("g", LexiconScope::Global, "Adaeze Nwosu the elder", "g"),
        entry("p1", LexiconScope::Project, "Ada", "p1"),
        entry("p2", LexiconScope::Project, "Adaeze", "p2"),
        entry("c", LexiconScope::Character, "A", "c"),
    ];
    let order: Vec<&str> = effective_entries(&lexicon, "adaeze").iter().map(|rule| rule.id.as_str()).collect();
    assert_eq!(order, vec!["c", "p2", "p1", "g"]);
    let other: Vec<&str> = effective_entries(&lexicon, "narrator").iter().map(|rule| rule.id.as_str()).collect();
    assert_eq!(other, vec!["p2", "p1", "g"]);
}

#[test]
fn matching_without_case_reaches_beyond_ascii() {
    let lexicon = vec![entry("e1", LexiconScope::Project, "\u{c9}lodie", "ay-lo-DEE")];
    let applied = apply("\u{e9}lodie met \u{c9}LODIE.", &lexicon, "narrator");
    assert_eq!(applied.spoken_text, "ay-lo-DEE met ay-lo-DEE.");
    let inside = apply("\u{e9}lodie\u{e9} slept.", &lexicon, "narrator");
    assert_eq!(inside.spoken_text, "\u{e9}lodie\u{e9} slept.");
    assert!(inside.applied_entry_ids.is_empty());
}

#[test]
fn matching_without_case_reaches_letters_of_another_length() {
    // The capital takes two bytes and the small letter three.
    let lexicon = vec![entry("e1", LexiconScope::Project, "\u{2c65}", "ah")];
    let applied = apply("\u{23a} spoke.", &lexicon, "narrator");
    assert_eq!(applied.spoken_text, "ah spoke.");
    assert_eq!(applied.applied_entry_ids, vec!["e1"]);
}

#[test]
fn the_fingerprint_does_not_show_the_order_of_the_rules() {
    let kano = entry("e1", LexiconScope::Project, "Kano", "KAH-noh");
    let jos = entry("e2", LexiconScope::Global, "Jos", "JAWSS");
    let ada = entry("e3", LexiconScope::Character, "Ada", "AY-dah");
    let fingerprint = fingerprint_for_character(&[kano.clone(), jos.clone(), ada.clone()], "adaeze").unwrap();
    assert_eq!(fingerprint.len(), 64);
    assert!(fingerprint.chars().all(|c| c.is_ascii_digit() || ('a'..='f').contains(&c)));
    assert_eq!(fingerprint_for_character(&[ada.clone(), jos.clone(), kano.clone()], "adaeze"), Some(fingerprint.clone()));
    assert_eq!(fingerprint_for_character(&[jos, kano, ada], "adaeze"), Some(fingerprint));
}
