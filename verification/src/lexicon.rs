//! Pronunciation rules applied to every line before a voice speaks it.
//!
//! A story invents names, and a speech model mispronounces them consistently. A lexicon fixes the
//! name once and every take of every character says it correctly, instead of the writer rewriting
//! the same word phonetically in forty places and losing the real spelling from the script.
//!
//! A take records the fingerprint of the exact rules that produced it. Changing a rule that affects
//! a line makes that line's take stale and nothing else's, in the same way changing the line's words
//! does.

use crate::bytes::{push_byte, push_text};
use crate::digest::{is_sha256_hex, sha256_hex, sha256_hex_text};
use crate::error::{fault_at, or_else, refusal, refuse, unless, Fault, VideoErrorCode, VideoResult};
use crate::manifest::{DialogueTurn, DialogueTurnModel, LexiconEntry, LexiconEntryModel, LexiconMatch, LexiconScope};
use crate::manifest_rules::is_text;
use crate::model::{kept, kept_from, Model};
use crate::order::{
    distinct_items_rank_alike, rank, ranked, ranked_is_a_sorted_permutation, same_items_once, text_before, text_less,
    text_order, Ranked,
};
use crate::rules::{
    identifier_fault, nonempty_fault, timestamp_fault, validate_identifier, validate_nonempty,
    validate_timestamp_text,
};
use crate::text::{
    byte_len, bytes_in, char_lowercase, chars_of, decimal, decimal_text, is_letter_or_number, lowercase,
    lowercase_of_char, text_concat, text_concat3, text_eq, text_of, trimmed,
};
use crate::time::Validate;
use vstd::prelude::*;
use vstd::utf8::encode_utf8;

verus! {

pub const MAX_LEXICON_ENTRIES: usize = 500;

pub const MAX_MATCH_TEXT_BYTES: usize = 200;

pub const MAX_REPLACEMENT_BYTES: usize = 400;

// ---------------------------------------------------------------------------------------------
// The rules on a rule
// ---------------------------------------------------------------------------------------------
/// The rule on the character that an entry names.
pub open spec fn named_character_fault(scope: LexiconScope, character_id: Option<Seq<char>>) -> Option<Fault> {
    match (scope, character_id) {
        (LexiconScope::Character, Some(id)) => identifier_fault(id, "lexicon.character_id"@),
        (LexiconScope::Character, None) => Some(
            fault_at(
                VideoErrorCode::InvalidLexicon,
                "a character-scoped rule must name the character it belongs to"@,
                "lexicon.character_id"@,
            ),
        ),
        (_, Some(_)) => Some(
            fault_at(
                VideoErrorCode::InvalidLexicon,
                "only a character-scoped rule may name a character"@,
                "lexicon.character_id"@,
            ),
        ),
        (_, None) => None,
    }
}

impl Validate for LexiconEntry {
    open spec fn fault_of(model: LexiconEntryModel) -> Option<Fault> {
        or_else(
            identifier_fault(model.id, "lexicon.id"@),
            or_else(
                nonempty_fault(model.match_text, "lexicon.match_text"@, MAX_MATCH_TEXT_BYTES as int),
                or_else(
                    nonempty_fault(model.replacement, "lexicon.replacement"@, MAX_REPLACEMENT_BYTES as int),
                    or_else(
                        named_character_fault(model.scope, model.character_id),
                        or_else(
                            unless(
                                trimmed(model.match_text) != trimmed(model.replacement),
                                fault_at(
                                    VideoErrorCode::InvalidLexicon,
                                    "a rule must change the text it matches"@,
                                    "lexicon.replacement"@,
                                ),
                            ),
                            or_else(
                                unless(
                                    model.notes matches Some(notes) ==> byte_len(notes) <= 2_000,
                                    fault_at(
                                        VideoErrorCode::InvalidLexicon,
                                        "lexicon notes are limited to 2000 bytes"@,
                                        "lexicon.notes"@,
                                    ),
                                ),
                                timestamp_fault(model.created_at, "lexicon.created_at"@),
                            ),
                        ),
                    ),
                ),
            ),
        )
    }

    fn validate(&self) -> (result: VideoResult<()>) {
        validate_identifier(self.id.as_str(), "lexicon.id")?;
        validate_nonempty(self.match_text.as_str(), "lexicon.match_text", MAX_MATCH_TEXT_BYTES)?;
        validate_nonempty(self.replacement.as_str(), "lexicon.replacement", MAX_REPLACEMENT_BYTES)?;
        match (self.scope, &self.character_id) {
            (LexiconScope::Character, Some(character_id)) => {
                validate_identifier(character_id.as_str(), "lexicon.character_id")?;
            },
            (LexiconScope::Character, None) => {
                return Err(
                    refuse(
                        VideoErrorCode::InvalidLexicon,
                        "a character-scoped rule must name the character it belongs to",
                        "lexicon.character_id",
                    ),
                );
            },
            (_, Some(_)) => {
                return Err(
                    refuse(
                        VideoErrorCode::InvalidLexicon,
                        "only a character-scoped rule may name a character",
                        "lexicon.character_id",
                    ),
                );
            },
            (_, None) => {},
        }
        // A rule that rewrites a word to itself would apply forever without changing anything,
        // which reads as a broken rule rather than a deliberate one.
        if text_eq(self.match_text.as_str().trim(), self.replacement.as_str().trim()) {
            return Err(
                refuse(
                    VideoErrorCode::InvalidLexicon,
                    "a rule must change the text it matches",
                    "lexicon.replacement",
                ),
            );
        }
        if let Some(notes) = &self.notes {
            if bytes_in(notes.as_str()) > 2_000 {
                return Err(
                    refuse(
                        VideoErrorCode::InvalidLexicon,
                        "lexicon notes are limited to 2000 bytes",
                        "lexicon.notes",
                    ),
                );
            }
        }
        validate_timestamp_text(self.created_at.as_str(), "lexicon.created_at")
    }
}

/// The text by which a rule is told apart from others of its scope.
pub open spec fn rule_text(entry: LexiconEntryModel) -> Seq<char> {
    match entry.matching {
        LexiconMatch::Word => lowercase(entry.match_text),
        LexiconMatch::Exact => entry.match_text,
    }
}

/// Whether two rules of one scope and character match the same text.
pub open spec fn same_rule(left: LexiconEntryModel, right: LexiconEntryModel) -> bool {
    left.scope == right.scope && left.character_id == right.character_id && rule_text(left) == rule_text(right)
}

pub open spec fn entry_fault(lexicon: Seq<LexiconEntryModel>, characters: Seq<Seq<char>>, index: int) -> Option<Fault> {
    let entry = lexicon[index];
    or_else(
        LexiconEntry::fault_of(entry),
        or_else(
            unless(
                !(exists|i: int| 0 <= i < index && (#[trigger] lexicon[i]).id == entry.id),
                fault_at(
                    VideoErrorCode::DuplicateId,
                    "duplicate identifier "@ + entry.id,
                    "lexicon.id"@,
                ),
            ),
            or_else(
                unless(
                    entry.character_id matches Some(id) ==> characters.contains(id),
                    fault_at(
                        VideoErrorCode::UnknownSpeaker,
                        "a pronunciation rule names a character who is not in the cast"@,
                        "lexicon.character_id"@,
                    ),
                ),
                unless(
                    !(exists|i: int| 0 <= i < index && same_rule(#[trigger] lexicon[i], entry)),
                    fault_at(
                        VideoErrorCode::InvalidLexicon,
                        "two rules in the same scope match the same text"@,
                        "lexicon.match_text"@,
                    ),
                ),
            ),
        ),
    )
}

pub open spec fn entries_fault_from(lexicon: Seq<LexiconEntryModel>, characters: Seq<Seq<char>>, index: int) -> Option<
    Fault,
>
    decreases lexicon.len() - index,
{
    if index < 0 || index >= lexicon.len() {
        None
    } else {
        or_else(
            entry_fault(lexicon, characters, index),
            entries_fault_from(lexicon, characters, index + 1),
        )
    }
}

/// Why a lexicon is refused for a cast.
pub open spec fn lexicon_fault(lexicon: Seq<LexiconEntryModel>, characters: Seq<Seq<char>>) -> Option<Fault> {
    or_else(
        unless(
            lexicon.len() <= MAX_LEXICON_ENTRIES,
            fault_at(
                VideoErrorCode::InvalidLexicon,
                "a project supports at most "@ + decimal(MAX_LEXICON_ENTRIES as nat) + " pronunciation rules"@,
                "lexicon"@,
            ),
        ),
        entries_fault_from(lexicon, characters, 0),
    )
}

fn are_same_rule(left: &LexiconEntry, right: &LexiconEntry) -> (result: bool)
    ensures
        result == same_rule(left.deep_view(), right.deep_view()),
{
    let left_text: String = match left.matching {
        LexiconMatch::Word => left.match_text.as_str().to_lowercase(),
        LexiconMatch::Exact => left.match_text.clone(),
    };
    let right_text: String = match right.matching {
        LexiconMatch::Word => right.match_text.as_str().to_lowercase(),
        LexiconMatch::Exact => right.match_text.clone(),
    };
    left.scope == right.scope && left.character_id.same(&right.character_id) && left_text.same(&right_text)
}

fn is_listed(list: &Vec<String>, wanted: &str) -> (result: bool)
    ensures
        result == list.deep_view().contains(wanted@),
{
    let ghost model = list.deep_view();
    let mut index: usize = 0;
    while index < list.len()
        invariant
            index <= list.len(),
            model == list.deep_view(),
            forall|i: int| 0 <= i < index ==> model[i] != wanted@,
        decreases list.len() - index,
    {
        assert(model[index as int] == list[index as int]@);
        if text_eq(list[index].as_str(), wanted) {
            return true;
        }
        index += 1;
    }
    false
}

/// Checks a project's lexicon as a whole.
pub fn validate_lexicon(lexicon: &Vec<LexiconEntry>, character_ids: &Vec<String>) -> (result: VideoResult<()>)
    ensures
        refusal(result) == lexicon_fault(lexicon.deep_view(), character_ids.deep_view()),
{
    let ghost model = lexicon.deep_view();
    let ghost characters = character_ids.deep_view();
    if lexicon.len() > MAX_LEXICON_ENTRIES {
        let limit: String = decimal_text(MAX_LEXICON_ENTRIES as u64);
        let message: String = text_concat3(
            "a project supports at most ",
            limit.as_str(),
            " pronunciation rules",
        );
        return Err(refuse(VideoErrorCode::InvalidLexicon, message.as_str(), "lexicon"));
    }
    let mut index: usize = 0;
    while index < lexicon.len()
        invariant
            index <= lexicon.len(),
            lexicon.len() <= MAX_LEXICON_ENTRIES,
            model == lexicon.deep_view(),
            characters == character_ids.deep_view(),
            entries_fault_from(model, characters, 0) == entries_fault_from(model, characters, index as int),
        decreases lexicon.len() - index,
    {
        let entry: &LexiconEntry = &lexicon[index];
        let ghost own = model[index as int];
        assert(own == entry.deep_view());
        entry.validate()?;
        let mut repeated: bool = false;
        let mut clashing: bool = false;
        let mut earlier: usize = 0;
        while earlier < index
            invariant
                earlier <= index < lexicon.len(),
                model == lexicon.deep_view(),
                own == entry.deep_view(),
                repeated <==> exists|i: int| 0 <= i < earlier && (#[trigger] model[i]).id == own.id,
                clashing <==> exists|i: int| 0 <= i < earlier && same_rule(#[trigger] model[i], own),
            decreases index - earlier,
        {
            assert(model[earlier as int] == lexicon[earlier as int].deep_view());
            if lexicon[earlier].id.same(&entry.id) {
                repeated = true;
            }
            if are_same_rule(&lexicon[earlier], entry) {
                clashing = true;
            }
            earlier += 1;
        }
        if repeated {
            let message: String = text_concat("duplicate identifier ", entry.id.as_str());
            return Err(refuse(VideoErrorCode::DuplicateId, message.as_str(), "lexicon.id"));
        }
        if let Some(character_id) = &entry.character_id {
            if !is_listed(character_ids, character_id.as_str()) {
                return Err(
                    refuse(
                        VideoErrorCode::UnknownSpeaker,
                        "a pronunciation rule names a character who is not in the cast",
                        "lexicon.character_id",
                    ),
                );
            }
        }
        // Two rules with the same scope, character, and match would make the spoken result depend
        // on which one happened to sort first.
        if clashing {
            return Err(
                refuse(
                    VideoErrorCode::InvalidLexicon,
                    "two rules in the same scope match the same text",
                    "lexicon.match_text",
                ),
            );
        }
        index += 1;
    }
    Ok(())
}

// ---------------------------------------------------------------------------------------------
// The rules of one character
// ---------------------------------------------------------------------------------------------
/// How specific a scope is; the lower comes first.
pub open spec fn scope_rank(scope: LexiconScope) -> int {
    match scope {
        LexiconScope::Character => 0,
        LexiconScope::Project => 1,
        LexiconScope::Global => 2,
    }
}

fn rank_of_scope(scope: LexiconScope) -> (rank: u8)
    ensures
        rank == scope_rank(scope),
{
    match scope {
        LexiconScope::Character => 0,
        LexiconScope::Project => 1,
        LexiconScope::Global => 2,
    }
}

/// Rules are ranked by scope, then the longest match first, then by identifier.
impl<'a> Ranked for &'a LexiconEntry {
    open spec fn before(left: LexiconEntryModel, right: LexiconEntryModel) -> bool {
        scope_rank(left.scope) < scope_rank(right.scope) || (scope_rank(left.scope) == scope_rank(right.scope) && (
        byte_len(left.match_text) > byte_len(right.match_text) || (byte_len(left.match_text) == byte_len(
            right.match_text,
        ) && text_less(left.id, right.id))))
    }

    fn comes_before(&self, other: &Self) -> (result: bool) {
        let own: u8 = rank_of_scope(self.scope);
        let others: u8 = rank_of_scope(other.scope);
        let length: usize = bytes_in(self.match_text.as_str());
        let other_length: usize = bytes_in(other.match_text.as_str());
        own < others || (own == others && (length > other_length || (length == other_length && text_before(
            self.id.as_str(),
            other.id.as_str(),
        ))))
    }

    proof fn before_is_an_order(a: LexiconEntryModel, b: LexiconEntryModel, c: LexiconEntryModel) {
        text_order(a.id, b.id, c.id);
        text_order(b.id, c.id, a.id);
        text_order(c.id, b.id, a.id);
        text_order(a.id, c.id, b.id);
    }
}

/// Whether a rule governs a character's lines.
pub open spec fn governs(entry: LexiconEntryModel, character_id: Seq<char>) -> bool {
    entry.scope == LexiconScope::Character ==> entry.character_id == Some(character_id)
}

/// The rules from a place on that govern a character's lines, as they stand.
pub open spec fn governing_from(lexicon: Seq<LexiconEntryModel>, character_id: Seq<char>, index: int) -> Seq<
    LexiconEntryModel,
>
    decreases lexicon.len() - index,
{
    if index < 0 || index >= lexicon.len() {
        Seq::empty()
    } else if governs(lexicon[index], character_id) {
        seq![lexicon[index]] + governing_from(lexicon, character_id, index + 1)
    } else {
        governing_from(lexicon, character_id, index + 1)
    }
}

/// The rules that apply to one character's lines, in the order they are applied.
pub open spec fn effective<'a>(lexicon: Seq<LexiconEntryModel>, character_id: Seq<char>) -> Seq<LexiconEntryModel> {
    ranked::<&'a LexiconEntry>(governing_from(lexicon, character_id, 0))
}

/// The rules that apply to one character's lines, in the order they are applied.
///
/// Ordering is precedence first, then longest match, then id. Longest-match matters: without it
/// a rule for `Adaeze` would consume the start of `Adaeze Nwosu` and the more specific rule for
/// the full name would never fire. The final id tie-break keeps the order stable across saves.
pub fn effective_entries<'a>(lexicon: &'a [LexiconEntry], character_id: &str) -> (entries: Vec<&'a LexiconEntry>)
    ensures
        entries.deep_view() == effective(lexicon.deep_view(), character_id@),
{
    let ghost model = lexicon.deep_view();
    let mut entries: Vec<&'a LexiconEntry> = Vec::new();
    let mut index: usize = 0;
    assert(entries.deep_view() + governing_from(model, character_id@, 0) =~= governing_from(
        model,
        character_id@,
        0,
    ));
    while index < lexicon.len()
        invariant
            index <= lexicon.len(),
            model == lexicon.deep_view(),
            entries.deep_view() + governing_from(model, character_id@, index as int) == governing_from(
                model,
                character_id@,
                0,
            ),
        decreases lexicon.len() - index,
    {
        let entry: &'a LexiconEntry = &lexicon[index];
        assert(model[index as int] == entry.deep_view());
        let governing: bool = match entry.scope {
            LexiconScope::Character => is_text(&entry.character_id, character_id),
            LexiconScope::Project => true,
            LexiconScope::Global => true,
        };
        if governing {
            let ghost before = entries.deep_view();
            let ghost rest = governing_from(model, character_id@, index + 1);
            entries.push(entry);
            assert(entries.deep_view() =~= before.push(model[index as int]));
            assert(entries.deep_view() + rest =~= before + (seq![model[index as int]] + rest));
        }
        index += 1;
    }
    assert(entries.deep_view() =~= governing_from(model, character_id@, 0));
    rank(entries)
}

// ---------------------------------------------------------------------------------------------
// Fingerprints
// ---------------------------------------------------------------------------------------------
pub open spec fn matching_text(matching: LexiconMatch) -> Seq<char> {
    match matching {
        LexiconMatch::Word => "word"@,
        LexiconMatch::Exact => "exact"@,
    }
}

/// What one rule adds to the bytes that are hashed.
pub open spec fn entry_bytes(entry: LexiconEntryModel) -> Seq<u8> {
    encode_utf8(entry.id) + seq![1u8] + encode_utf8(entry.match_text) + seq![1u8] + encode_utf8(entry.replacement)
        + seq![1u8] + encode_utf8(matching_text(entry.matching)) + seq![2u8]
}

/// The bytes of the first rules.
pub open spec fn lexicon_bytes(entries: Seq<LexiconEntryModel>, count: int) -> Seq<u8>
    decreases count,
{
    if count <= 0 {
        Seq::empty()
    } else {
        lexicon_bytes(entries, count - 1) + entry_bytes(entries[count - 1])
    }
}

/// The fingerprint of some rules; there is none where there are no rules.
pub open spec fn fingerprint(entries: Seq<LexiconEntryModel>) -> Option<Seq<char>> {
    if entries.len() == 0 {
        None
    } else {
        Some(sha256_hex(lexicon_bytes(entries, entries.len() as int)))
    }
}

/// Fingerprints the exact rules a take was produced under.
///
/// `None` means no rule applies to this character, which is also what every take recorded before
/// the lexicon existed carries, so those takes stay valid.
pub fn lexicon_fingerprint(entries: &[&LexiconEntry]) -> (result: Option<String>)
    ensures
        result.deep_view() == fingerprint(entries.deep_view()),
        result matches Some(digest) ==> is_sha256_hex(digest@),
{
    if entries.len() == 0 {
        return None;
    }
    let ghost model = entries.deep_view();
    let mut bytes: Vec<u8> = Vec::new();
    let mut index: usize = 0;
    assert(bytes@ =~= lexicon_bytes(model, 0));
    while index < entries.len()
        invariant
            index <= entries.len(),
            model == entries.deep_view(),
            bytes@ == lexicon_bytes(model, index as int),
        decreases entries.len() - index,
    {
        let entry: &LexiconEntry = entries[index];
        assert(model[index as int] == entry.deep_view());
        let ghost before = bytes@;
        push_text(&mut bytes, entry.id.as_str());
        push_byte(&mut bytes, 0x01);
        push_text(&mut bytes, entry.match_text.as_str());
        push_byte(&mut bytes, 0x01);
        push_text(&mut bytes, entry.replacement.as_str());
        push_byte(&mut bytes, 0x01);
        match entry.matching {
            LexiconMatch::Word => push_text(&mut bytes, "word"),
            LexiconMatch::Exact => push_text(&mut bytes, "exact"),
        }
        push_byte(&mut bytes, 0x02);
        assert(bytes@ =~= before + entry_bytes(model[index as int]));
        index += 1;
    }
    Some(sha256_hex_text(bytes.as_slice()))
}

/// The fingerprint of the rules that govern one character's lines.
pub fn fingerprint_for_character(lexicon: &[LexiconEntry], character_id: &str) -> (result: Option<String>)
    ensures
        result.deep_view() == fingerprint(effective(lexicon.deep_view(), character_id@)),
        result is None <==> effective(lexicon.deep_view(), character_id@).len() == 0,
        result matches Some(digest) ==> is_sha256_hex(digest@),
{
    let entries: Vec<&LexiconEntry> = effective_entries(lexicon, character_id);
    lexicon_fingerprint(entries.as_slice())
}

proof fn lemma_other_rule(lexicon: Seq<LexiconEntryModel>, entry: LexiconEntryModel, character_id: Seq<char>, index: int)
    requires
        !governs(entry, character_id),
        0 <= index <= lexicon.len(),
    ensures
        governing_from(lexicon.push(entry), character_id, index) == governing_from(
            lexicon,
            character_id,
            index,
        ),
    decreases lexicon.len() - index,
{
    if index < lexicon.len() {
        lemma_other_rule(lexicon, entry, character_id, index + 1);
    } else {
        assert(governing_from(lexicon.push(entry), character_id, index + 1) =~= Seq::empty());
    }
}

/// A rule of one character's own changes neither the rules nor the fingerprint of another.
pub proof fn a_character_rule_leaves_others_alone(
    lexicon: Seq<LexiconEntryModel>,
    entry: LexiconEntryModel,
    character_id: Seq<char>,
)
    requires
        entry.scope == LexiconScope::Character,
        entry.character_id != Some(character_id),
    ensures
        effective(lexicon.push(entry), character_id) == effective(lexicon, character_id),
        fingerprint(effective(lexicon.push(entry), character_id)) == fingerprint(
            effective(lexicon, character_id),
        ),
{
    lemma_other_rule(lexicon, entry, character_id, 0);
}

proof fn lemma_governing_items(lexicon: Seq<LexiconEntryModel>, character_id: Seq<char>, index: int)
    requires
        0 <= index <= lexicon.len(),
    ensures
        forall|rule: LexiconEntryModel| #[trigger]
            governing_from(lexicon, character_id, index).contains(rule) <==> governs(rule, character_id) && exists|i: int|
                index <= i < lexicon.len() && #[trigger] lexicon[i] == rule,
        lexicon.no_duplicates() ==> governing_from(lexicon, character_id, index).no_duplicates(),
    decreases lexicon.len() - index,
{
    let all = governing_from(lexicon, character_id, index);
    if index < lexicon.len() {
        lemma_governing_items(lexicon, character_id, index + 1);
        let rest = governing_from(lexicon, character_id, index + 1);
        let own = lexicon[index];
        assert forall|rule: LexiconEntryModel| #[trigger] all.contains(rule) <==> governs(rule, character_id)
            && exists|i: int| index <= i < lexicon.len() && #[trigger] lexicon[i] == rule by {
            if governs(own, character_id) {
                assert(all == seq![own] + rest);
                if all.contains(rule) {
                    let place = choose|place: int| 0 <= place < all.len() && all[place] == rule;
                    if place > 0 {
                        assert(rest[place - 1] == rule);
                        assert(rest.contains(rule));
                        let i = choose|i: int| index + 1 <= i < lexicon.len() && #[trigger] lexicon[i] == rule;
                        assert(lexicon[i] == rule);
                    } else {
                        assert(lexicon[index] == rule);
                    }
                }
                if rest.contains(rule) {
                    let place = choose|place: int| 0 <= place < rest.len() && rest[place] == rule;
                    assert(all[place + 1] == rule);
                }
                assert(all[0] == own);
            } else {
                assert(all == rest);
            }
            if governs(rule, character_id) && exists|i: int| index <= i < lexicon.len() && #[trigger] lexicon[i] == rule {
                let i = choose|i: int| index <= i < lexicon.len() && #[trigger] lexicon[i] == rule;
                if i > index {
                    assert(rest.contains(rule));
                }
            }
        }
        if lexicon.no_duplicates() && governs(own, character_id) {
            if rest.contains(own) {
                let i = choose|i: int| index + 1 <= i < lexicon.len() && #[trigger] lexicon[i] == own;
                assert(lexicon[i] != lexicon[index]);
            }
            assert(all == seq![own] + rest);
            assert forall|i: int, j: int| 0 <= i < all.len() && 0 <= j < all.len() && i != j implies all[i] != all[j] by {
                if i > 0 {
                    assert(all[i] == rest[i - 1]);
                    assert(rest.contains(all[i]));
                }
                if j > 0 {
                    assert(all[j] == rest[j - 1]);
                    assert(rest.contains(all[j]));
                }
            }
        }
    }
}

/// Whether no two rules have one identifier.
pub open spec fn distinct_rules(lexicon: Seq<LexiconEntryModel>) -> bool {
    forall|i: int, j: int| 0 <= i < lexicon.len() && 0 <= j < lexicon.len() && i != j ==> (#[trigger] lexicon[i]).id
        != (#[trigger] lexicon[j]).id
}

/// The order in which rules are kept shows neither in the rules that govern a character nor in their
/// fingerprint.
pub proof fn rule_order_does_not_matter(
    left: Seq<LexiconEntryModel>,
    right: Seq<LexiconEntryModel>,
    character_id: Seq<char>,
)
    requires
        distinct_rules(left),
        left.to_multiset() == right.to_multiset(),
    ensures
        effective(left, character_id) == effective(right, character_id),
        fingerprint(effective(left, character_id)) == fingerprint(effective(right, character_id)),
{
    broadcast use vstd::seq_lib::group_to_multiset_ensures;

    let first = governing_from(left, character_id, 0);
    let second = governing_from(right, character_id, 0);
    assert(left.no_duplicates());
    left.lemma_multiset_has_no_duplicates();
    right.lemma_multiset_has_no_duplicates_conv();
    lemma_governing_items(left, character_id, 0);
    lemma_governing_items(right, character_id, 0);
    assert forall|rule: LexiconEntryModel| #[trigger] first.to_set().contains(rule) <==> second.to_set().contains(
        rule,
    ) by {
        assert(left.contains(rule) <==> left.to_multiset().count(rule) > 0);
        assert(right.contains(rule) <==> right.to_multiset().count(rule) > 0);
        assert(first.contains(rule) <==> governs(rule, character_id) && left.contains(rule));
        assert(second.contains(rule) <==> governs(rule, character_id) && right.contains(rule));
    }
    assert(first.to_set() =~= second.to_set());
    same_items_once(first, second);
    assert forall|i: int, j: int|
        0 <= i < first.len() && 0 <= j < first.len() && !<&LexiconEntry as Ranked>::before(
            #[trigger] first[i],
            #[trigger] first[j],
        ) && !<&LexiconEntry as Ranked>::before(first[j], first[i]) implies first[i] == first[j] by {
        text_order(first[i].id, first[j].id, first[i].id);
        assert(first.contains(first[i]) && first.contains(first[j]));
        let a = choose|a: int| 0 <= a < left.len() && #[trigger] left[a] == first[i];
        let b = choose|b: int| 0 <= b < left.len() && #[trigger] left[b] == first[j];
        assert(left[a].id == left[b].id);
    }
    distinct_items_rank_alike::<&LexiconEntry>(first, second);
}

/// A character whom no rule governs has no fingerprint, and only such a one.
pub proof fn no_rules_no_fingerprint(lexicon: Seq<LexiconEntryModel>, character_id: Seq<char>)
    ensures
        fingerprint(effective(lexicon, character_id)) is None <==> forall|i: int|
            0 <= i < lexicon.len() ==> !governs(#[trigger] lexicon[i], character_id),
{
    ranked_is_a_sorted_permutation::<&LexiconEntry>(governing_from(lexicon, character_id, 0));
    lemma_governing(lexicon, character_id, 0);
}

proof fn lemma_governing(lexicon: Seq<LexiconEntryModel>, character_id: Seq<char>, index: int)
    requires
        0 <= index <= lexicon.len(),
    ensures
        governing_from(lexicon, character_id, index).len() == 0 <==> forall|i: int|
            index <= i < lexicon.len() ==> !governs(#[trigger] lexicon[i], character_id),
    decreases lexicon.len() - index,
{
    if index < lexicon.len() {
        lemma_governing(lexicon, character_id, index + 1);
    }
}

// ---------------------------------------------------------------------------------------------
// Matches
// ---------------------------------------------------------------------------------------------
/// Whether a character of a line is one of a rule.
pub open spec fn char_matches(found: char, wanted: char, matching: LexiconMatch) -> bool {
    match matching {
        LexiconMatch::Word => char_lowercase(found) == char_lowercase(wanted),
        LexiconMatch::Exact => found == wanted,
    }
}

/// Whether a rule's text starts at a place of a line.
pub open spec fn matches_at(line: Seq<char>, start: int, needle: Seq<char>, matching: LexiconMatch) -> bool {
    &&& start + needle.len() <= line.len()
    &&& forall|i: int| 0 <= i < needle.len() ==> char_matches(line[start + i], #[trigger] needle[i], matching)
}

pub open spec fn is_word_char(c: char) -> bool {
    is_letter_or_number(c) || c == '\''
}

/// Whether a stretch of a line stands alone rather than sitting inside a longer word.
pub open spec fn stands_alone(line: Seq<char>, start: int, end: int) -> bool {
    !(start > 0 && is_word_char(line[start - 1])) && !(end < line.len() && is_word_char(line[end]))
}

/// Where a rule fires from a place on: the starts of the matches, left to right, none overlapping.
pub open spec fn matches_from(line: Seq<char>, needle: Seq<char>, matching: LexiconMatch, cursor: int) -> Seq<int>
    decreases line.len() - cursor,
{
    if cursor < 0 || cursor >= line.len() || needle.len() == 0 {
        Seq::empty()
    } else if matches_at(line, cursor, needle, matching) && stands_alone(line, cursor, cursor + needle.len()) {
        seq![cursor] + matches_from(line, needle, matching, cursor + needle.len())
    } else {
        matches_from(line, needle, matching, cursor + 1)
    }
}

/// Where a rule fires.
pub open spec fn all_matches(line: Seq<char>, needle: Seq<char>, matching: LexiconMatch) -> Seq<int> {
    matches_from(line, needle, matching, 0)
}

fn is_match_at(line: &Vec<char>, start: usize, needle: &Vec<char>, matching: LexiconMatch) -> (result: bool)
    requires
        start <= line.len(),
    ensures
        result == matches_at(line@, start as int, needle@, matching),
{
    if needle.len() > line.len() - start {
        return false;
    }
    let mut index: usize = 0;
    while index < needle.len()
        invariant
            index <= needle.len(),
            start + needle.len() <= line.len(),
            forall|i: int|
                0 <= i < index ==> char_matches(line@[start + i], #[trigger] needle@[i], matching),
        decreases needle.len() - index,
    {
        let found: char = line[start + index];
        let wanted: char = needle[index];
        let equal: bool = match matching {
            // Per-character folding covers every name a voice can reasonably be asked to say.
            // Multi-character foldings deliberately do not match, rather than matching
            // approximately and mispronouncing a different word.
            LexiconMatch::Word => {
                let left: String = lowercase_of_char(found);
                let right: String = lowercase_of_char(wanted);
                left.same(&right)
            },
            LexiconMatch::Exact => found == wanted,
        };
        if !equal {
            assert(!char_matches(line@[start + index], needle@[index as int], matching));
            return false;
        }
        index += 1;
    }
    true
}

fn is_part_of_word(c: char) -> (result: bool)
    ensures
        result == is_word_char(c),
{
    c.is_alphanumeric() || c == '\''
}

fn is_word_bounded(line: &Vec<char>, start: usize, end: usize) -> (result: bool)
    requires
        start <= end <= line.len(),
    ensures
        result == stands_alone(line@, start as int, end as int),
{
    !(start > 0 && is_part_of_word(line[start - 1])) && !(end < line.len() && is_part_of_word(line[end]))
}

/// Matches are inside the line and in order.
proof fn lemma_matches(line: Seq<char>, needle: Seq<char>, matching: LexiconMatch, cursor: int)
    requires
        0 <= cursor,
    ensures
        forall|i: int|
            0 <= i < matches_from(line, needle, matching, cursor).len() ==> cursor <= #[trigger] matches_from(
                line,
                needle,
                matching,
                cursor,
            )[i] && matches_from(line, needle, matching, cursor)[i] + needle.len() <= line.len(),
        forall|i: int, j: int|
            0 <= i < j < matches_from(line, needle, matching, cursor).len() ==> #[trigger] matches_from(
                line,
                needle,
                matching,
                cursor,
            )[i] + needle.len() <= #[trigger] matches_from(line, needle, matching, cursor)[j],
    decreases line.len() - cursor,
{
    if cursor < line.len() && needle.len() > 0 {
        let all = matches_from(line, needle, matching, cursor);
        if matches_at(line, cursor, needle, matching) && stands_alone(line, cursor, cursor + needle.len()) {
            let next = cursor + needle.len();
            let rest = matches_from(line, needle, matching, next);
            lemma_matches(line, needle, matching, next);
            assert forall|i: int| 0 <= i < all.len() implies cursor <= #[trigger] all[i] && all[i]
                + needle.len() <= line.len() by {
                if i > 0 {
                    assert(all[i] == rest[i - 1]);
                }
            }
            assert forall|i: int, j: int| 0 <= i < j < all.len() implies #[trigger] all[i] + needle.len()
                <= #[trigger] all[j] by {
                assert(all[j] == rest[j - 1]);
                if i > 0 {
                    assert(all[i] == rest[i - 1]);
                }
            }
        } else {
            lemma_matches(line, needle, matching, cursor + 1);
            let rest = matches_from(line, needle, matching, cursor + 1);
            assert(all == rest);
            assert forall|i: int| 0 <= i < all.len() implies cursor <= #[trigger] all[i] && all[i]
                + needle.len() <= line.len() by {
                assert(all[i] == rest[i]);
            }
            assert forall|i: int, j: int| 0 <= i < j < all.len() implies #[trigger] all[i] + needle.len()
                <= #[trigger] all[j] by {
                assert(all[i] == rest[i] && all[j] == rest[j]);
            }
        }
    }
}

fn find_matches(line: &Vec<char>, needle: &Vec<char>, matching: LexiconMatch) -> (starts: Vec<usize>)
    ensures
        starts.len() == all_matches(line@, needle@, matching).len(),
        forall|i: int|
            0 <= i < starts.len() ==> starts[i] == #[trigger] all_matches(line@, needle@, matching)[i],
{
    let mut starts: Vec<usize> = Vec::new();
    if needle.len() == 0 {
        return starts;
    }
    let ghost all = matches_from(line@, needle@, matching, 0);
    let ghost mut found: Seq<int> = Seq::empty();
    let mut cursor: usize = 0;
    assert(found + all =~= all);
    while cursor < line.len()
        invariant
            needle.len() > 0,
            cursor <= line.len(),
            all == matches_from(line@, needle@, matching, 0),
            starts.len() == found.len(),
            forall|i: int| 0 <= i < starts.len() ==> starts[i] == #[trigger] found[i],
            found + matches_from(line@, needle@, matching, cursor as int) == all,
        decreases line.len() - cursor,
    {
        if is_match_at(line, cursor, needle, matching) && is_word_bounded(line, cursor, cursor + needle.len()) {
            starts.push(cursor);
            proof {
                let before = found;
                let rest = matches_from(line@, needle@, matching, cursor + needle.len());
                found = found.push(cursor as int);
                assert(found + rest =~= before + (seq![cursor as int] + rest));
            }
            cursor = cursor + needle.len();
        } else {
            cursor = cursor + 1;
        }
    }
    assert(found =~= all);
    starts
}

/// Whether a rule fires in some turn of a script, from one on.
pub open spec fn is_used_from(entry: LexiconEntryModel, dialogue: Seq<DialogueTurnModel>, index: int) -> bool
    decreases dialogue.len() - index,
{
    if index < 0 || index >= dialogue.len() {
        false
    } else {
        all_matches(dialogue[index].text, entry.match_text, entry.matching).len() > 0 || is_used_from(
            entry,
            dialogue,
            index + 1,
        )
    }
}

/// What keeps the rules that some line of a script uses.
pub open spec fn used_in(dialogue: Seq<DialogueTurnModel>) -> spec_fn(LexiconEntryModel) -> bool {
    |entry: LexiconEntryModel| is_used_from(entry, dialogue, 0)
}

/// The rules that some line of a script uses.
pub open spec fn used_rules(lexicon: Seq<LexiconEntryModel>, dialogue: Seq<DialogueTurnModel>) -> Seq<LexiconEntryModel> {
    kept(lexicon, used_in(dialogue))
}

fn is_rule_used(entry: &LexiconEntry, dialogue: &Vec<DialogueTurn>) -> (used: bool)
    ensures
        used == is_used_from(entry.deep_view(), dialogue.deep_view(), 0),
{
    let ghost rule = entry.deep_view();
    let ghost model = dialogue.deep_view();
    let needle: Vec<char> = chars_of(entry.match_text.as_str());
    let mut index: usize = 0;
    while index < dialogue.len()
        invariant
            index <= dialogue.len(),
            rule == entry.deep_view(),
            model == dialogue.deep_view(),
            needle@ == rule.match_text,
            is_used_from(rule, model, 0) == is_used_from(rule, model, index as int),
        decreases dialogue.len() - index,
    {
        assert(model[index as int] == dialogue[index as int].deep_view());
        let line: Vec<char> = chars_of(dialogue[index].text.as_str());
        if find_matches(&line, &needle, entry.matching).len() > 0 {
            return true;
        }
        index += 1;
    }
    false
}

/// The rules that some line of a script uses.
pub fn select_used_rules(lexicon: &Vec<LexiconEntry>, dialogue: &Vec<DialogueTurn>) -> (used: Vec<LexiconEntry>)
    ensures
        used.deep_view() == used_rules(lexicon.deep_view(), dialogue.deep_view()),
{
    let ghost model = lexicon.deep_view();
    let ghost keep = used_in(dialogue.deep_view());
    let mut used: Vec<LexiconEntry> = Vec::new();
    let mut index: usize = 0;
    assert(used.deep_view() + kept(model, keep) =~= kept(model, keep));
    while index < lexicon.len()
        invariant
            index <= lexicon.len(),
            model == lexicon.deep_view(),
            keep == used_in(dialogue.deep_view()),
            used.deep_view() + kept_from(model, keep, index as int) == kept(model, keep),
        decreases lexicon.len() - index,
    {
        let ghost own = model[index as int];
        assert(own == lexicon[index as int].deep_view());
        if is_rule_used(&lexicon[index], dialogue) {
            let ghost before = used.deep_view();
            let ghost rest = kept_from(model, keep, index + 1);
            used.push(lexicon[index].duplicate());
            assert(used.deep_view() =~= before.push(own));
            assert(used.deep_view() + rest =~= before + (seq![own] + rest));
        }
        index += 1;
    }
    assert(used.deep_view() =~= kept(model, keep));
    used
}

// ---------------------------------------------------------------------------------------------
// Rewriting
// ---------------------------------------------------------------------------------------------
/// A stretch of a line: still open to rewriting, or already produced by a rule.
pub struct Segment {
    pub text: String,
    pub done: bool,
}

/// What a [`Segment`] holds, as mathematical values.
pub struct SegmentModel {
    pub text: Seq<char>,
    pub done: bool,
}

impl DeepView for Segment {
    type V = SegmentModel;

    open spec fn deep_view(&self) -> SegmentModel {
        SegmentModel { text: self.text@, done: self.done }
    }
}

pub open spec fn open_segment(text: Seq<char>) -> SegmentModel {
    SegmentModel { text, done: false }
}

pub open spec fn done_segment(text: Seq<char>) -> SegmentModel {
    SegmentModel { text, done: true }
}

/// A line rewritten at the matches from one on; what stands before `cursor` is behind it.
pub open spec fn rewritten_from(
    line: Seq<char>,
    starts: Seq<int>,
    width: int,
    replacement: Seq<char>,
    index: int,
    cursor: int,
) -> Seq<SegmentModel>
    decreases starts.len() - index,
{
    if index < 0 || index >= starts.len() {
        if cursor < line.len() {
            seq![open_segment(line.skip(cursor))]
        } else {
            Seq::empty()
        }
    } else {
        let lead = if starts[index] > cursor {
            seq![open_segment(line.subrange(cursor, starts[index]))]
        } else {
            Seq::empty()
        };
        lead + seq![done_segment(replacement)] + rewritten_from(
            line,
            starts,
            width,
            replacement,
            index + 1,
            starts[index] + width,
        )
    }
}

/// Whether a rule fires in a segment.
pub open spec fn fires_in(segment: SegmentModel, entry: LexiconEntryModel) -> bool {
    !segment.done && all_matches(segment.text, entry.match_text, entry.matching).len() > 0
}

/// What a rule makes of a segment.
pub open spec fn rewritten_segment(segment: SegmentModel, entry: LexiconEntryModel) -> Seq<SegmentModel> {
    if fires_in(segment, entry) {
        rewritten_from(
            segment.text,
            all_matches(segment.text, entry.match_text, entry.matching),
            entry.match_text.len() as int,
            entry.replacement,
            0,
            0,
        )
    } else {
        seq![segment]
    }
}

/// What a rule makes of the segments from a place on.
pub open spec fn rewritten(segments: Seq<SegmentModel>, entry: LexiconEntryModel, index: int) -> Seq<SegmentModel>
    decreases segments.len() - index,
{
    if index < 0 || index >= segments.len() {
        Seq::empty()
    } else {
        rewritten_segment(segments[index], entry) + rewritten(segments, entry, index + 1)
    }
}

/// Whether a rule fires in any of the segments.
pub open spec fn fires(segments: Seq<SegmentModel>, entry: LexiconEntryModel) -> bool {
    exists|i: int| 0 <= i < segments.len() && fires_in(#[trigger] segments[i], entry)
}

/// A line after the first rules have been applied.
pub open spec fn segments_after(text: Seq<char>, entries: Seq<LexiconEntryModel>, count: int) -> Seq<SegmentModel>
    decreases count,
{
    if count <= 0 {
        seq![open_segment(text)]
    } else {
        rewritten(segments_after(text, entries, count - 1), entries[count - 1], 0)
    }
}

/// Which of the first rules fired, in the order they were applied.
pub open spec fn applied_after(text: Seq<char>, entries: Seq<LexiconEntryModel>, count: int) -> Seq<Seq<char>>
    decreases count,
{
    if count <= 0 {
        Seq::empty()
    } else {
        let before = applied_after(text, entries, count - 1);
        if fires(segments_after(text, entries, count - 1), entries[count - 1]) {
            before.push(entries[count - 1].id)
        } else {
            before
        }
    }
}

/// The text of the first segments.
pub open spec fn text_of_segments(segments: Seq<SegmentModel>, count: int) -> Seq<char>
    decreases count,
{
    if count <= 0 {
        Seq::empty()
    } else {
        text_of_segments(segments, count - 1) + segments[count - 1].text
    }
}

/// What a voice is asked to say for a line.
pub open spec fn spoken(text: Seq<char>, entries: Seq<LexiconEntryModel>) -> Seq<char> {
    let segments = segments_after(text, entries, entries.len() as int);
    text_of_segments(segments, segments.len() as int)
}

/// The result of rewriting one line for a voice.
#[derive(Clone, Debug, PartialEq, Eq)]
pub struct LexiconApplication {
    /// Exactly what the engine is asked to say.
    pub spoken_text: String,
    /// Which rules actually fired, in the order they were applied. An entry that matched nothing
    /// is deliberately absent, so the record describes this line rather than the whole lexicon.
    pub applied_entry_ids: Vec<String>,
}

/// Appends what a rule makes of a segment, and says whether it fired.
fn rewrite_segment(segment: Segment, entry: &LexiconEntry, next: &mut Vec<Segment>) -> (fired: bool)
    ensures
        fired == fires_in(segment.deep_view(), entry.deep_view()),
        final(next).deep_view() == old(next).deep_view() + rewritten_segment(
            segment.deep_view(),
            entry.deep_view(),
        ),
{
    let ghost before = next.deep_view();
    let ghost model = segment.deep_view();
    let ghost rule = entry.deep_view();
    if segment.done {
        next.push(segment);
        assert(next.deep_view() =~= before + seq![model]);
        return false;
    }
    let line: Vec<char> = chars_of(segment.text.as_str());
    let needle: Vec<char> = chars_of(entry.match_text.as_str());
    let starts: Vec<usize> = find_matches(
        &line,
        &needle,
        entry.matching,
    );
    if starts.len() == 0 {
        next.push(segment);
        assert(next.deep_view() =~= before + seq![model]);
        return false;
    }
    let ghost all = all_matches(line@, needle@, entry.matching);
    let ghost width = needle.len() as int;
    proof {
        lemma_matches(line@, needle@, entry.matching, 0);
    }
    let ghost whole = rewritten_from(line@, all, width, rule.replacement, 0, 0);
    let mut cursor: usize = 0;
    let mut index: usize = 0;
    assert(next.deep_view() + whole =~= before + whole);
    while index < starts.len()
        invariant
            index <= starts.len(),
            cursor <= line.len(),
            width == needle.len(),
            rule == entry.deep_view(),
            starts.len() == all.len(),
            forall|i: int| 0 <= i < starts.len() ==> starts[i] == #[trigger] all[i],
            forall|i: int| 0 <= i < all.len() ==> 0 <= #[trigger] all[i] && all[i] + width <= line.len(),
            forall|i: int, j: int| 0 <= i < j < all.len() ==> #[trigger] all[i] + width <= #[trigger] all[j],
            index < starts.len() ==> cursor <= starts[index as int],
            whole == rewritten_from(line@, all, width, rule.replacement, 0, 0),
            next.deep_view() + rewritten_from(
                line@,
                all,
                width,
                rule.replacement,
                index as int,
                cursor as int,
            ) == before + whole,
        decreases starts.len() - index,
    {
        let ghost so_far = next.deep_view();
        let start: usize = starts[index];
        assert(start == all[index as int]);
        let ghost lead = if start > cursor {
            seq![open_segment(line@.subrange(cursor as int, start as int))]
        } else {
            Seq::empty()
        };
        if start > cursor {
            let text: String = text_of(&line, cursor, start);
            next.push(Segment { text, done: false });
        }
        assert(next.deep_view() =~= so_far + lead);
        let ghost led = next.deep_view();
        next.push(Segment { text: entry.replacement.clone(), done: true });
        assert(next.deep_view() =~= led.push(done_segment(rule.replacement)));
        let ghost rest = rewritten_from(line@, all, width, rule.replacement, index + 1, start + width);
        assert(next.deep_view() + rest =~= so_far + (lead + seq![done_segment(rule.replacement)] + rest));
        cursor = start + needle.len();
        index += 1;
        assert(index < starts.len() ==> all[index - 1] + width <= all[index as int]);
    }
    let ghost so_far = next.deep_view();
    if cursor < line.len() {
        let text: String = text_of(&line, cursor, line.len());
        assert(text@ =~= line@.skip(cursor as int));
        next.push(Segment { text, done: false });
        assert(next.deep_view() =~= so_far.push(open_segment(line@.skip(cursor as int))));
    }
    assert(next.deep_view() =~= before + whole);
    true
}

/// Rewrites one line for speech.
///
/// Text produced by a rule is final: a later, lower-precedence rule cannot rewrite inside it. Rules
/// that cascade into each other would make the spoken result depend on evaluation order in a way
/// no one could predict from reading the lexicon.
pub fn apply_lexicon(text: &str, entries: &[&LexiconEntry]) -> (result: LexiconApplication)
    ensures
        result.spoken_text@ == spoken(text@, entries.deep_view()),
        result.applied_entry_ids.deep_view() == applied_after(
            text@,
            entries.deep_view(),
            entries.deep_view().len() as int,
        ),
{
    let ghost model = entries.deep_view();
    let mut segments: Vec<Segment> = Vec::new();
    segments.push(Segment { text: text.to_owned(), done: false });
    let mut applied_entry_ids: Vec<String> = Vec::new();
    assert(segments.deep_view() =~= segments_after(text@, model, 0));
    assert(applied_entry_ids.deep_view() =~= applied_after(text@, model, 0));
    let mut index: usize = 0;
    while index < entries.len()
        invariant
            index <= entries.len(),
            model == entries.deep_view(),
            segments.deep_view() == segments_after(text@, model, index as int),
            applied_entry_ids.deep_view() == applied_after(text@, model, index as int),
        decreases entries.len() - index,
    {
        let entry: &LexiconEntry = entries[index];
        let ghost rule = entry.deep_view();
        assert(model[index as int] == rule);
        let ghost old_segments = segments.deep_view();
        let mut next: Vec<Segment> = Vec::new();
        let mut fired: bool = false;
        assert(next.deep_view() + rewritten(old_segments, rule, 0) =~= rewritten(old_segments, rule, 0));
        for segment in it: segments
            invariant
                it.seq() == segments@,
                rule == entry.deep_view(),
                old_segments == segments.deep_view(),
                fired <==> exists|i: int| 0 <= i < it.index() && fires_in(#[trigger] old_segments[i], rule),
                next.deep_view() + rewritten(old_segments, rule, it.index()) == rewritten(
                    old_segments,
                    rule,
                    0,
                ),
        {
            let ghost place = it.index();
            let ghost before = next.deep_view();
            let ghost own = segment.deep_view();
            assert(old_segments[place] == own);
            if rewrite_segment(segment, entry, &mut next) {
                fired = true;
            }
            let ghost rest = rewritten(old_segments, rule, place + 1);
            assert(next.deep_view() + rest =~= before + (rewritten_segment(own, rule) + rest));
        }
        assert(next.deep_view() =~= rewritten(old_segments, rule, 0));
        segments = next;
        if fired {
            let ghost ids = applied_entry_ids.deep_view();
            applied_entry_ids.push(entry.id.clone());
            assert(applied_entry_ids.deep_view() =~= ids.push(rule.id));
        }
        index += 1;
    }
    let ghost last = segments.deep_view();
    let mut spoken_text: String = String::new();
    let mut place: usize = 0;
    assert(spoken_text@ =~= text_of_segments(last, 0));
    while place < segments.len()
        invariant
            place <= segments.len(),
            last == segments.deep_view(),
            spoken_text@ == text_of_segments(last, place as int),
        decreases segments.len() - place,
    {
        assert(last[place as int] == segments[place as int].deep_view());
        spoken_text.append(segments[place].text.as_str());
        place += 1;
    }
    LexiconApplication { spoken_text, applied_entry_ids }
}


proof fn lemma_rewritten_join(left: Seq<SegmentModel>, right: Seq<SegmentModel>, entry: LexiconEntryModel, index: int)
    requires
        0 <= index <= left.len(),
    ensures
        rewritten(left + right, entry, index) =~= rewritten(left, entry, index) + rewritten(right, entry, 0),
    decreases left.len() - index,
{
    let both = left + right;
    if index < left.len() {
        lemma_rewritten_join(left, right, entry, index + 1);
    } else {
        lemma_rewritten_shift(left, right, entry, 0);
    }
}

proof fn lemma_rewritten_shift(left: Seq<SegmentModel>, right: Seq<SegmentModel>, entry: LexiconEntryModel, index: int)
    requires
        0 <= index <= right.len(),
    ensures
        rewritten(left + right, entry, left.len() + index) =~= rewritten(right, entry, index),
    decreases right.len() - index,
{
    if index < right.len() {
        lemma_rewritten_shift(left, right, entry, index + 1);
    }
}

/// Text produced by a rule is final: a later rule rewrites what stands before it and what stands
/// after it, and leaves it where it is.
pub proof fn a_replacement_is_final(
    before: Seq<SegmentModel>,
    produced: SegmentModel,
    after: Seq<SegmentModel>,
    entry: LexiconEntryModel,
)
    requires
        produced.done,
    ensures
        rewritten(before + seq![produced] + after, entry, 0) == rewritten(before, entry, 0) + seq![produced]
            + rewritten(after, entry, 0),
{
    lemma_rewritten_join(before + seq![produced], after, entry, 0);
    lemma_rewritten_join(before, seq![produced], entry, 0);
    assert(rewritten(seq![produced], entry, 1) =~= Seq::empty());
    assert(rewritten(seq![produced], entry, 0) =~= seq![produced]);
}

proof fn lemma_no_match_no_change(segments: Seq<SegmentModel>, entry: LexiconEntryModel, index: int)
    requires
        0 <= index <= segments.len(),
        !fires(segments, entry),
    ensures
        rewritten(segments, entry, index) =~= segments.skip(index),
    decreases segments.len() - index,
{
    if index < segments.len() {
        lemma_no_match_no_change(segments, entry, index + 1);
        assert(!fires_in(segments[index], entry));
    }
}

proof fn lemma_nothing_applied(text: Seq<char>, entries: Seq<LexiconEntryModel>, count: int)
    requires
        applied_after(text, entries, count).len() == 0,
    ensures
        segments_after(text, entries, count) == seq![open_segment(text)],
    decreases count,
{
    if count > 0 {
        lemma_nothing_applied(text, entries, count - 1);
        let before = segments_after(text, entries, count - 1);
        lemma_no_match_no_change(before, entries[count - 1], 0);
        assert(before.skip(0) =~= before);
    }
}

/// A line that no rule fires in is spoken as it stands.
pub proof fn text_without_a_match_is_unchanged(text: Seq<char>, entries: Seq<LexiconEntryModel>)
    requires
        applied_after(text, entries, entries.len() as int).len() == 0,
    ensures
        spoken(text, entries) == text,
{
    lemma_nothing_applied(text, entries, entries.len() as int);
    let segments = seq![open_segment(text)];
    assert(text_of_segments(segments, 0) =~= Seq::empty());
    assert(text_of_segments(segments, 1) =~= text);
}

/// No match sits inside a longer word.
pub proof fn matches_stand_alone(line: Seq<char>, needle: Seq<char>, matching: LexiconMatch, index: int)
    requires
        0 <= index < all_matches(line, needle, matching).len(),
    ensures
        matches_at(line, all_matches(line, needle, matching)[index], needle, matching),
        stands_alone(
            line,
            all_matches(line, needle, matching)[index],
            all_matches(line, needle, matching)[index] + needle.len(),
        ),
{
    lemma_match_stands_alone(line, needle, matching, 0, index);
}

proof fn lemma_match_stands_alone(
    line: Seq<char>,
    needle: Seq<char>,
    matching: LexiconMatch,
    cursor: int,
    index: int,
)
    requires
        0 <= cursor,
        0 <= index < matches_from(line, needle, matching, cursor).len(),
    ensures
        matches_at(line, matches_from(line, needle, matching, cursor)[index], needle, matching),
        stands_alone(
            line,
            matches_from(line, needle, matching, cursor)[index],
            matches_from(line, needle, matching, cursor)[index] + needle.len(),
        ),
    decreases line.len() - cursor,
{
    let all = matches_from(line, needle, matching, cursor);
    if matches_at(line, cursor, needle, matching) && stands_alone(line, cursor, cursor + needle.len()) {
        if index > 0 {
            let next = cursor + needle.len();
            assert(all[index] == matches_from(line, needle, matching, next)[index - 1]);
            lemma_match_stands_alone(line, needle, matching, next, index - 1);
        }
    } else {
        lemma_match_stands_alone(line, needle, matching, cursor + 1, index);
    }
}

/// Of the rules for a character the more specific scope comes first, and within a scope the longer
/// match.
pub proof fn specific_rules_come_first(lexicon: Seq<LexiconEntryModel>, character_id: Seq<char>, i: int, j: int)
    requires
        0 <= i < j < effective(lexicon, character_id).len(),
    ensures
        scope_rank(effective(lexicon, character_id)[i].scope) <= scope_rank(effective(lexicon, character_id)[j].scope),
        effective(lexicon, character_id)[i].scope == effective(lexicon, character_id)[j].scope ==> byte_len(
            effective(lexicon, character_id)[i].match_text,
        ) >= byte_len(effective(lexicon, character_id)[j].match_text),
{
    ranked_is_a_sorted_permutation::<&LexiconEntry>(governing_from(lexicon, character_id, 0));
    let rules = effective(lexicon, character_id);
    assert(!<&LexiconEntry as Ranked>::before(rules[j], rules[i]));
}

/// Where a rule is for one character only, no rule for all comes before it; a rule for the project comes before one
/// for every project. The rules for a character are those for it and those for everyone, each once, and no other's.
pub proof fn a_characters_own_rules_come_first(lexicon: Seq<LexiconEntryModel>, character_id: Seq<char>)
    ensures
        forall|i: int, j: int|
            0 <= i < j < effective(lexicon, character_id).len() ==> {
                let sooner = (#[trigger] effective(lexicon, character_id)[i]).scope;
                let later = (#[trigger] effective(lexicon, character_id)[j]).scope;
                &&& sooner == LexiconScope::Project ==> later != LexiconScope::Character
                &&& sooner == LexiconScope::Global ==> later == LexiconScope::Global
            },
        forall|i: int|
            0 <= i < lexicon.len() ==> (effective(lexicon, character_id).contains(#[trigger] lexicon[i])
                <==> lexicon[i].scope != LexiconScope::Character || lexicon[i].character_id == Some(character_id)),
{
    broadcast use vstd::seq_lib::group_to_multiset_ensures;

    let listed = governing_from(lexicon, character_id, 0);
    let rules = effective(lexicon, character_id);
    ranked_is_a_sorted_permutation::<&LexiconEntry>(listed);
    assert forall|i: int, j: int| 0 <= i < j < rules.len() implies {
        let sooner = (#[trigger] rules[i]).scope;
        let later = (#[trigger] rules[j]).scope;
        &&& sooner == LexiconScope::Project ==> later != LexiconScope::Character
        &&& sooner == LexiconScope::Global ==> later == LexiconScope::Global
    } by {
        specific_rules_come_first(lexicon, character_id, i, j);
    }
    assert forall|i: int| 0 <= i < lexicon.len() implies (rules.contains(#[trigger] lexicon[i]) <==> lexicon[i].scope
        != LexiconScope::Character || lexicon[i].character_id == Some(character_id)) by {
        lemma_governing_rules(lexicon, character_id, 0);
        assert(rules.contains(lexicon[i]) <==> rules.to_multiset().count(lexicon[i]) > 0);
        assert(listed.contains(lexicon[i]) <==> listed.to_multiset().count(lexicon[i]) > 0);
    }
}

proof fn lemma_governing_rules(lexicon: Seq<LexiconEntryModel>, character_id: Seq<char>, from: int)
    requires
        0 <= from <= lexicon.len(),
    ensures
        forall|i: int|
            from <= i < lexicon.len() && governs(#[trigger] lexicon[i], character_id) ==> governing_from(
                lexicon,
                character_id,
                from,
            ).contains(lexicon[i]),
        forall|k: int|
            0 <= k < governing_from(lexicon, character_id, from).len() ==> governs(
                #[trigger] governing_from(lexicon, character_id, from)[k],
                character_id,
            ),
    decreases lexicon.len() - from,
{
    if from < lexicon.len() {
        lemma_governing_rules(lexicon, character_id, from + 1);
        let rest = governing_from(lexicon, character_id, from + 1);
        let all = governing_from(lexicon, character_id, from);
        let more = all.len() - rest.len();
        assert forall|k: int| 0 <= k < all.len() implies governs(#[trigger] all[k], character_id) by {
            if k >= more {
                assert(all[k] == rest[k - more]);
            }
        }
        assert forall|i: int| from <= i < lexicon.len() && governs(#[trigger] lexicon[i], character_id) implies all.contains(
            lexicon[i],
        ) by {
            if i == from {
                assert(all[0] == lexicon[i]);
            } else {
                assert(rest.contains(lexicon[i]));
                let k = choose|k: int| 0 <= k < rest.len() && rest[k] == lexicon[i];
                assert(all[k + more] == lexicon[i]);
            }
        }
    }
}

/// A rule fires from left to right, never twice in the same place, and misses nothing: wherever its text stands alone
/// in a line, a match begins there, or one that began before still runs.
pub proof fn a_rule_misses_nothing(line: Seq<char>, needle: Seq<char>, matching: LexiconMatch, cursor: int)
    requires
        0 <= cursor <= line.len(),
        needle.len() > 0,
    ensures
        ({
            let starts = matches_from(line, needle, matching, cursor);
            &&& forall|i: int| 0 <= i < starts.len() ==> cursor <= #[trigger] starts[i] <= line.len() - needle.len()
            &&& forall|i: int, j: int| 0 <= i < j < starts.len() ==> starts[i] + needle.len() <= starts[j]
            &&& forall|at: int|
                cursor <= at < line.len() && #[trigger] matches_at(line, at, needle, matching) && stands_alone(
                    line,
                    at,
                    at + needle.len(),
                ) ==> exists|i: int| 0 <= i < starts.len() && #[trigger] starts[i] <= at < starts[i] + needle.len()
        }),
    decreases line.len() - cursor,
{
    let starts = matches_from(line, needle, matching, cursor);
    if cursor < line.len() {
        let here = matches_at(line, cursor, needle, matching) && stands_alone(line, cursor, cursor + needle.len());
        let next = if here {
            cursor + needle.len()
        } else {
            cursor + 1
        };
        a_rule_misses_nothing(line, needle, matching, next);
        let rest = matches_from(line, needle, matching, next);
        let more = starts.len() - rest.len();
        assert forall|i: int| 0 <= i < starts.len() implies cursor <= #[trigger] starts[i] <= line.len() - needle.len() by {
            if i >= more {
                assert(starts[i] == rest[i - more]);
            }
        }
        assert forall|i: int, j: int| 0 <= i < j < starts.len() implies starts[i] + needle.len() <= starts[j] by {
            assert(starts[j] == rest[j - more]);
            if i >= more {
                assert(starts[i] == rest[i - more]);
            }
        }
        assert forall|at: int|
            cursor <= at < line.len() && #[trigger] matches_at(line, at, needle, matching) && stands_alone(
                line,
                at,
                at + needle.len(),
            ) implies exists|i: int| 0 <= i < starts.len() && #[trigger] starts[i] <= at < starts[i] + needle.len() by {
            if at >= next {
                let i = choose|i: int| 0 <= i < rest.len() && #[trigger] rest[i] <= at < rest[i] + needle.len();
                assert(starts[i + more] == rest[i]);
            } else {
                assert(here);
                assert(starts[0] == cursor);
            }
        }
    }
}

/// A rule changes what it matches and nothing else: where its replacement is what stands at each match, the line is
/// spoken as it stands, and otherwise the line grows or shrinks by the difference, once for each match.
pub proof fn rewriting_keeps_the_rest(
    line: Seq<char>,
    starts: Seq<int>,
    width: int,
    replacement: Seq<char>,
    index: int,
    cursor: int,
)
    requires
        0 <= index <= starts.len(),
        0 <= cursor <= line.len(),
        width >= 0,
        forall|i: int| index <= i < starts.len() ==> cursor <= #[trigger] starts[i] && starts[i] + width <= line.len(),
        forall|i: int, j: int| index <= i < j < starts.len() ==> starts[i] + width <= starts[j],
    ensures
        ({
            let segments = rewritten_from(line, starts, width, replacement, index, cursor);
            let text = text_of_segments(segments, segments.len() as int);
            let count = starts.len() - index;
            &&& text.len() == line.len() - cursor + count * (replacement.len() - width)
            &&& (forall|i: int|
                index <= i < starts.len() ==> line.subrange(#[trigger] starts[i], starts[i] + width) == replacement)
                ==> text == line.skip(cursor)
        }),
    decreases starts.len() - index,
{
    let segments = rewritten_from(line, starts, width, replacement, index, cursor);
    reveal_with_fuel(text_of_segments, 3);
    if index >= starts.len() {
        assert(starts.len() - index == 0);
        assert(0 * (replacement.len() - width) == 0) by (nonlinear_arith);
        if cursor < line.len() {
            assert(text_of_segments(segments, 1) =~= line.skip(cursor));
        } else {
            assert(line.skip(cursor) =~= Seq::empty());
        }
    } else {
        let next = starts[index] + width;
        rewriting_keeps_the_rest(line, starts, width, replacement, index + 1, next);
        let rest = rewritten_from(line, starts, width, replacement, index + 1, next);
        let lead = if starts[index] > cursor {
            seq![open_segment(line.subrange(cursor, starts[index]))]
        } else {
            Seq::empty()
        };
        let head = lead + seq![done_segment(replacement)];
        assert(segments == head + rest);
        lemma_text_of_joined(head, rest, rest.len() as int);
        assert(line.subrange(cursor, starts[index]).len() == starts[index] - cursor);
        let head_text = text_of_segments(head, head.len() as int);
        assert(head_text =~= line.subrange(cursor, starts[index]) + replacement);
        let count = starts.len() - index;
        assert(count * (replacement.len() - width) == (count - 1) * (replacement.len() - width) + (replacement.len()
            - width)) by (nonlinear_arith);
        if forall|i: int|
            index <= i < starts.len() ==> line.subrange(#[trigger] starts[i], starts[i] + width) == replacement {
            assert(line.subrange(starts[index], starts[index] + width) == replacement);
            assert(line.subrange(cursor, starts[index]) + replacement + line.skip(next) =~= line.skip(cursor));
        }
    }
}

proof fn lemma_text_of_joined(left: Seq<SegmentModel>, right: Seq<SegmentModel>, count: int)
    requires
        0 <= count <= right.len(),
    ensures
        text_of_segments(left + right, left.len() + count) == text_of_segments(left, left.len() as int)
            + text_of_segments(right, count),
    decreases count,
{
    let all = left + right;
    if count > 0 {
        lemma_text_of_joined(left, right, count - 1);
        assert(all[left.len() + count - 1] == right[count - 1]);
        assert(text_of_segments(left, left.len() as int) + text_of_segments(right, count - 1) + right[count - 1].text
            =~= text_of_segments(left, left.len() as int) + (text_of_segments(right, count - 1) + right[count
            - 1].text));
    } else {
        lemma_text_of_prefix(left, right, left.len() as int);
        assert(text_of_segments(right, 0) =~= Seq::empty());
        assert(text_of_segments(left, left.len() as int) + text_of_segments(right, 0) =~= text_of_segments(
            left,
            left.len() as int,
        ));
    }
}

proof fn lemma_text_of_prefix(left: Seq<SegmentModel>, right: Seq<SegmentModel>, count: int)
    requires
        0 <= count <= left.len(),
    ensures
        text_of_segments(left + right, count) == text_of_segments(left, count),
    decreases count,
{
    if count > 0 {
        lemma_text_of_prefix(left, right, count - 1);
        assert((left + right)[count - 1] == left[count - 1]);
    }
}

} // verus!
