//! The cast of a project, and scripts that say who speaks.
//!
//! A cast member binds one named character to the exact voice, model, language, and delivery
//! defaults that perform it. A dialogue turn is one character's uninterrupted contribution to the
//! script. Parsing is deliberately strict: an unknown speaker, an empty turn, or an unbalanced
//! parenthetical is reported against its source line rather than silently narrated by whichever
//! voice happened to be selected.

use crate::error::{fault_at, or_else, outcome, refusal, refuse, unless, Fault, VideoError, VideoErrorCode, VideoResult};
use crate::manifest::{CastDelivery, CastMember, CastMemberModel, DialogueTurn, DialogueTurnModel};
use crate::rules::{
    identifier_fault, language_fault, nonempty_fault, optional_identifier_fault, timestamp_fault,
    validate_identifier, validate_language_tag, validate_nonempty, validate_optional_identifier,
    validate_timestamp_text,
};
use crate::text::{
    blank, byte_len, bytes_in, char_place, chars_of, decimal, decimal_text, find_char, is_blank, is_letter,
    is_letter_or_number, is_lowercase_letter, is_space, lemma_chars_within_bytes, lowercase, text_concat3, text_eq,
    text_of, trimmed, trimmed_end, trimmed_start,
};
use crate::time::Validate;
use vstd::prelude::*;

verus! {

pub const MAX_CAST_MEMBERS: usize = 32;

pub const MAX_DIALOGUE_TURNS: usize = 5_000;

pub const MAX_TURN_TEXT_BYTES: usize = 8_000;

pub const MAX_DIRECTION_BYTES: usize = 500;

pub const MAX_SCRIPT_BYTES: usize = 2_097_152;

pub const MAX_SPEAKER_NAME_BYTES: usize = 64;

/// Delivery is stored in milli-units so a saved performance is reproducible without drift across a
/// save, reload, and re-render.
pub const NATURAL_RATE_MILLI: i32 = 1_000;

pub const MIN_RATE_MILLI: i32 = 250;

pub const MAX_RATE_MILLI: i32 = 4_000;

pub const MAX_ABS_PITCH_MILLI: i32 = 1_000;

pub const MAX_ENERGY_MILLI: i32 = 2_000;

// ---------------------------------------------------------------------------------------------
// Characters
// ---------------------------------------------------------------------------------------------
impl Default for CastDelivery {
    fn default() -> (delivery: Self)
        ensures
            delivery == (CastDelivery {
                rate_milli: NATURAL_RATE_MILLI,
                pitch_milli: 0,
                energy_milli: NATURAL_RATE_MILLI,
            }),
    {
        CastDelivery {
            rate_milli: NATURAL_RATE_MILLI,
            pitch_milli: 0,
            energy_milli: NATURAL_RATE_MILLI,
        }
    }
}

impl Validate for CastDelivery {
    open spec fn fault_of(model: CastDelivery) -> Option<Fault> {
        or_else(
            unless(
                MIN_RATE_MILLI <= model.rate_milli <= MAX_RATE_MILLI,
                fault_at(
                    VideoErrorCode::InvalidCast,
                    "delivery rate must be between 0.25x and 4x natural speed"@,
                    "cast.delivery.rate_milli"@,
                ),
            ),
            or_else(
                unless(
                    -MAX_ABS_PITCH_MILLI <= model.pitch_milli <= MAX_ABS_PITCH_MILLI,
                    fault_at(
                        VideoErrorCode::InvalidCast,
                        "delivery pitch offset is outside the supported range"@,
                        "cast.delivery.pitch_milli"@,
                    ),
                ),
                unless(
                    0 <= model.energy_milli <= MAX_ENERGY_MILLI,
                    fault_at(
                        VideoErrorCode::InvalidCast,
                        "delivery energy is outside the supported range"@,
                        "cast.delivery.energy_milli"@,
                    ),
                ),
            ),
        )
    }

    fn validate(&self) -> (result: VideoResult<()>) {
        if self.rate_milli < MIN_RATE_MILLI || self.rate_milli > MAX_RATE_MILLI {
            return Err(
                refuse(
                    VideoErrorCode::InvalidCast,
                    "delivery rate must be between 0.25x and 4x natural speed",
                    "cast.delivery.rate_milli",
                ),
            );
        }
        if self.pitch_milli < -MAX_ABS_PITCH_MILLI || self.pitch_milli > MAX_ABS_PITCH_MILLI {
            return Err(
                refuse(
                    VideoErrorCode::InvalidCast,
                    "delivery pitch offset is outside the supported range",
                    "cast.delivery.pitch_milli",
                ),
            );
        }
        if self.energy_milli < 0 || self.energy_milli > MAX_ENERGY_MILLI {
            return Err(
                refuse(
                    VideoErrorCode::InvalidCast,
                    "delivery energy is outside the supported range",
                    "cast.delivery.energy_milli",
                ),
            );
        }
        Ok(())
    }
}

/// What a script's speaker token is compared by.
pub open spec fn speaker_key(name: Seq<char>) -> Seq<char> {
    lowercase(trimmed(name))
}

pub fn normalize_speaker_name(value: &str) -> (key: String)
    ensures
        key@ == speaker_key(value@),
{
    value.trim().to_lowercase()
}

impl CastMember {
    /// The comparison key used to resolve a script's speaker token to this character.
    pub fn match_key(&self) -> (key: String)
        ensures
            key@ == speaker_key(self.name@),
    {
        normalize_speaker_name(self.name.as_str())
    }
}

pub open spec fn is_speaker_char(c: char) -> bool {
    is_letter_or_number(c) || c == ' ' || c == '_' || c == '-' || c == '.' || c == '\''
}

/// Whether a token could name a speaker.
pub open spec fn is_speaker_token(token: Seq<char>) -> bool {
    &&& token.len() > 0
    &&& byte_len(token) <= MAX_SPEAKER_NAME_BYTES
    &&& forall|i: int| 0 <= i < token.len() ==> is_speaker_char(#[trigger] token[i])
}

fn could_name_speaker(token: &str) -> (result: bool)
    ensures
        result == is_speaker_token(token@),
{
    let chars: Vec<char> = chars_of(token);
    if chars.len() == 0 || bytes_in(token) > MAX_SPEAKER_NAME_BYTES {
        return false;
    }
    let mut index: usize = 0;
    while index < chars.len()
        invariant
            chars@ == token@,
            index <= chars.len(),
            forall|i: int| 0 <= i < index ==> is_speaker_char(#[trigger] token@[i]),
        decreases chars.len() - index,
    {
        let c: char = chars[index];
        if !(c.is_alphanumeric() || c == ' ' || c == '_' || c == '-' || c == '.' || c == '\'') {
            assert(!is_speaker_char(token@[index as int]));
            return false;
        }
        index += 1;
    }
    true
}

pub open spec fn speaker_name_fault(name: Seq<char>, field: Seq<char>) -> Option<Fault> {
    unless(
        is_speaker_token(trimmed(name)),
        fault_at(
            VideoErrorCode::InvalidCast,
            "a cast name must be 1..=64 letters, digits, spaces, or '-_.\\''"@,
            field,
        ),
    )
}

fn validate_speaker_name(value: &str, field: &str) -> (result: VideoResult<()>)
    ensures
        refusal(result) == speaker_name_fault(value@, field@),
{
    if !could_name_speaker(value.trim()) {
        return Err(
            refuse(
                VideoErrorCode::InvalidCast,
                "a cast name must be 1..=64 letters, digits, spaces, or '-_.\\''",
                field,
            ),
        );
    }
    Ok(())
}

impl Validate for CastMember {
    open spec fn fault_of(model: CastMemberModel) -> Option<Fault> {
        or_else(
            identifier_fault(model.id, "cast.id"@),
            or_else(
                speaker_name_fault(model.name, "cast.name"@),
                or_else(
                    nonempty_fault(model.display_name, "cast.display_name"@, 256),
                    or_else(
                        identifier_fault(model.voice_id, "cast.voice_id"@),
                        or_else(
                            nonempty_fault(model.model_id, "cast.model_id"@, 256),
                            or_else(
                                language_fault(model.language, "cast.language"@),
                                or_else(
                                    CastDelivery::fault_of(model.delivery),
                                    or_else(
                                        optional_identifier_fault(
                                            model.consent_reference_id,
                                            "cast.consent_reference_id"@,
                                        ),
                                        or_else(
                                            unless(
                                                model.notes matches Some(notes) ==> byte_len(notes) <= 2_000,
                                                fault_at(
                                                    VideoErrorCode::InvalidCast,
                                                    "cast notes are limited to 2000 bytes"@,
                                                    "cast.notes"@,
                                                ),
                                            ),
                                            timestamp_fault(model.created_at, "cast.created_at"@),
                                        ),
                                    ),
                                ),
                            ),
                        ),
                    ),
                ),
            ),
        )
    }

    fn validate(&self) -> (result: VideoResult<()>) {
        validate_identifier(self.id.as_str(), "cast.id")?;
        validate_speaker_name(self.name.as_str(), "cast.name")?;
        validate_nonempty(self.display_name.as_str(), "cast.display_name", 256)?;
        validate_identifier(self.voice_id.as_str(), "cast.voice_id")?;
        validate_nonempty(self.model_id.as_str(), "cast.model_id", 256)?;
        validate_language_tag(self.language.as_str(), "cast.language")?;
        self.delivery.validate()?;
        validate_optional_identifier(&self.consent_reference_id, "cast.consent_reference_id")?;
        if let Some(notes) = &self.notes {
            if bytes_in(notes.as_str()) > 2_000 {
                return Err(
                    refuse(
                        VideoErrorCode::InvalidCast,
                        "cast notes are limited to 2000 bytes",
                        "cast.notes",
                    ),
                );
            }
        }
        validate_timestamp_text(self.created_at.as_str(), "cast.created_at")
    }
}

impl DialogueTurn {
    /// The exact text a narration take for this turn must have been asked to speak.
    pub fn spoken_text(&self) -> (text: &str)
        ensures
            text@ == self.text@,
    {
        self.text.as_str()
    }
}

impl Validate for DialogueTurn {
    open spec fn fault_of(model: DialogueTurnModel) -> Option<Fault> {
        or_else(
            identifier_fault(model.id, "dialogue.id"@),
            or_else(
                optional_identifier_fault(model.scene_id, "dialogue.scene_id"@),
                or_else(
                    identifier_fault(model.character_id, "dialogue.character_id"@),
                    or_else(
                        unless(
                            !blank(model.text) && byte_len(model.text) <= MAX_TURN_TEXT_BYTES,
                            fault_at(
                                VideoErrorCode::InvalidDialogue,
                                "turn text must be non-empty and at most "@ + decimal(
                                    MAX_TURN_TEXT_BYTES as nat,
                                ) + " bytes"@,
                                "dialogue.text"@,
                            ),
                        ),
                        or_else(
                            unless(
                                model.direction matches Some(direction) ==> !blank(direction) && byte_len(
                                    direction,
                                ) <= MAX_DIRECTION_BYTES,
                                fault_at(
                                    VideoErrorCode::InvalidDialogue,
                                    "a stage direction must be non-empty and at most "@ + decimal(
                                        MAX_DIRECTION_BYTES as nat,
                                    ) + " bytes"@,
                                    "dialogue.direction"@,
                                ),
                            ),
                            unless(
                                model.source_line != 0,
                                fault_at(
                                    VideoErrorCode::InvalidDialogue,
                                    "source_line is 1-indexed and cannot be zero"@,
                                    "dialogue.source_line"@,
                                ),
                            ),
                        ),
                    ),
                ),
            ),
        )
    }

    fn validate(&self) -> (result: VideoResult<()>) {
        validate_identifier(self.id.as_str(), "dialogue.id")?;
        validate_optional_identifier(&self.scene_id, "dialogue.scene_id")?;
        validate_identifier(self.character_id.as_str(), "dialogue.character_id")?;
        if is_blank(self.text.as_str()) || bytes_in(self.text.as_str()) > MAX_TURN_TEXT_BYTES {
            let limit: String = decimal_text(MAX_TURN_TEXT_BYTES as u64);
            let message: String = text_concat3(
                "turn text must be non-empty and at most ",
                limit.as_str(),
                " bytes",
            );
            return Err(refuse(VideoErrorCode::InvalidDialogue, message.as_str(), "dialogue.text"));
        }
        if let Some(direction) = &self.direction {
            if is_blank(direction.as_str()) || bytes_in(direction.as_str()) > MAX_DIRECTION_BYTES {
                let limit: String = decimal_text(MAX_DIRECTION_BYTES as u64);
                let message: String = text_concat3(
                    "a stage direction must be non-empty and at most ",
                    limit.as_str(),
                    " bytes",
                );
                return Err(
                    refuse(VideoErrorCode::InvalidDialogue, message.as_str(), "dialogue.direction"),
                );
            }
        }
        if self.source_line == 0 {
            return Err(
                refuse(
                    VideoErrorCode::InvalidDialogue,
                    "source_line is 1-indexed and cannot be zero",
                    "dialogue.source_line",
                ),
            );
        }
        Ok(())
    }
}

// ---------------------------------------------------------------------------------------------
// Who a token names
// ---------------------------------------------------------------------------------------------
/// The first member from a place on whom a key names.
pub open spec fn member_from(cast: Seq<CastMemberModel>, key: Seq<char>, index: int) -> Option<int>
    decreases cast.len() - index,
{
    if index < 0 || index >= cast.len() {
        None
    } else if speaker_key(cast[index].name) == key {
        Some(index)
    } else {
        member_from(cast, key, index + 1)
    }
}

/// Whether a member before a place has the same key as the one there.
pub open spec fn shares_key(cast: Seq<CastMemberModel>, index: int) -> bool {
    exists|i: int| 0 <= i < index && speaker_key((#[trigger] cast[i]).name) == speaker_key(cast[index].name)
}

pub open spec fn cast_fault_from(cast: Seq<CastMemberModel>, index: int) -> Option<Fault>
    decreases cast.len() - index,
{
    if index < 0 || index >= cast.len() {
        None
    } else {
        or_else(
            CastMember::fault_of(cast[index]),
            or_else(
                unless(
                    !shares_key(cast, index),
                    fault_at(
                        VideoErrorCode::InvalidCast,
                        "two cast members share the script name "@ + cast[index].name
                            + "; names must be distinguishable"@,
                        "cast.name"@,
                    ),
                ),
                cast_fault_from(cast, index + 1),
            ),
        )
    }
}

/// A member of a cast under the key that names them in a script.
#[derive(Debug)]
pub struct IndexedMember<'a> {
    pub key: String,
    pub member: &'a CastMember,
}

/// What an [`IndexedMember`] holds, as mathematical values.
pub struct IndexedMemberModel {
    pub key: Seq<char>,
    pub member: CastMemberModel,
}

impl<'a> DeepView for IndexedMember<'a> {
    type V = IndexedMemberModel;

    open spec fn deep_view(&self) -> IndexedMemberModel {
        IndexedMemberModel { key: self.key@, member: self.member.deep_view() }
    }
}

/// The members of a cast, each under the key that names them.
pub open spec fn cast_index(cast: Seq<CastMemberModel>) -> Seq<IndexedMemberModel> {
    Seq::new(
        cast.len(),
        |i: int| (IndexedMemberModel { key: speaker_key(cast[i].name), member: cast[i] }),
    )
}

/// Resolves every declared cast member by its script token: the result holds each member, in the order
/// of the cast, under a key of their own.
///
/// Two characters that differ only by capitalization or surrounding whitespace would make the
/// script ambiguous, so the collision is rejected here rather than resolved arbitrarily at parse
/// time.
pub fn index_cast_by_name<'a>(cast: &'a [CastMember]) -> (result: VideoResult<Vec<IndexedMember<'a>>>)
    ensures
        refusal(result) == cast_fault_from(cast.deep_view(), 0),
        result matches Ok(index) ==> {
            &&& index.deep_view() == cast_index(cast.deep_view())
            &&& forall|i: int, j: int|
                0 <= i < j < index.len() ==> (#[trigger] index.deep_view()[i]).key != (
                #[trigger] index.deep_view()[j]).key
        },
{
    let ghost model = cast.deep_view();
    let mut members: Vec<IndexedMember<'a>> = Vec::new();
    let mut index: usize = 0;
    while index < cast.len()
        invariant
            index <= cast.len(),
            model == cast.deep_view(),
            members.len() == index,
            forall|i: int| 0 <= i < index ==> (#[trigger] members[i]).deep_view() == cast_index(model)[i],
            forall|i: int, j: int|
                0 <= i < j < index ==> (#[trigger] cast_index(model)[i]).key != (#[trigger] cast_index(model)[j]).key,
            cast_fault_from(model, 0) == cast_fault_from(model, index as int),
        decreases cast.len() - index,
    {
        let member: &'a CastMember = &cast[index];
        let ghost own = model[index as int];
        assert(own == member.deep_view());
        member.validate()?;
        let key: String = member.match_key();
        let mut earlier: usize = 0;
        while earlier < index
            invariant
                earlier <= index,
                members.len() == index,
                index < cast.len(),
                model == cast.deep_view(),
                own == model[index as int],
                own == member.deep_view(),
                key@ == speaker_key(own.name),
                CastMember::fault_of(own) is None,
                forall|i: int| 0 <= i < index ==> (#[trigger] members[i]).deep_view() == cast_index(model)[i],
                forall|i: int, j: int|
                    0 <= i < j < index ==> (#[trigger] cast_index(model)[i]).key != (
                    #[trigger] cast_index(model)[j]).key,
                forall|i: int| 0 <= i < earlier ==> speaker_key((#[trigger] model[i]).name) != key@,
                cast_fault_from(model, 0) == cast_fault_from(model, index as int),
            decreases index - earlier,
        {
            assert(members[earlier as int].deep_view() == cast_index(model)[earlier as int]);
            if text_eq(members[earlier].key.as_str(), key.as_str()) {
                assert(shares_key(model, index as int));
                let message: String = text_concat3(
                    "two cast members share the script name ",
                    member.name.as_str(),
                    "; names must be distinguishable",
                );
                return Err(refuse(VideoErrorCode::InvalidCast, message.as_str(), "cast.name"));
            }
            earlier += 1;
        }
        assert(!shares_key(model, index as int));
        assert forall|i: int, j: int| 0 <= i < j < index + 1 implies (#[trigger] cast_index(model)[i]).key != (
        #[trigger] cast_index(model)[j]).key by {
            if j == index {
                assert(speaker_key(model[i].name) != key@);
            }
        }
        members.push(IndexedMember { key, member });
        index += 1;
    }
    assert(members.deep_view() =~= cast_index(model));
    Ok(members)
}

fn find_member(cast: &[CastMember], index: &Vec<IndexedMember>, speaker: &str) -> (result: Option<usize>)
    requires
        index.deep_view() == cast_index(cast.deep_view()),
    ensures
        match result {
            Some(place) => place < cast.deep_view().len() && member_from(
                cast.deep_view(),
                speaker_key(speaker@),
                0,
            ) == Some(place as int),
            None => member_from(cast.deep_view(), speaker_key(speaker@), 0) is None,
        },
{
    let ghost model = cast.deep_view();
    let key: String = normalize_speaker_name(speaker);
    let mut place: usize = 0;
    assert(index.deep_view().len() == index.len());
    while place < index.len()
        invariant
            place <= index.len(),
            model == cast.deep_view(),
            index.len() == model.len(),
            index.deep_view() == cast_index(model),
            key@ == speaker_key(speaker@),
            member_from(model, key@, 0) == member_from(model, key@, place as int),
        decreases index.len() - place,
    {
        assert(index.deep_view()[place as int].key == speaker_key(model[place as int].name));
        if text_eq(index[place].key.as_str(), key.as_str()) {
            return Some(place);
        }
        place += 1;
    }
    None
}

// ---------------------------------------------------------------------------------------------
// Lines
// ---------------------------------------------------------------------------------------------
/// The token before a line's first colon and what follows it, where the token could name a speaker.
///
/// The token is deliberately narrow. Prose containing a colon must not be mistaken for a speaker
/// header, so a token containing a sentence-like character is none.
pub open spec fn speaker_header(line: Seq<char>) -> Option<(Seq<char>, Seq<char>)> {
    let text = trimmed_start(line);
    match char_place(text, ':', 0) {
        Some(colon) => {
            let speaker = trimmed(text.take(colon));
            if is_speaker_token(speaker) {
                Some((speaker, text.skip(colon + 1)))
            } else {
                None
            }
        },
        None => None,
    }
}

/// A screenplay speaker cue is written in capitals. Requiring at least one letter and no lowercase
/// letter keeps ordinary prose containing a colon from being read as a new speaker, while still
/// catching a misspelled character name instead of narrating it with the wrong voice.
pub open spec fn is_screenplay_cue(token: Seq<char>) -> bool {
    &&& exists|i: int| 0 <= i < token.len() && is_letter(#[trigger] token[i])
    &&& forall|i: int| 0 <= i < token.len() ==> !is_lowercase_letter(#[trigger] token[i])
}

/// The header of a line: a token that names someone in the cast, or a screenplay cue.
pub open spec fn header_of(line: Seq<char>, cast: Seq<CastMemberModel>) -> Option<(Seq<char>, Seq<char>)> {
    match speaker_header(line) {
        Some(header) => if member_from(cast, speaker_key(header.0), 0) is Some || is_screenplay_cue(header.0) {
            Some(header)
        } else {
            None
        },
        None => None,
    }
}

fn split_speaker_header(line: &str) -> (result: Option<(String, String)>)
    ensures
        match result {
            Some(header) => speaker_header(line@) == Some((header.0@, header.1@)),
            None => speaker_header(line@) is None,
        },
{
    let text: Vec<char> = chars_of(line.trim_start());
    match find_char(&text, ':', 0) {
        Some(colon) => {
            let before: String = text_of(&text, 0, colon);
            assert(before@ =~= text@.take(colon as int));
            let speaker: &str = before.as_str().trim();
            if could_name_speaker(speaker) {
                let rest: String = text_of(&text, colon + 1, text.len());
                assert(rest@ =~= text@.skip(colon + 1));
                Some((speaker.to_owned(), rest))
            } else {
                None
            }
        },
        None => None,
    }
}

fn is_cue(token: &str) -> (result: bool)
    ensures
        result == is_screenplay_cue(token@),
{
    let chars: Vec<char> = chars_of(token);
    let mut lettered: bool = false;
    let mut index: usize = 0;
    while index < chars.len()
        invariant
            chars@ == token@,
            index <= chars.len(),
            lettered <==> exists|i: int| 0 <= i < index && is_letter(#[trigger] token@[i]),
            forall|i: int| 0 <= i < index ==> !is_lowercase_letter(#[trigger] token@[i]),
        decreases chars.len() - index,
    {
        let c: char = chars[index];
        if c.is_lowercase() {
            assert(is_lowercase_letter(token@[index as int]));
            return false;
        }
        if c.is_alphabetic() {
            assert(is_letter(token@[index as int]));
            lettered = true;
        }
        index += 1;
    }
    lettered
}

// ---------------------------------------------------------------------------------------------
// Turns
// ---------------------------------------------------------------------------------------------
/// A parsed turn before it is assigned a durable identifier.
#[derive(Clone, Debug, PartialEq, Eq)]
pub struct ParsedTurn {
    pub character_id: String,
    pub speaker_name: String,
    pub text: String,
    pub direction: Option<String>,
    pub source_line: u32,
}

/// What a [`ParsedTurn`] holds, as mathematical values.
pub struct ParsedTurnModel {
    pub character_id: Seq<char>,
    pub speaker_name: Seq<char>,
    pub text: Seq<char>,
    pub direction: Option<Seq<char>>,
    pub source_line: u32,
}

impl DeepView for ParsedTurn {
    type V = ParsedTurnModel;

    open spec fn deep_view(&self) -> ParsedTurnModel {
        ParsedTurnModel {
            character_id: self.character_id@,
            speaker_name: self.speaker_name@,
            text: self.text@,
            direction: self.direction.deep_view(),
            source_line: self.source_line,
        }
    }
}

pub open spec fn script_fault(message: Seq<char>) -> Fault {
    fault_at(VideoErrorCode::InvalidDialogue, message, "script"@)
}

/// A message about a line of the script.
pub open spec fn about_line(lead: Seq<char>, line: u32, tail: Seq<char>) -> Seq<char> {
    lead + decimal(line as nat) + tail
}

fn refuse_line(lead: &str, line: u32, tail: &str) -> (error: VideoError)
    ensures
        error.deep_view() == script_fault(about_line(lead@, line, tail@)),
{
    let number: String = decimal_text(line as u64);
    let message: String = text_concat3(lead, number.as_str(), tail);
    refuse(VideoErrorCode::InvalidDialogue, message.as_str(), "script")
}

/// A turn's stage direction and what it says, or why they cannot be told apart.
pub open spec fn direction_of(text: Seq<char>, line: u32) -> Result<(Option<Seq<char>>, Seq<char>), Fault> {
    let start = trimmed_start(text);
    if !(start.len() > 0 && start[0] == '(') {
        Ok((None, trimmed(text)))
    } else {
        match char_place(start, ')', 0) {
            Some(close) => {
                let direction = trimmed(start.subrange(1, close));
                if direction.len() == 0 {
                    Err(script_fault(about_line("the stage direction at line "@, line, " is empty"@)))
                } else if byte_len(direction) > MAX_DIRECTION_BYTES {
                    Err(
                        script_fault(
                            about_line(
                                "the stage direction at line "@,
                                line,
                                " exceeds "@ + decimal(MAX_DIRECTION_BYTES as nat) + " bytes"@,
                            ),
                        ),
                    )
                } else {
                    Ok((Some(direction), trimmed(start.skip(close + 1))))
                }
            },
            None => Err(
                script_fault(
                    about_line("the stage direction opened at line "@, line, " is never closed"@),
                ),
            ),
        }
    }
}

/// A turn with its leading direction taken off, or why it is refused.
pub open spec fn finished(turn: ParsedTurnModel) -> Result<ParsedTurnModel, Fault> {
    match direction_of(turn.text, turn.source_line) {
        Ok(parts) => if blank(parts.1) {
            Err(
                script_fault(
                    about_line(
                        "the turn opened at line "@,
                        turn.source_line,
                        " has a speaker but nothing to say"@,
                    ),
                ),
            )
        } else if byte_len(parts.1) > MAX_TURN_TEXT_BYTES {
            Err(
                script_fault(
                    about_line(
                        "the turn opened at line "@,
                        turn.source_line,
                        " exceeds "@ + decimal(MAX_TURN_TEXT_BYTES as nat) + " bytes"@,
                    ),
                ),
            )
        } else {
            Ok(ParsedTurnModel { text: parts.1, direction: parts.0, ..turn })
        },
        Err(refused) => Err(refused),
    }
}

fn limit_tail(limit: usize) -> (tail: String)
    ensures
        tail@ == " exceeds "@ + decimal(limit as nat) + " bytes"@,
{
    let number: String = decimal_text(limit as u64);
    text_concat3(" exceeds ", number.as_str(), " bytes")
}

/// Takes a leading `(...)` direction off a turn, rejecting an unbalanced parenthetical rather than
/// speaking a stray bracket.
fn split_leading_direction(text: &str, line: u32) -> (result: VideoResult<(Option<String>, String)>)
    ensures
        match result {
            Ok(parts) => direction_of(text@, line) == Ok::<(Option<Seq<char>>, Seq<char>), Fault>(
                (parts.0.deep_view(), parts.1@),
            ),
            Err(error) => direction_of(text@, line) == Err::<(Option<Seq<char>>, Seq<char>), Fault>(
                error.deep_view(),
            ),
        },
{
    let start: Vec<char> = chars_of(text.trim_start());
    if start.len() == 0 || start[0] != '(' {
        return Ok((None, text.trim().to_owned()));
    }
    match find_char(&start, ')', 0) {
        Some(close) => {
            assert(close > 0);
            let inside: String = text_of(&start, 1, close);
            let direction: String = inside.as_str().trim().to_owned();
            if direction.as_str().unicode_len() == 0 {
                return Err(refuse_line("the stage direction at line ", line, " is empty"));
            }
            if bytes_in(direction.as_str()) > MAX_DIRECTION_BYTES {
                let tail: String = limit_tail(MAX_DIRECTION_BYTES);
                return Err(refuse_line("the stage direction at line ", line, tail.as_str()));
            }
            let rest: String = text_of(&start, close + 1, start.len());
            assert(rest@ =~= start@.skip(close + 1));
            Ok((Some(direction), rest.as_str().trim().to_owned()))
        },
        None => Err(refuse_line("the stage direction opened at line ", line, " is never closed")),
    }
}

/// Extracts a leading parenthetical direction and rejects a turn that says nothing.
fn finish_turn(turn: ParsedTurn) -> (result: VideoResult<ParsedTurn>)
    ensures
        outcome(result) == finished(turn.deep_view()),
{
    let (direction, spoken) = split_leading_direction(turn.text.as_str(), turn.source_line)?;
    if is_blank(spoken.as_str()) {
        return Err(
            refuse_line(
                "the turn opened at line ",
                turn.source_line,
                " has a speaker but nothing to say",
            ),
        );
    }
    if bytes_in(spoken.as_str()) > MAX_TURN_TEXT_BYTES {
        let tail: String = limit_tail(MAX_TURN_TEXT_BYTES);
        return Err(refuse_line("the turn opened at line ", turn.source_line, tail.as_str()));
    }
    Ok(ParsedTurn { text: spoken, direction, ..turn })
}

// ---------------------------------------------------------------------------------------------
// The script
// ---------------------------------------------------------------------------------------------
/// How far a script has been read: the turns so far, and the one that is still open.
pub struct Reading {
    pub turns: Vec<ParsedTurn>,
    pub open: Option<ParsedTurn>,
}

/// What a [`Reading`] holds, as mathematical values.
pub struct ReadingModel {
    pub turns: Seq<ParsedTurnModel>,
    pub open: Option<ParsedTurnModel>,
}

impl DeepView for Reading {
    type V = ReadingModel;

    open spec fn deep_view(&self) -> ReadingModel {
        ReadingModel { turns: self.turns.deep_view(), open: self.open.deep_view() }
    }
}

/// The reading once its open turn has been closed.
pub open spec fn closed(reading: ReadingModel) -> Result<ReadingModel, Fault> {
    match reading.open {
        Some(turn) => match finished(turn) {
            Ok(done) => Ok(ReadingModel { turns: reading.turns.push(done), open: None }),
            Err(refused) => Err(refused),
        },
        None => Ok(reading),
    }
}

/// The reading once a speaker's header has been read.
pub open spec fn opened(
    reading: ReadingModel,
    cast: Seq<CastMemberModel>,
    speaker: Seq<char>,
    remainder: Seq<char>,
    number: u32,
) -> Result<ReadingModel, Fault> {
    match member_from(cast, speaker_key(speaker), 0) {
        Some(place) => match closed(reading) {
            Ok(before) => if before.turns.len() >= MAX_DIALOGUE_TURNS {
                Err(too_many_turns(number))
            } else {
                Ok(
                    ReadingModel {
                        turns: before.turns,
                        open: Some(
                            ParsedTurnModel {
                                character_id: cast[place].id,
                                speaker_name: cast[place].name,
                                text: trimmed(remainder),
                                direction: None,
                                source_line: number,
                            },
                        ),
                    },
                )
            },
            Err(refused) => Err(refused),
        },
        None => Err(
            fault_at(
                VideoErrorCode::UnknownSpeaker,
                "line "@ + decimal(number as nat) + " is spoken by "@ + speaker + ", who is not in the cast"@,
                "script"@,
            ),
        ),
    }
}

/// The refusal of a line that opens more turns than a script may have.
pub open spec fn too_many_turns(number: u32) -> Fault {
    script_fault(
        about_line(
            "line "@,
            number,
            " opens one turn too many; a script is limited to "@ + decimal(MAX_DIALOGUE_TURNS as nat) + " turns"@,
        ),
    )
}

/// A turn with one more line.
pub open spec fn continued_text(text: Seq<char>, line: Seq<char>) -> Seq<char> {
    if text.len() > 0 {
        text.push(' ') + trimmed(line)
    } else {
        text + trimmed(line)
    }
}

/// The reading once a line that opens no turn has been read.
pub open spec fn continued(reading: ReadingModel, line: Seq<char>, number: u32) -> Result<ReadingModel, Fault> {
    match reading.open {
        Some(turn) => {
            let text = continued_text(turn.text, line);
            if byte_len(text) > MAX_TURN_TEXT_BYTES {
                Err(
                    script_fault(
                        about_line(
                            "the turn continuing at line "@,
                            number,
                            " exceeds "@ + decimal(MAX_TURN_TEXT_BYTES as nat) + " bytes"@,
                        ),
                    ),
                )
            } else {
                Ok(
                    ReadingModel {
                        turns: reading.turns,
                        open: Some(ParsedTurnModel { text, ..turn }),
                    },
                )
            }
        },
        None => Err(
            script_fault(
                about_line(
                    "line "@,
                    number,
                    " has no speaker; every line must follow a NAME: header"@,
                ),
            ),
        ),
    }
}

/// The reading once one more line has been read.
pub open spec fn read_line(reading: ReadingModel, cast: Seq<CastMemberModel>, line: Seq<char>, number: u32) -> Result<
    ReadingModel,
    Fault,
> {
    if blank(line) {
        closed(reading)
    } else {
        match header_of(line, cast) {
            Some(header) => opened(reading, cast, header.0, header.1, number),
            None => continued(reading, line, number),
        }
    }
}

/// Where the line that starts at a place ends.
pub open spec fn line_end(script: Seq<char>, start: int) -> int {
    match char_place(script, '\n', start) {
        Some(place) => place,
        None => script.len() as int,
    }
}

/// The reading once the lines from a place on have been read, `number` being that of the first. A
/// line ends at a line feed; a carriage return before it is trailing whitespace.
pub open spec fn read_from(
    script: Seq<char>,
    cast: Seq<CastMemberModel>,
    reading: ReadingModel,
    start: int,
    number: int,
) -> Result<ReadingModel, Fault>
    decreases script.len() + 1 - start,
    when 0 <= start
    via read_from_decreases
{
    if start >= script.len() {
        Ok(reading)
    } else {
        let end = line_end(script, start);
        match read_line(reading, cast, trimmed_end(script.subrange(start, end)), number as u32) {
            Ok(next) => read_from(script, cast, next, end + 1, number + 1),
            Err(refused) => Err(refused),
        }
    }
}

#[via_fn]
proof fn read_from_decreases(
    script: Seq<char>,
    cast: Seq<CastMemberModel>,
    reading: ReadingModel,
    start: int,
    number: int,
) {
    lemma_line_end(script, start);
}

proof fn lemma_line_end(script: Seq<char>, start: int)
    requires
        0 <= start,
    ensures
        start <= script.len() ==> start <= line_end(script, start) <= script.len(),
    decreases script.len() - start,
{
    if start < script.len() && script[start] != '\n' {
        lemma_line_end(script, start + 1);
    }
}

pub open spec fn nothing_read() -> ReadingModel {
    ReadingModel { turns: Seq::empty(), open: None }
}

/// The turns of a script, or why it is refused.
pub open spec fn parsed_script(script: Seq<char>, cast: Seq<CastMemberModel>) -> Result<Seq<ParsedTurnModel>, Fault> {
    if byte_len(script) > MAX_SCRIPT_BYTES {
        Err(script_fault("a script is limited to "@ + decimal(MAX_SCRIPT_BYTES as nat) + " bytes"@))
    } else if cast_fault_from(cast, 0) is Some {
        Err(cast_fault_from(cast, 0)->0)
    } else if cast.len() == 0 {
        Err(
            fault_at(
                VideoErrorCode::InvalidCast,
                "a dialogue script requires at least one cast member"@,
                "cast"@,
            ),
        )
    } else {
        match read_from(script, cast, nothing_read(), 0, 1) {
            Ok(reading) => match closed(reading) {
                Ok(last) => if last.turns.len() == 0 {
                    Err(script_fault("the script contains no dialogue turns"@))
                } else {
                    Ok(last.turns)
                },
                Err(refused) => Err(refused),
            },
            Err(refused) => Err(refused),
        }
    }
}

fn close(reading: Reading) -> (result: VideoResult<Reading>)
    ensures
        outcome(result) == closed(reading.deep_view()),
{
    let ghost model = reading.deep_view();
    let Reading { turns, open } = reading;
    let mut turns: Vec<ParsedTurn> = turns;
    match open {
        Some(turn) => {
            let done: ParsedTurn = finish_turn(turn)?;
            let ghost done_model = done.deep_view();
            turns.push(done);
            assert(turns.deep_view() =~= model.turns.push(done_model));
            Ok(Reading { turns, open: None })
        },
        None => Ok(Reading { turns, open: None }),
    }
}

fn refuse_turns(number: u32) -> (error: VideoError)
    ensures
        error.deep_view() == too_many_turns(number),
{
    let limit: String = decimal_text(MAX_DIALOGUE_TURNS as u64);
    let tail: String = text_concat3(" opens one turn too many; a script is limited to ", limit.as_str(), " turns");
    refuse_line("line ", number, tail.as_str())
}

fn open_turn(
    reading: Reading,
    cast: &[CastMember],
    index: &Vec<IndexedMember>,
    speaker: &str,
    remainder: &str,
    number: u32,
) -> (result: VideoResult<Reading>)
    requires
        index.deep_view() == cast_index(cast.deep_view()),
    ensures
        outcome(result) == opened(reading.deep_view(), cast.deep_view(), speaker@, remainder@, number),
{
    match find_member(cast, index, speaker) {
        Some(place) => {
            assert(cast.deep_view().len() == cast.len());
            let before: Reading = close(reading)?;
            assert(before.turns.deep_view().len() == before.turns.len());
            if before.turns.len() >= MAX_DIALOGUE_TURNS {
                return Err(refuse_turns(number));
            }
            let member: &CastMember = &cast[place];
            assert(cast.deep_view()[place as int] == member.deep_view());
            let turn = ParsedTurn {
                character_id: member.id.clone(),
                speaker_name: member.name.clone(),
                text: remainder.trim().to_owned(),
                direction: None,
                source_line: number,
            };
            Ok(Reading { turns: before.turns, open: Some(turn) })
        },
        None => {
            let mut message: String = String::from_str("line ");
            let line: String = decimal_text(number as u64);
            message.append(line.as_str());
            message.append(" is spoken by ");
            message.append(speaker);
            message.append(", who is not in the cast");
            Err(refuse(VideoErrorCode::UnknownSpeaker, message.as_str(), "script"))
        },
    }
}

fn continue_turn(reading: Reading, line: &str, number: u32) -> (result: VideoResult<Reading>)
    ensures
        outcome(result) == continued(reading.deep_view(), line@, number),
{
    let Reading { turns, open } = reading;
    match open {
        Some(turn) => {
            let mut text: String = turn.text.clone();
            if text.as_str().unicode_len() > 0 {
                text.push(' ');
            }
            text.append(line.trim());
            if bytes_in(text.as_str()) > MAX_TURN_TEXT_BYTES {
                let tail: String = limit_tail(MAX_TURN_TEXT_BYTES);
                return Err(refuse_line("the turn continuing at line ", number, tail.as_str()));
            }
            Ok(Reading { turns, open: Some(ParsedTurn { text, ..turn }) })
        },
        None => Err(
            refuse_line(
                "line ",
                number,
                " has no speaker; every line must follow a NAME: header",
            ),
        ),
    }
}

fn read_one(reading: Reading, cast: &[CastMember], index: &Vec<IndexedMember>, line: &str, number: u32) -> (result: VideoResult<
    Reading,
>)
    requires
        index.deep_view() == cast_index(cast.deep_view()),
    ensures
        outcome(result) == read_line(reading.deep_view(), cast.deep_view(), line@, number),
{
    if is_blank(line) {
        return close(reading);
    }
    match split_speaker_header(line) {
        Some((speaker, remainder)) => {
            let known: bool = find_member(cast, index, speaker.as_str()).is_some();
            if known || is_cue(speaker.as_str()) {
                open_turn(reading, cast, index, speaker.as_str(), remainder.as_str(), number)
            } else {
                continue_turn(reading, line, number)
            }
        },
        None => continue_turn(reading, line, number),
    }
}

/// Parses a speaker-attributed script into ordered turns.
///
/// Accepted shape:
///
/// ```text
/// NARRATOR: The harmattan came early that year.
/// ADAEZE: (quiet) You said you would come back before the rains.
///   And you did not.
/// ```
///
/// A line beginning `NAME:` opens a turn. Following non-empty lines continue it. A blank line
/// closes it. A parenthetical at the start of a turn becomes its direction. Every rejection of a line
/// names it, counted from one; what is wrong with the script as a whole, or with the cast, has no line.
pub fn parse_dialogue_script(script: &str, cast: &[CastMember]) -> (result: VideoResult<Vec<ParsedTurn>>)
    ensures
        outcome(result) == parsed_script(script@, cast.deep_view()),
{
    let ghost people = cast.deep_view();
    if bytes_in(script) > MAX_SCRIPT_BYTES {
        let limit: String = decimal_text(MAX_SCRIPT_BYTES as u64);
        let message: String = text_concat3("a script is limited to ", limit.as_str(), " bytes");
        return Err(refuse(VideoErrorCode::InvalidDialogue, message.as_str(), "script"));
    }
    proof {
        lemma_chars_within_bytes(script@);
    }
    let index: Vec<IndexedMember> = index_cast_by_name(cast)?;
    assert(people.len() == cast.len());
    if cast.len() == 0 {
        return Err(
            refuse(
                VideoErrorCode::InvalidCast,
                "a dialogue script requires at least one cast member",
                "cast",
            ),
        );
    }
    let text: Vec<char> = chars_of(script);
    let mut reading = Reading { turns: Vec::new(), open: None };
    assert(reading.deep_view().turns =~= Seq::empty());
    let ghost whole = read_from(script@, people, nothing_read(), 0, 1);
    assert(reading.deep_view() == nothing_read());
    let mut start: usize = 0;
    let mut number: u32 = 1;
    while start < text.len()
        invariant
            text@ == script@,
            text.len() <= MAX_SCRIPT_BYTES,
            byte_len(script@) <= MAX_SCRIPT_BYTES,
            people == cast.deep_view(),
            people.len() > 0,
            cast_fault_from(people, 0) is None,
            index.deep_view() == cast_index(people),
            start <= text.len() + 1,
            number <= start + 1,
            whole == read_from(script@, people, nothing_read(), 0, 1),
            whole == read_from(script@, people, reading.deep_view(), start as int, number as int),
        decreases text.len() + 1 - start,
    {
        let end: usize = match find_char(&text, '\n', start) {
            Some(place) => place,
            None => text.len(),
        };
        assert(end == line_end(script@, start as int));
        let raw: String = text_of(&text, start, end);
        assert(raw@ =~= script@.subrange(start as int, end as int));
        let line: &str = raw.as_str().trim_end();
        let next: Reading = read_one(reading, cast, &index, line, number)?;
        reading = next;
        start = end + 1;
        number = number + 1;
    }
    let last: Reading = close(reading)?;
    assert(last.turns.deep_view().len() == last.turns.len());
    if last.turns.len() == 0 {
        return Err(
            refuse(
                VideoErrorCode::InvalidDialogue,
                "the script contains no dialogue turns",
                "script",
            ),
        );
    }
    Ok(last.turns)
}


// ---------------------------------------------------------------------------------------------
// Laws
// ---------------------------------------------------------------------------------------------
/// Whether a speaker is in the cast, under the name that the cast gives them.
pub open spec fn is_in_cast(cast: Seq<CastMemberModel>, turn: ParsedTurnModel) -> bool {
    exists|i: int|
        0 <= i < cast.len() && (#[trigger] cast[i]).id == turn.character_id && cast[i].name == turn.speaker_name
}

/// Whether a turn says something, within bounds, and is spoken by someone in the cast.
pub open spec fn is_speakable(cast: Seq<CastMemberModel>, turn: ParsedTurnModel) -> bool {
    !blank(turn.text) && byte_len(turn.text) <= MAX_TURN_TEXT_BYTES && is_in_cast(cast, turn)
}

spec fn is_sound(cast: Seq<CastMemberModel>, reading: ReadingModel) -> bool {
    &&& forall|i: int| 0 <= i < reading.turns.len() ==> is_speakable(cast, #[trigger] reading.turns[i])
    &&& reading.open matches Some(turn) ==> is_in_cast(cast, turn)
    &&& reading.turns.len() + (if reading.open is Some {
        1int
    } else {
        0
    }) <= MAX_DIALOGUE_TURNS
}

proof fn lemma_member(cast: Seq<CastMemberModel>, key: Seq<char>, index: int)
    requires
        0 <= index,
    ensures
        member_from(cast, key, index) matches Some(place) ==> index <= place < cast.len(),
    decreases cast.len() - index,
{
    if index < cast.len() {
        lemma_member(cast, key, index + 1);
    }
}

proof fn lemma_closed(cast: Seq<CastMemberModel>, reading: ReadingModel)
    requires
        is_sound(cast, reading),
    ensures
        closed(reading) matches Ok(next) ==> is_sound(cast, next) && next.open is None,
{
    if let Some(turn) = reading.open {
        if let Ok(done) = finished(turn) {
            let next = closed(reading)->Ok_0;
            let home = choose|i: int|
                0 <= i < cast.len() && (#[trigger] cast[i]).id == turn.character_id && cast[i].name
                    == turn.speaker_name;
            assert(cast[home].id == done.character_id);
            assert forall|i: int| 0 <= i < next.turns.len() implies is_speakable(cast, #[trigger] next.turns[i]) by {
                if i < reading.turns.len() {
                    assert(next.turns[i] == reading.turns[i]);
                }
            }
        }
    }
}

proof fn lemma_read_line(cast: Seq<CastMemberModel>, reading: ReadingModel, line: Seq<char>, number: u32)
    requires
        is_sound(cast, reading),
    ensures
        read_line(reading, cast, line, number) matches Ok(next) ==> is_sound(cast, next),
{
    lemma_closed(cast, reading);
    if !blank(line) {
        match header_of(line, cast) {
            Some(header) => {
                lemma_member(cast, speaker_key(header.0), 0);
                if let Some(place) = member_from(cast, speaker_key(header.0), 0) {
                    assert(cast[place].id == cast[place].id);
                }
            },
            None => {
                if let Some(turn) = reading.open {
                    let home = choose|i: int|
                        0 <= i < cast.len() && (#[trigger] cast[i]).id == turn.character_id && cast[i].name
                            == turn.speaker_name;
                    assert(cast[home].id == turn.character_id);
                }
            },
        }
    }
}

proof fn lemma_read_from(script: Seq<char>, cast: Seq<CastMemberModel>, reading: ReadingModel, start: int, number: int)
    requires
        0 <= start,
        is_sound(cast, reading),
    ensures
        read_from(script, cast, reading, start, number) matches Ok(next) ==> is_sound(cast, next),
    decreases script.len() + 1 - start,
{
    if start < script.len() {
        lemma_line_end(script, start);
        let end = line_end(script, start);
        let line = trimmed_end(script.subrange(start, end));
        lemma_read_line(cast, reading, line, number as u32);
        if let Ok(next) = read_line(reading, cast, line, number as u32) {
            lemma_read_from(script, cast, next, end + 1, number + 1);
        }
    }
}

/// Every turn of an accepted script says something, keeps to the length a turn may have, and is
/// spoken by someone in the cast.
pub proof fn parsed_turns_are_speakable(script: Seq<char>, cast: Seq<CastMemberModel>, index: int)
    requires
        parsed_script(script, cast) is Ok,
        0 <= index < parsed_script(script, cast)->Ok_0.len(),
    ensures
        1 <= parsed_script(script, cast)->Ok_0.len() <= MAX_DIALOGUE_TURNS,
        is_speakable(cast, parsed_script(script, cast)->Ok_0[index]),
{
    lemma_read_from(script, cast, nothing_read(), 0, 1);
    let reading = read_from(script, cast, nothing_read(), 0, 1)->Ok_0;
    lemma_closed(cast, reading);
}

/// A token names the first member of the cast whose name it is, whatever its case and the spaces round it; it names
/// nobody where no member bears the name.
pub proof fn a_token_names_the_member_of_that_name(cast: Seq<CastMemberModel>, token: Seq<char>, from: int)
    requires
        0 <= from <= cast.len(),
    ensures
        match member_from(cast, speaker_key(token), from) {
            Some(place) => {
                &&& from <= place < cast.len()
                &&& lowercase(trimmed(cast[place].name)) == lowercase(trimmed(token))
                &&& forall|i: int|
                    from <= i < place ==> lowercase(trimmed((#[trigger] cast[i]).name)) != lowercase(trimmed(token))
            },
            None => forall|i: int|
                from <= i < cast.len() ==> lowercase(trimmed((#[trigger] cast[i]).name)) != lowercase(trimmed(token)),
        },
    decreases cast.len() - from,
{
    if from < cast.len() {
        a_token_names_the_member_of_that_name(cast, token, from + 1);
    }
}

/// What stands in brackets before a line is its direction, and what follows them is said: brackets, a direction that
/// holds none that closes, and words make that direction and those words.
pub proof fn a_direction_is_told_from_the_words(direction: Seq<char>, words: Seq<char>, line: u32)
    requires
        !direction.contains(')'),
        trimmed(direction).len() > 0,
        byte_len(trimmed(direction)) <= MAX_DIRECTION_BYTES,
    ensures
        direction_of("("@ + direction + ")"@ + words, line) == Ok::<(Option<Seq<char>>, Seq<char>), Fault>(
            (Some(trimmed(direction)), trimmed(words)),
        ),
{
    reveal_strlit("(");
    reveal_strlit(")");
    let text = "("@ + direction + ")"@ + words;
    assert(text[0] == '(');
    assert(trimmed_start(text) == text);
    let close: int = direction.len() as int + 1;
    assert(text[close] == ')');
    assert forall|i: int| 0 <= i < close implies text[i] != ')' by {
        if i > 0 {
            assert(text[i] == direction[i - 1]);
            assert(direction.contains(direction[i - 1]));
        }
    }
    lemma_char_place(text, ')', 0, close);
    assert(text.subrange(1, close) =~= direction);
    assert(text.skip(close + 1) =~= words);
}

proof fn lemma_char_place(text: Seq<char>, wanted: char, from: int, place: int)
    requires
        0 <= from <= place < text.len(),
        text[place] == wanted,
        forall|i: int| from <= i < place ==> text[i] != wanted,
    ensures
        char_place(text, wanted, from) == Some(place),
    decreases place - from,
{
    if from < place {
        lemma_char_place(text, wanted, from + 1, place);
    }
}

/// A line with a name, a colon and words is a header: the name is the speaker's, and all behind the first colon is
/// what they say.
pub proof fn a_header_ends_with_its_colon(name: Seq<char>, words: Seq<char>)
    requires
        !name.contains(':'),
        name.len() > 0,
        !is_space(name[0]),
        is_speaker_token(trimmed(name)),
    ensures
        speaker_header(name + ":"@ + words) == Some((trimmed(name), words)),
{
    reveal_strlit(":");
    let line = name + ":"@ + words;
    assert(line[0] == name[0]);
    assert(trimmed_start(line) == line);
    let colon = name.len() as int;
    assert(line[colon] == ':');
    assert forall|i: int| 0 <= i < colon implies line[i] != ':' by {
        assert(line[i] == name[i]);
        assert(name.contains(name[i]));
    }
    lemma_char_place(line, ':', 0, colon);
    assert(line.take(colon) =~= name);
    assert(line.skip(colon + 1) =~= words);
}

/// The turn that a header opens is its speaker's; a line behind it without a header goes on with it, one space
/// between; a blank line ends it. A header that names nobody in the cast is refused, and so is a line before any
/// header.
pub proof fn lines_go_on_with_their_speaker(
    reading: ReadingModel,
    cast: Seq<CastMemberModel>,
    line: Seq<char>,
    number: u32,
)
    ensures
        ({
            let next = read_line(reading, cast, line, number);
            let header = header_of(line, cast);
            &&& blank(line) && next is Ok ==> next->Ok_0.open is None
            &&& !blank(line) && next is Ok ==> next->Ok_0.open is Some
            &&& !blank(line) && header is Some && next is Ok ==> {
                let (name, words) = header->0;
                let turn = next->Ok_0.open->0;
                let place = member_from(cast, lowercase(trimmed(name)), 0);
                &&& place is Some
                &&& turn.character_id == cast[place->0].id
                &&& turn.text == trimmed(words)
                &&& turn.source_line == number
                &&& next->Ok_0.turns.len() == reading.turns.len() + if reading.open is Some { 1int } else { 0 }
            }
            &&& !blank(line) && header is None ==> (reading.open is None ==> next is Err)
            &&& !blank(line) && header is None && next is Ok ==> {
                let before = reading.open->0;
                let turn = next->Ok_0.open->0;
                &&& turn.character_id == before.character_id
                &&& turn.source_line == before.source_line
                &&& next->Ok_0.turns == reading.turns
                &&& before.text.len() > 0 ==> turn.text == before.text + seq![' '] + trimmed(line)
            }
            &&& next is Ok ==> reading.turns.is_prefix_of(next->Ok_0.turns)
        }),
{
    if let Some(turn) = reading.open {
        assert(turn.text.push(' ') =~= turn.text + seq![' ']);
    }
}

} // verus!
