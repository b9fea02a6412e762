//! Timestamped transcription evidence, put on the exact clock of the source.
//!
//! Missing or invalid timestamps are rejected rather than guessed; callers can then run a local
//! transcription instead.

use crate::cache::{json_quoted, json_quoted_text, listed_from, join_listed, optional_quoted};
use crate::captions::smaller;
use crate::digest::{sha256_hex, sha256_hex_text};
use crate::doubles::{is_above, is_non_negative, lies_above, magnitude_bits, multiply, not_below_zero, product};
use crate::error::{fault, fault_at, or_else, refusal, refuse, unless, Fault, VideoError, VideoErrorCode, VideoResult};
use crate::manifest::{
    TranscriptSegment, TranscriptSegmentModel, TranscriptTimingSource, TranscriptVersion, TranscriptVersionModel,
    TranscriptWord, TranscriptWordModel,
};
use crate::text::{
    chars_in, chars_of, decimal, decimal_text, padded, padded_text, signed_decimal, signed_decimal_text, text_concat,
    text_concat3, text_of,
};
use crate::time::{range_between, range_fault, Microseconds, TimeRange, Validate};
use crate::words::{normalized, normalized_text};
use vstd::prelude::*;
use vstd::utf8::encode_utf8;

verus! {

pub const MAX_TRANSCRIPT_ITEMS: usize = 500_000;

/// How far past the end of the source a timestamp may lie before it is refused.
pub const CLOCK_TOLERANCE_US: i64 = 20_000;

/// Something that was said, as the evidence has it. Numbers are doubles, by their bits.
#[derive(Clone, Debug, PartialEq, Eq)]
pub struct EvidenceItem {
    pub text: String,
    /// When it began, in seconds.
    pub start_bits: Option<u64>,
    /// When it was over, in seconds.
    pub end_bits: Option<u64>,
    /// The texts that may name the speaker, the preferred first.
    pub speakers: Vec<String>,
    /// How sure the evidence is, from zero to one.
    pub confidence_bits: Option<u64>,
}

/// What an [`EvidenceItem`] holds, as mathematical values.
pub struct EvidenceItemModel {
    pub text: Seq<char>,
    pub start_bits: Option<u64>,
    pub end_bits: Option<u64>,
    pub speakers: Seq<Seq<char>>,
    pub confidence_bits: Option<u64>,
}

impl DeepView for EvidenceItem {
    type V = EvidenceItemModel;

    open spec fn deep_view(&self) -> EvidenceItemModel {
        EvidenceItemModel {
            text: self.text@,
            start_bits: self.start_bits,
            end_bits: self.end_bits,
            speakers: self.speakers.deep_view(),
            confidence_bits: self.confidence_bits,
        }
    }
}

/// Transcription evidence.
#[derive(Clone, Debug, PartialEq, Eq)]
pub struct TranscriptEvidence {
    /// The segments, where the evidence lists any.
    pub segments: Option<Vec<EvidenceItem>>,
    pub words: Vec<EvidenceItem>,
    /// The texts that may name the language, the preferred first.
    pub languages: Vec<String>,
}

/// What a [`TranscriptEvidence`] holds, as mathematical values.
pub struct TranscriptEvidenceModel {
    pub segments: Option<Seq<EvidenceItemModel>>,
    pub words: Seq<EvidenceItemModel>,
    pub languages: Seq<Seq<char>>,
}

impl DeepView for TranscriptEvidence {
    type V = TranscriptEvidenceModel;

    open spec fn deep_view(&self) -> TranscriptEvidenceModel {
        TranscriptEvidenceModel {
            segments: self.segments.deep_view(),
            words: self.words.deep_view(),
            languages: self.languages.deep_view(),
        }
    }
}

/// Which source the evidence is of, and how it was timed.
#[derive(Clone, Debug, PartialEq, Eq)]
pub struct TranscriptImportRequest {
    pub source_asset_id: String,
    pub source_clock_duration_us: Microseconds,
    pub timing_source: TranscriptTimingSource,
    pub created_at: String,
}

/// What a [`TranscriptImportRequest`] holds, as mathematical values.
pub struct TranscriptImportModel {
    pub source_asset_id: Seq<char>,
    pub source_clock_duration_us: Microseconds,
    pub timing_source: TranscriptTimingSource,
    pub created_at: Seq<char>,
}

impl DeepView for TranscriptImportRequest {
    type V = TranscriptImportModel;

    open spec fn deep_view(&self) -> TranscriptImportModel {
        TranscriptImportModel {
            source_asset_id: self.source_asset_id@,
            source_clock_duration_us: self.source_clock_duration_us,
            timing_source: self.timing_source,
            created_at: self.created_at@,
        }
    }
}

// ---------------------------------------------------------------------------------------------
// One item
// ---------------------------------------------------------------------------------------------
/// The field that an item's errors name.
pub open spec fn item_field(collection: Seq<char>, index: int, tail: Seq<char>) -> Seq<char> {
    collection + "."@ + decimal(index as nat) + tail
}

fn name_item(collection: &str, index: usize, tail: &str) -> (field: String)
    ensures
        field@ == item_field(collection@, index as int, tail@),
{
    let number: String = decimal_text(index as u64);
    let mut field: String = text_concat3(collection, ".", number.as_str());
    field.append(tail);
    field
}

/// The end of an item on the source clock: a little past the end is the end.
pub open spec fn clocked_end(end_us: int, source_us: int) -> int {
    if end_us > source_us && end_us - source_us <= CLOCK_TOLERANCE_US {
        source_us
    } else {
        end_us
    }
}

/// Seconds on the microsecond clock, where they can be counted there.
pub open spec fn micros(bits: u64) -> Option<int> {
    match product(bits, 1_000_000) {
        Some(value) => Some(smaller(value, i64::MAX as int)),
        None => None,
    }
}

pub open spec fn uncounted() -> Fault {
    fault(
        VideoErrorCode::ArithmeticOverflow,
        "seconds could not be represented on the microsecond clock"@,
    )
}

/// Why an item's timing is refused.
pub open spec fn timing_fault(item: EvidenceItemModel, source_us: int, collection: Seq<char>, index: int) -> Option<Fault> {
    match (item.start_bits, item.end_bits) {
        (Some(start), Some(end)) => or_else(
            unless(
                is_non_negative(start) && is_above(end, start),
                fault_at(
                    VideoErrorCode::InvalidTranscript,
                    "timestamp bounds must be finite and satisfy 0 <= start < end"@,
                    item_field(collection, index, ""@),
                ),
            ),
            or_else(
                unless(micros(start) is Some && micros(end) is Some, uncounted()),
                or_else(
                    unless(
                        micros(end)->0 <= source_us || micros(end)->0 - source_us <= CLOCK_TOLERANCE_US,
                        fault_at(
                            VideoErrorCode::InvalidTranscript,
                            "timestamp extends beyond the probed source clock"@,
                            item_field(collection, index, ""@),
                        ),
                    ),
                    range_fault(micros(start)->0, clocked_end(micros(end)->0, source_us)),
                ),
            ),
        ),
        _ => Some(
            fault_at(
                VideoErrorCode::InvalidTranscript,
                "timestamped text requires numeric start and end seconds"@,
                item_field(collection, index, ""@),
            ),
        ),
    }
}

/// An item's range on the source clock.
pub open spec fn timing_range(item: EvidenceItemModel, source_us: int) -> TimeRange {
    range_between(
        micros(item.start_bits->0)->0,
        clocked_end(micros(item.end_bits->0)->0, source_us),
    )
}

/// How sure the evidence is, in thousandths, where it says so.
pub open spec fn confidence_of(bits: Option<u64>) -> Option<u16> {
    match bits {
        Some(value) => if is_non_negative(value) && magnitude_bits(value) <= 0x3ff0_0000_0000_0000 {
            Some(smaller(product(value, 1_000)->0, 1_000) as u16)
        } else {
            None
        },
        None => None,
    }
}

fn seconds_to_microseconds(bits: u64) -> (result: VideoResult<i64>)
    requires
        is_non_negative(bits),
    ensures
        refusal(result) == unless(micros(bits) is Some, uncounted()),
        result matches Ok(value) ==> micros(bits) == Some(value as int),
{
    match multiply(bits, 1_000_000) {
        Some(value) => Ok(if value > i64::MAX as u64 {
            i64::MAX
        } else {
            value as i64
        }),
        None => Err(
            VideoError::new(
                VideoErrorCode::ArithmeticOverflow,
                "seconds could not be represented on the microsecond clock",
            ),
        ),
    }
}

fn parse_seconds_range(item: &EvidenceItem, source_us: Microseconds, collection: &str, index: usize) -> (result: VideoResult<
    TimeRange,
>)
    requires
        source_us.0 > 0,
    ensures
        refusal(result) == timing_fault(item.deep_view(), source_us.0 as int, collection@, index as int),
        result matches Ok(range) ==> range == timing_range(item.deep_view(), source_us.0 as int),
{
    match (item.start_bits, item.end_bits) {
        (Some(start), Some(end)) => {
            if !not_below_zero(start) || !lies_above(end, start) {
                let field: String = name_item(collection, index, "");
                return Err(
                    refuse(
                        VideoErrorCode::InvalidTranscript,
                        "timestamp bounds must be finite and satisfy 0 <= start < end",
                        field.as_str(),
                    ),
                );
            }
            let start_us: i64 = seconds_to_microseconds(start)?;
            let mut end_us: i64 = seconds_to_microseconds(end)?;
            if end_us > source_us.0 {
                if end_us - source_us.0 <= CLOCK_TOLERANCE_US {
                    end_us = source_us.0;
                } else {
                    let field: String = name_item(collection, index, "");
                    return Err(
                        refuse(
                            VideoErrorCode::InvalidTranscript,
                            "timestamp extends beyond the probed source clock",
                            field.as_str(),
                        ),
                    );
                }
            }
            TimeRange::new(start_us, end_us)
        },
        _ => {
            let field: String = name_item(collection, index, "");
            Err(
                refuse(
                    VideoErrorCode::InvalidTranscript,
                    "timestamped text requires numeric start and end seconds",
                    field.as_str(),
                ),
            )
        },
    }
}

fn confidence_milli(bits: Option<u64>) -> (result: Option<u16>)
    ensures
        result == confidence_of(bits),
{
    match bits {
        Some(value) => if not_below_zero(value) && value % 0x8000_0000_0000_0000 <= 0x3ff0_0000_0000_0000 {
            match multiply(value, 1_000) {
                Some(thousandths) => Some(if thousandths > 1_000 {
                    1_000
                } else {
                    thousandths as u16
                }),
                None => None,
            }
        } else {
            None
        },
        None => None,
    }
}

/// The first of some texts, from one on, that says something.
pub open spec fn first_said_from(texts: Seq<Seq<char>>, index: int) -> Option<Seq<char>>
    decreases texts.len() - index,
{
    if index < 0 || index >= texts.len() {
        None
    } else if normalized(texts[index]).len() > 0 {
        Some(normalized(texts[index]))
    } else {
        first_said_from(texts, index + 1)
    }
}

fn first_said(texts: &Vec<String>) -> (result: Option<String>)
    ensures
        result.deep_view() == first_said_from(texts.deep_view(), 0),
{
    let ghost model = texts.deep_view();
    let mut index: usize = 0;
    while index < texts.len()
        invariant
            index <= texts.len(),
            model == texts.deep_view(),
            first_said_from(model, 0) == first_said_from(model, index as int),
        decreases texts.len() - index,
    {
        assert(model[index as int] == texts[index as int]@);
        let text: String = normalized_text(texts[index].as_str());
        if chars_in(text.as_str()) > 0 {
            return Some(text);
        }
        index += 1;
    }
    None
}

// ---------------------------------------------------------------------------------------------
// Words and segments
// ---------------------------------------------------------------------------------------------
pub open spec fn empty_text_fault(message: Seq<char>, collection: Seq<char>, index: int) -> Fault {
    fault_at(VideoErrorCode::InvalidTranscript, message, item_field(collection, index, ".text"@))
}

pub open spec fn word_fault(item: EvidenceItemModel, source_us: int, index: int) -> Option<Fault> {
    or_else(
        unless(
            normalized(item.text).len() > 0,
            empty_text_fault("timestamped words may not be empty"@, "words"@, index),
        ),
        timing_fault(item, source_us, "words"@, index),
    )
}

pub open spec fn word_of(item: EvidenceItemModel, source_us: int, index: int) -> TranscriptWordModel {
    TranscriptWordModel {
        id: "word-"@ + padded(index as nat, 6),
        range: timing_range(item, source_us),
        text: normalized(item.text),
        speaker_id: first_said_from(item.speakers, 0),
        confidence_milli: confidence_of(item.confidence_bits),
    }
}

pub open spec fn words_fault_from(items: Seq<EvidenceItemModel>, source_us: int, index: int) -> Option<Fault>
    decreases items.len() - index,
{
    if index < 0 || index >= items.len() {
        None
    } else {
        or_else(word_fault(items[index], source_us, index), words_fault_from(items, source_us, index + 1))
    }
}

pub open spec fn words_in(items: Seq<EvidenceItemModel>, source_us: int) -> Seq<TranscriptWordModel> {
    Seq::new(items.len(), |i: int| word_of(items[i], source_us, i))
}

/// The words from a place on that lie in a range.
pub open spec fn ids_within_from(words: Seq<TranscriptWordModel>, range: TimeRange, index: int) -> Seq<Seq<char>>
    decreases words.len() - index,
{
    if index < 0 || index >= words.len() {
        Seq::empty()
    } else if range.encloses(words[index].range) {
        seq![words[index].id] + ids_within_from(words, range, index + 1)
    } else {
        ids_within_from(words, range, index + 1)
    }
}

pub open spec fn segment_fault(item: EvidenceItemModel, source_us: int, index: int) -> Option<Fault> {
    or_else(
        unless(
            normalized(item.text).len() > 0,
            empty_text_fault("timestamped segments may not be empty"@, "segments"@, index),
        ),
        timing_fault(item, source_us, "segments"@, index),
    )
}

pub open spec fn segment_of(
    item: EvidenceItemModel,
    words: Seq<TranscriptWordModel>,
    source_us: int,
    index: int,
) -> TranscriptSegmentModel {
    TranscriptSegmentModel {
        id: "segment-"@ + padded(index as nat, 6),
        range: timing_range(item, source_us),
        text: normalized(item.text),
        speaker_id: first_said_from(item.speakers, 0),
        word_ids: ids_within_from(words, timing_range(item, source_us), 0),
    }
}

pub open spec fn segments_fault_from(items: Seq<EvidenceItemModel>, source_us: int, index: int) -> Option<Fault>
    decreases items.len() - index,
{
    if index < 0 || index >= items.len() {
        None
    } else {
        or_else(
            segment_fault(items[index], source_us, index),
            segments_fault_from(items, source_us, index + 1),
        )
    }
}

pub open spec fn segments_in(items: Seq<EvidenceItemModel>, words: Seq<TranscriptWordModel>, source_us: int) -> Seq<
    TranscriptSegmentModel,
> {
    Seq::new(items.len(), |i: int| segment_of(items[i], words, source_us, i))
}

fn read_words(items: &Vec<EvidenceItem>, source_us: Microseconds) -> (result: VideoResult<Vec<TranscriptWord>>)
    requires
        source_us.0 > 0,
    ensures
        refusal(result) == words_fault_from(items.deep_view(), source_us.0 as int, 0),
        result matches Ok(words) ==> words.deep_view() == words_in(items.deep_view(), source_us.0 as int),
{
    let ghost model = items.deep_view();
    let mut words: Vec<TranscriptWord> = Vec::new();
    let mut index: usize = 0;
    while index < items.len()
        invariant
            index <= items.len(),
            source_us.0 > 0,
            model == items.deep_view(),
            words.len() == index,
            forall|i: int|
                0 <= i < index ==> (#[trigger] words[i]).deep_view() == word_of(
                    model[i],
                    source_us.0 as int,
                    i,
                ),
            words_fault_from(model, source_us.0 as int, 0) == words_fault_from(
                model,
                source_us.0 as int,
                index as int,
            ),
        decreases items.len() - index,
    {
        let item: &EvidenceItem = &items[index];
        assert(model[index as int] == item.deep_view());
        let text: String = normalized_text(item.text.as_str());
        if chars_in(text.as_str()) == 0 {
            let field: String = name_item("words", index, ".text");
            return Err(
                refuse(
                    VideoErrorCode::InvalidTranscript,
                    "timestamped words may not be empty",
                    field.as_str(),
                ),
            );
        }
        let range: TimeRange = parse_seconds_range(item, source_us, "words", index)?;
        let number: String = padded_text(index as u64, 6);
        words.push(
            TranscriptWord {
                id: text_concat("word-", number.as_str()),
                range,
                text,
                speaker_id: first_said(&item.speakers),
                confidence_milli: confidence_milli(item.confidence_bits),
            },
        );
        index += 1;
    }
    assert(words.deep_view() =~= words_in(model, source_us.0 as int));
    Ok(words)
}

fn collect_within(words: &Vec<TranscriptWord>, range: TimeRange) -> (ids: Vec<String>)
    ensures
        ids.deep_view() == ids_within_from(words.deep_view(), range, 0),
{
    let ghost model = words.deep_view();
    let ghost whole = ids_within_from(model, range, 0);
    let mut ids: Vec<String> = Vec::new();
    let mut index: usize = 0;
    assert(ids.deep_view() + whole =~= whole);
    while index < words.len()
        invariant
            index <= words.len(),
            model == words.deep_view(),
            ids.deep_view() + ids_within_from(model, range, index as int) == whole,
        decreases words.len() - index,
    {
        assert(model[index as int] == words[index as int].deep_view());
        if range.contains_range(words[index].range) {
            let ghost before = ids.deep_view();
            let ghost rest = ids_within_from(model, range, index + 1);
            ids.push(words[index].id.clone());
            assert(ids.deep_view() =~= before.push(model[index as int].id));
            assert(ids.deep_view() + rest =~= before + (seq![model[index as int].id] + rest));
        }
        index += 1;
    }
    assert(ids.deep_view() =~= whole);
    ids
}

fn read_segments(items: &Vec<EvidenceItem>, words: &Vec<TranscriptWord>, source_us: Microseconds) -> (result: VideoResult<
    Vec<TranscriptSegment>,
>)
    requires
        source_us.0 > 0,
    ensures
        refusal(result) == segments_fault_from(items.deep_view(), source_us.0 as int, 0),
        result matches Ok(segments) ==> segments.deep_view() == segments_in(
            items.deep_view(),
            words.deep_view(),
            source_us.0 as int,
        ),
{
    let ghost model = items.deep_view();
    let ghost said = words.deep_view();
    let mut segments: Vec<TranscriptSegment> = Vec::new();
    let mut index: usize = 0;
    while index < items.len()
        invariant
            index <= items.len(),
            source_us.0 > 0,
            model == items.deep_view(),
            said == words.deep_view(),
            segments.len() == index,
            forall|i: int|
                0 <= i < index ==> (#[trigger] segments[i]).deep_view() == segment_of(
                    model[i],
                    said,
                    source_us.0 as int,
                    i,
                ),
            segments_fault_from(model, source_us.0 as int, 0) == segments_fault_from(
                model,
                source_us.0 as int,
                index as int,
            ),
        decreases items.len() - index,
    {
        let item: &EvidenceItem = &items[index];
        assert(model[index as int] == item.deep_view());
        let text: String = normalized_text(item.text.as_str());
        if chars_in(text.as_str()) == 0 {
            let field: String = name_item("segments", index, ".text");
            return Err(
                refuse(
                    VideoErrorCode::InvalidTranscript,
                    "timestamped segments may not be empty",
                    field.as_str(),
                ),
            );
        }
        let range: TimeRange = parse_seconds_range(item, source_us, "segments", index)?;
        let number: String = padded_text(index as u64, 6);
        segments.push(
            TranscriptSegment {
                id: text_concat("segment-", number.as_str()),
                range,
                text,
                speaker_id: first_said(&item.speakers),
                word_ids: collect_within(words, range),
            },
        );
        index += 1;
    }
    assert(segments.deep_view() =~= segments_in(model, said, source_us.0 as int));
    Ok(segments)
}

// ---------------------------------------------------------------------------------------------
// The digest of a transcript
// ---------------------------------------------------------------------------------------------
/// A range as canonical JSON.
pub open spec fn range_text(range: TimeRange) -> Seq<char> {
    "{\"end_us\":"@ + signed_decimal(range.end()) + ",\"start_us\":"@ + signed_decimal(range.start()) + "}"@
}

pub open spec fn confidence_text(confidence: Option<u16>) -> Seq<char> {
    match confidence {
        Some(value) => decimal(value as nat),
        None => "null"@,
    }
}

/// A word as canonical JSON.
pub open spec fn word_text(word: TranscriptWordModel) -> Seq<char> {
    "{\"confidence_milli\":"@ + confidence_text(word.confidence_milli) + ",\"id\":"@ + json_quoted(word.id)
        + ",\"range\":"@ + range_text(word.range) + ",\"speaker_id\":"@ + optional_quoted(word.speaker_id)
        + ",\"text\":"@ + json_quoted(word.text) + "}"@
}

pub open spec fn quoted_texts(texts: Seq<Seq<char>>) -> Seq<Seq<char>> {
    Seq::new(texts.len(), |i: int| json_quoted(texts[i]))
}

/// A segment as canonical JSON.
pub open spec fn segment_text(segment: TranscriptSegmentModel) -> Seq<char> {
    "{\"id\":"@ + json_quoted(segment.id) + ",\"range\":"@ + range_text(segment.range) + ",\"speaker_id\":"@
        + optional_quoted(segment.speaker_id) + ",\"text\":"@ + json_quoted(segment.text) + ",\"word_ids\":["@
        + listed_from(quoted_texts(segment.word_ids), 0) + "]}"@
}

pub open spec fn word_texts(words: Seq<TranscriptWordModel>) -> Seq<Seq<char>> {
    Seq::new(words.len(), |i: int| word_text(words[i]))
}

pub open spec fn segment_texts(segments: Seq<TranscriptSegmentModel>) -> Seq<Seq<char>> {
    Seq::new(segments.len(), |i: int| segment_text(segments[i]))
}

/// What a transcript says, as canonical JSON.
pub open spec fn transcript_text(
    source_asset_id: Seq<char>,
    duration: Microseconds,
    language: Option<Seq<char>>,
    segments: Seq<TranscriptSegmentModel>,
    words: Seq<TranscriptWordModel>,
) -> Seq<char> {
    "{\"language\":"@ + optional_quoted(language) + ",\"schema\":1,\"segments\":["@ + listed_from(
        segment_texts(segments),
        0,
    ) + "],\"source_asset_id\":"@ + json_quoted(source_asset_id) + ",\"source_clock_duration_us\":"@
        + signed_decimal(duration.0 as int) + ",\"words\":["@ + listed_from(word_texts(words), 0) + "]}"@
}

/// The digest of what a transcript says.
pub open spec fn content_hash(
    source_asset_id: Seq<char>,
    duration: Microseconds,
    language: Option<Seq<char>>,
    segments: Seq<TranscriptSegmentModel>,
    words: Seq<TranscriptWordModel>,
) -> Seq<char> {
    sha256_hex(encode_utf8(transcript_text(source_asset_id, duration, language, segments, words)))
}

fn write_optional(text: &Option<String>) -> (result: String)
    ensures
        result@ == optional_quoted(text.deep_view()),
{
    match text {
        Some(known) => json_quoted_text(known.as_str()),
        None => "null".to_owned(),
    }
}

fn write_range(range: TimeRange) -> (text: String)
    ensures
        text@ == range_text(range),
{
    let end: String = signed_decimal_text(range.end_us.0);
    let start: String = signed_decimal_text(range.start_us.0);
    let mut text: String = String::from_str("{\"end_us\":");
    text.append(end.as_str());
    text.append(",\"start_us\":");
    text.append(start.as_str());
    text.append("}");
    text
}

fn write_word(word: &TranscriptWord) -> (text: String)
    ensures
        text@ == word_text(word.deep_view()),
{
    let confidence: String = match word.confidence_milli {
        Some(value) => decimal_text(value as u64),
        None => "null".to_owned(),
    };
    let id: String = json_quoted_text(word.id.as_str());
    let range: String = write_range(word.range);
    let speaker: String = write_optional(&word.speaker_id);
    let said: String = json_quoted_text(word.text.as_str());
    let mut text: String = String::from_str("{\"confidence_milli\":");
    text.append(confidence.as_str());
    text.append(",\"id\":");
    text.append(id.as_str());
    text.append(",\"range\":");
    text.append(range.as_str());
    text.append(",\"speaker_id\":");
    text.append(speaker.as_str());
    text.append(",\"text\":");
    text.append(said.as_str());
    text.append("}");
    text
}

fn write_quoted(texts: &Vec<String>) -> (result: String)
    ensures
        result@ == listed_from(quoted_texts(texts.deep_view()), 0),
{
    let ghost model = texts.deep_view();
    let mut quoted: Vec<String> = Vec::new();
    let mut index: usize = 0;
    while index < texts.len()
        invariant
            index <= texts.len(),
            model == texts.deep_view(),
            quoted.len() == index,
            forall|i: int| 0 <= i < index ==> (#[trigger] quoted[i])@ == json_quoted(model[i]),
        decreases texts.len() - index,
    {
        assert(model[index as int] == texts[index as int]@);
        quoted.push(json_quoted_text(texts[index].as_str()));
        index += 1;
    }
    assert(quoted.deep_view() =~= quoted_texts(model));
    join_listed(&quoted)
}

fn write_segment(segment: &TranscriptSegment) -> (text: String)
    ensures
        text@ == segment_text(segment.deep_view()),
{
    let id: String = json_quoted_text(segment.id.as_str());
    let range: String = write_range(segment.range);
    let speaker: String = write_optional(&segment.speaker_id);
    let said: String = json_quoted_text(segment.text.as_str());
    let word_ids: String = write_quoted(&segment.word_ids);
    let mut text: String = String::from_str("{\"id\":");
    text.append(id.as_str());
    text.append(",\"range\":");
    text.append(range.as_str());
    text.append(",\"speaker_id\":");
    text.append(speaker.as_str());
    text.append(",\"text\":");
    text.append(said.as_str());
    text.append(",\"word_ids\":[");
    text.append(word_ids.as_str());
    text.append("]}");
    text
}

fn write_words(words: &Vec<TranscriptWord>) -> (text: String)
    ensures
        text@ == listed_from(word_texts(words.deep_view()), 0),
{
    let ghost model = words.deep_view();
    let mut texts: Vec<String> = Vec::new();
    let mut index: usize = 0;
    while index < words.len()
        invariant
            index <= words.len(),
            model == words.deep_view(),
            texts.len() == index,
            forall|i: int| 0 <= i < index ==> (#[trigger] texts[i])@ == word_text(model[i]),
        decreases words.len() - index,
    {
        assert(model[index as int] == words[index as int].deep_view());
        texts.push(write_word(&words[index]));
        index += 1;
    }
    assert(texts.deep_view() =~= word_texts(model));
    join_listed(&texts)
}

fn write_segments(segments: &Vec<TranscriptSegment>) -> (text: String)
    ensures
        text@ == listed_from(segment_texts(segments.deep_view()), 0),
{
    let ghost model = segments.deep_view();
    let mut texts: Vec<String> = Vec::new();
    let mut index: usize = 0;
    while index < segments.len()
        invariant
            index <= segments.len(),
            model == segments.deep_view(),
            texts.len() == index,
            forall|i: int| 0 <= i < index ==> (#[trigger] texts[i])@ == segment_text(model[i]),
        decreases segments.len() - index,
    {
        assert(model[index as int] == segments[index as int].deep_view());
        texts.push(write_segment(&segments[index]));
        index += 1;
    }
    assert(texts.deep_view() =~= segment_texts(model));
    join_listed(&texts)
}

fn transcript_content_hash(
    source_asset_id: &str,
    duration: Microseconds,
    language: &Option<String>,
    segments: &Vec<TranscriptSegment>,
    words: &Vec<TranscriptWord>,
) -> (digest: String)
    ensures
        digest@ == content_hash(
            source_asset_id@,
            duration,
            language.deep_view(),
            segments.deep_view(),
            words.deep_view(),
        ),
        digest@.len() == 64,
{
    let spoken: String = write_optional(language);
    let parts: String = write_segments(segments);
    let source: String = json_quoted_text(source_asset_id);
    let length: String = signed_decimal_text(duration.0);
    let said: String = write_words(words);
    let mut text: String = String::from_str("{\"language\":");
    text.append(spoken.as_str());
    text.append(",\"schema\":1,\"segments\":[");
    text.append(parts.as_str());
    text.append("],\"source_asset_id\":");
    text.append(source.as_str());
    text.append(",\"source_clock_duration_us\":");
    text.append(length.as_str());
    text.append(",\"words\":[");
    text.append(said.as_str());
    text.append("]}");
    sha256_hex_text(text.as_str().as_bytes())
}

// ---------------------------------------------------------------------------------------------
// The transcript
// ---------------------------------------------------------------------------------------------
/// The rules on how much evidence there is.
pub open spec fn evidence_fault(evidence: TranscriptEvidenceModel, source_us: int) -> Option<Fault> {
    or_else(
        unless(
            source_us > 0,
            fault_at(
                VideoErrorCode::InvalidTranscript,
                "the probed source clock must be positive"@,
                "source_clock_duration_us"@,
            ),
        ),
        or_else(
            unless(
                evidence.segments is Some,
                fault_at(
                    VideoErrorCode::InvalidTranscript,
                    "timestamped transcript segments are required"@,
                    "segments"@,
                ),
            ),
            or_else(
                unless(
                    1 <= evidence.segments->0.len() <= MAX_TRANSCRIPT_ITEMS,
                    fault_at(
                        VideoErrorCode::InvalidTranscript,
                        "transcript segments must contain 1..=500000 timestamped items"@,
                        "segments"@,
                    ),
                ),
                unless(
                    evidence.words.len() <= MAX_TRANSCRIPT_ITEMS,
                    fault_at(
                        VideoErrorCode::InvalidTranscript,
                        "transcript words exceed the supported item limit"@,
                        "words"@,
                    ),
                ),
            ),
        ),
    )
}

/// The transcript that evidence makes.
pub open spec fn transcript_of(evidence: TranscriptEvidenceModel, request: TranscriptImportModel) -> TranscriptVersionModel {
    let source_us = request.source_clock_duration_us.0 as int;
    let words = words_in(evidence.words, source_us);
    let segments = segments_in(evidence.segments->0, words, source_us);
    let language = first_said_from(evidence.languages, 0);
    let digest = content_hash(
        request.source_asset_id,
        request.source_clock_duration_us,
        language,
        segments,
        words,
    );
    TranscriptVersionModel {
        id: "transcript-"@ + digest.take(24),
        source_asset_id: request.source_asset_id,
        source_clock_duration_us: request.source_clock_duration_us,
        language,
        timing_source: request.timing_source,
        preserved_source_gaps: true,
        segments,
        words,
        content_sha256: digest,
        created_at: request.created_at,
    }
}

/// Why evidence makes no transcript.
pub open spec fn import_fault(evidence: TranscriptEvidenceModel, request: TranscriptImportModel) -> Option<Fault> {
    let source_us = request.source_clock_duration_us.0 as int;
    or_else(
        evidence_fault(evidence, source_us),
        or_else(
            words_fault_from(evidence.words, source_us, 0),
            or_else(
                segments_fault_from(evidence.segments->0, source_us, 0),
                TranscriptVersion::fault_of(transcript_of(evidence, request)),
            ),
        ),
    )
}

fn check_evidence<'a>(evidence: &'a TranscriptEvidence, source_us: Microseconds) -> (result: VideoResult<
    &'a Vec<EvidenceItem>,
>)
    ensures
        refusal(result) == evidence_fault(evidence.deep_view(), source_us.0 as int),
        result matches Ok(segments) ==> evidence.deep_view().segments == Some(segments.deep_view()),
{
    if source_us.0 <= 0 {
        return Err(
            refuse(
                VideoErrorCode::InvalidTranscript,
                "the probed source clock must be positive",
                "source_clock_duration_us",
            ),
        );
    }
    match &evidence.segments {
        Some(segments) => {
            assert(segments.deep_view().len() == segments.len());
            assert(evidence.words.deep_view().len() == evidence.words.len());
            if segments.len() == 0 || segments.len() > MAX_TRANSCRIPT_ITEMS {
                return Err(
                    refuse(
                        VideoErrorCode::InvalidTranscript,
                        "transcript segments must contain 1..=500000 timestamped items",
                        "segments",
                    ),
                );
            }
            if evidence.words.len() > MAX_TRANSCRIPT_ITEMS {
                return Err(
                    refuse(
                        VideoErrorCode::InvalidTranscript,
                        "transcript words exceed the supported item limit",
                        "words",
                    ),
                );
            }
            Ok(segments)
        },
        None => Err(
            refuse(
                VideoErrorCode::InvalidTranscript,
                "timestamped transcript segments are required",
                "segments",
            ),
        ),
    }
}

/// Normalizes timestamped local transcription evidence onto the exact probed source clock.
///
/// Missing or invalid timestamps are rejected rather than guessed; callers can then run a local
/// transcription instead.
pub fn transcript_from_evidence(evidence: &TranscriptEvidence, request: &TranscriptImportRequest) -> (result: VideoResult<
    TranscriptVersion,
>)
    ensures
        refusal(result) == import_fault(evidence.deep_view(), request.deep_view()),
        result matches Ok(transcript) ==> transcript.deep_view() == transcript_of(
            evidence.deep_view(),
            request.deep_view(),
        ),
{
    let source_us: Microseconds = request.source_clock_duration_us;
    let raw_segments: &Vec<EvidenceItem> = check_evidence(evidence, source_us)?;
    let words: Vec<TranscriptWord> = read_words(&evidence.words, source_us)?;
    let segments: Vec<TranscriptSegment> = read_segments(raw_segments, &words, source_us)?;
    let language: Option<String> = first_said(&evidence.languages);
    let content_sha256: String = transcript_content_hash(
        request.source_asset_id.as_str(),
        source_us,
        &language,
        &segments,
        &words,
    );
    let digits: Vec<char> = chars_of(content_sha256.as_str());
    let short: String = text_of(&digits, 0, 24);
    assert(short@ =~= content_sha256@.take(24));
    let transcript = TranscriptVersion {
        id: text_concat("transcript-", short.as_str()),
        source_asset_id: request.source_asset_id.clone(),
        source_clock_duration_us: source_us,
        language,
        timing_source: request.timing_source,
        preserved_source_gaps: true,
        segments,
        words,
        content_sha256,
        created_at: request.created_at.clone(),
    };
    transcript.validate()?;
    Ok(transcript)
}

/// A transcript is named by what it says of its source: neither when it was made nor how it was timed
/// changes its name or its digest.
pub proof fn a_transcript_is_named_by_its_content(
    evidence: TranscriptEvidenceModel,
    one: TranscriptImportModel,
    other: TranscriptImportModel,
)
    requires
        one.source_asset_id == other.source_asset_id,
        one.source_clock_duration_us == other.source_clock_duration_us,
    ensures
        transcript_of(evidence, one).id == transcript_of(evidence, other).id,
        transcript_of(evidence, one).content_sha256 == transcript_of(evidence, other).content_sha256,
{
}

/// Whatever is imported lies on the clock of its source.
pub proof fn imported_ranges_lie_on_the_source_clock(
    evidence: TranscriptEvidenceModel,
    request: TranscriptImportModel,
    index: int,
)
    requires
        import_fault(evidence, request) is None,
        0 <= index < transcript_of(evidence, request).segments.len(),
    ensures
        transcript_of(evidence, request).segments[index].range.valid(),
        transcript_of(evidence, request).segments[index].range.end() <= request.source_clock_duration_us.0,
{
    let source_us = request.source_clock_duration_us.0 as int;
    lemma_segment_timed(evidence.segments->0, source_us, 0, index);
}

proof fn lemma_segment_timed(items: Seq<EvidenceItemModel>, source_us: int, from: int, index: int)
    requires
        0 <= from <= index < items.len(),
        segments_fault_from(items, source_us, from) is None,
    ensures
        segment_fault(items[index], source_us, index) is None,
    decreases index - from,
{
    if from < index {
        lemma_segment_timed(items, source_us, from + 1, index);
    }
}

/// A segment holds the words that lie in it, all of them and no others, in their order.
pub proof fn a_segment_holds_the_words_in_it(words: Seq<TranscriptWordModel>, range: TimeRange, from: int) -> (places: Seq<int>)
    requires
        0 <= from <= words.len(),
    ensures
        places.len() == ids_within_from(words, range, from).len(),
        forall|k: int|
            0 <= k < places.len() ==> from <= #[trigger] places[k] < words.len() && words[places[k]].id
                == ids_within_from(words, range, from)[k] && range.start_us.0 <= words[places[k]].range.start_us.0
                && words[places[k]].range.end_us.0 <= range.end_us.0,
        forall|j: int, k: int| 0 <= j < k < places.len() ==> places[j] < places[k],
        forall|i: int|
            from <= i < words.len() && range.start_us.0 <= (#[trigger] words[i]).range.start_us.0
                && words[i].range.end_us.0 <= range.end_us.0 ==> places.contains(i),
    decreases words.len() - from,
{
    if from == words.len() {
        Seq::empty()
    } else {
        let rest = a_segment_holds_the_words_in_it(words, range, from + 1);
        if range.encloses(words[from].range) {
            let places = seq![from] + rest;
            assert forall|i: int|
                from <= i < words.len() && range.start_us.0 <= (#[trigger] words[i]).range.start_us.0
                    && words[i].range.end_us.0 <= range.end_us.0 implies places.contains(i) by {
                if i == from {
                    assert(places[0] == i);
                } else {
                    let k = choose|k: int| 0 <= k < rest.len() && rest[k] == i;
                    assert(places[k + 1] == i);
                }
            }
            places
        } else {
            rest
        }
    }
}

/// Evidence is imported item by item: one word for each word and one segment for each segment, in their order, each
/// in its own words and from where it starts. An item that runs a little past the end of its source ends with the
/// source; no other end moves.
pub proof fn evidence_is_imported_item_by_item(evidence: TranscriptEvidenceModel, request: TranscriptImportModel, index: int)
    requires
        import_fault(evidence, request) is None,
        0 <= index < evidence.segments->0.len(),
    ensures
        ({
            let item = evidence.segments->0[index];
            let segment = transcript_of(evidence, request).segments[index];
            let source_us = request.source_clock_duration_us.0;
            &&& transcript_of(evidence, request).segments.len() == evidence.segments->0.len()
            &&& transcript_of(evidence, request).words.len() == evidence.words.len()
            &&& segment.text == normalized(item.text)
            &&& segment.text.len() > 0
            &&& segment.range.start_us.0 == micros(item.start_bits->0)->0
            &&& segment.range.end_us.0 == micros(item.end_bits->0)->0 || (segment.range.end_us.0 == source_us && source_us
                < micros(item.end_bits->0)->0 <= source_us + CLOCK_TOLERANCE_US)
            &&& micros(item.end_bits->0)->0 <= source_us ==> segment.range.end_us.0 == micros(item.end_bits->0)->0
        }),
{
    let source_us = request.source_clock_duration_us.0 as int;
    lemma_segment_timed(evidence.segments->0, source_us, 0, index);
}

} // verus!
