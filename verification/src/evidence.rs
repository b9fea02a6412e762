//! Transcription evidence as a transcriber wrote it: a JSON document whose fields go by more than one
//! name.

use crate::cache::{JsonEntry, JsonValue};
use crate::doubles::{double_of, signed_bits, signed_double_of, whole_bits};
use crate::error::{refusal, VideoResult};
use crate::manifest::TranscriptVersion;
use crate::text::text_eq;
use crate::transcript::{
    import_fault, transcript_from_evidence, transcript_of, EvidenceItem, EvidenceItemModel, TranscriptEvidence,
    TranscriptEvidenceModel, TranscriptImportRequest,
};
use vstd::prelude::*;

verus! {

// ---------------------------------------------------------------------------------------------
// Members of a document
// ---------------------------------------------------------------------------------------------
/// The value under a name among the first entries: of several the last.
pub open spec fn member_among(entries: Seq<JsonEntry>, name: Seq<char>, count: int) -> Option<JsonValue>
    decreases count,
{
    if count <= 0 {
        None
    } else if entries[count - 1].name@ == name {
        Some(entries[count - 1].value)
    } else {
        member_among(entries, name, count - 1)
    }
}

/// The value under a name. Only an object has any.
pub open spec fn member(value: JsonValue, name: Seq<char>) -> Option<JsonValue> {
    match value {
        JsonValue::Object(entries) => member_among(entries@, name, entries@.len() as int),
        _ => None,
    }
}

/// The text under a name, where a text stands there.
pub open spec fn text_under(value: JsonValue, name: Seq<char>) -> Option<Seq<char>> {
    match member(value, name) {
        Some(JsonValue::Text(text)) => Some(text@),
        _ => None,
    }
}

/// The list under a name, where a list stands there.
pub open spec fn list_under(value: JsonValue, name: Seq<char>) -> Option<Seq<JsonValue>> {
    match member(value, name) {
        Some(JsonValue::List(items)) => Some(items@),
        _ => None,
    }
}

/// The bits of the double that a value is, where it is a number.
pub open spec fn number_of(value: JsonValue) -> Option<u64> {
    match value {
        JsonValue::Integer(number) => Some(signed_bits(number as int) as u64),
        JsonValue::Natural(number) => Some(whole_bits(number as int) as u64),
        JsonValue::Decimal { bits, .. } => Some(bits),
        _ => None,
    }
}

/// The number under a name, where a number stands there.
pub open spec fn number_under(value: JsonValue, name: Seq<char>) -> Option<u64> {
    match member(value, name) {
        Some(found) => number_of(found),
        None => None,
    }
}

/// The number under the first of two names that has one.
pub open spec fn number_under_either(value: JsonValue, preferred: Seq<char>, other: Seq<char>) -> Option<u64> {
    match number_under(value, preferred) {
        Some(bits) => Some(bits),
        None => number_under(value, other),
    }
}

pub open spec fn as_list(text: Option<Seq<char>>) -> Seq<Seq<char>> {
    match text {
        Some(said) => seq![said],
        None => Seq::empty(),
    }
}

/// The texts under two names.
pub open spec fn texts_under_either(value: JsonValue, preferred: Seq<char>, other: Seq<char>) -> Seq<Seq<char>> {
    as_list(text_under(value, preferred)) + as_list(text_under(value, other))
}

fn find_member<'a>(value: &'a JsonValue, name: &str) -> (result: Option<&'a JsonValue>)
    ensures
        match result {
            Some(found) => member(*value, name@) == Some(*found),
            None => member(*value, name@) is None,
        },
{
    match value {
        JsonValue::Object(entries) => {
            let mut count: usize = entries.len();
            while count > 0
                invariant
                    count <= entries.len(),
                    *value == JsonValue::Object(*entries),
                    member(*value, name@) == member_among(entries@, name@, count as int),
                decreases count,
            {
                if text_eq(entries[count - 1].name.as_str(), name) {
                    return Some(&entries[count - 1].value);
                }
                count -= 1;
            }
            None
        },
        _ => None,
    }
}

fn find_text<'a>(value: &'a JsonValue, name: &str) -> (result: Option<&'a str>)
    ensures
        result.deep_view() == text_under(*value, name@),
{
    match find_member(value, name) {
        Some(JsonValue::Text(text)) => Some(text.as_str()),
        _ => None,
    }
}

fn find_number(value: &JsonValue, name: &str) -> (result: Option<u64>)
    ensures
        result == number_under(*value, name@),
{
    match find_member(value, name) {
        Some(JsonValue::Integer(number)) => Some(signed_double_of(*number)),
        Some(JsonValue::Natural(number)) => Some(double_of(*number)),
        Some(JsonValue::Decimal { bits, .. }) => Some(*bits),
        _ => None,
    }
}

fn numeric_field(value: &JsonValue, preferred: &str, other: &str) -> (result: Option<u64>)
    ensures
        result == number_under_either(*value, preferred@, other@),
{
    match find_number(value, preferred) {
        Some(bits) => Some(bits),
        None => find_number(value, other),
    }
}

fn find_texts(value: &JsonValue, preferred: &str, other: &str) -> (texts: Vec<String>)
    ensures
        texts.deep_view() == texts_under_either(*value, preferred@, other@),
{
    let mut texts: Vec<String> = Vec::new();
    assert(texts.deep_view() =~= Seq::<Seq<char>>::empty());
    if let Some(text) = find_text(value, preferred) {
        texts.push(text.to_owned());
    }
    assert(texts.deep_view() =~= as_list(text_under(*value, preferred@)));
    let ghost before = texts.deep_view();
    if let Some(text) = find_text(value, other) {
        texts.push(text.to_owned());
        assert(texts.deep_view() =~= before + seq![text@]);
    }
    assert(texts.deep_view() =~= before + as_list(text_under(*value, other@)));
    texts
}

// ---------------------------------------------------------------------------------------------
// What the evidence says
// ---------------------------------------------------------------------------------------------
/// Something that was said, by the names that transcribers use.
pub open spec fn item_said(value: JsonValue) -> EvidenceItemModel {
    EvidenceItemModel {
        text: match text_under(value, "text"@) {
            Some(text) => text,
            None => Seq::empty(),
        },
        start_bits: number_under_either(value, "start_seconds"@, "start"@),
        end_bits: number_under_either(value, "end_seconds"@, "end"@),
        speakers: texts_under_either(value, "speaker_id"@, "speaker"@),
        confidence_bits: match number_under(value, "confidence"@) {
            Some(bits) => Some(bits),
            None => number_under_either(value, "probability"@, "alignment_score"@),
        },
    }
}

pub open spec fn items_said(values: Seq<JsonValue>) -> Seq<EvidenceItemModel> {
    Seq::new(values.len(), |i: int| item_said(values[i]))
}

/// The evidence in a document.
pub open spec fn evidence_in(document: JsonValue) -> TranscriptEvidenceModel {
    TranscriptEvidenceModel {
        segments: match list_under(document, "segments"@) {
            Some(values) => Some(items_said(values)),
            None => None,
        },
        words: match list_under(document, "words"@) {
            Some(values) => items_said(values),
            None => Seq::empty(),
        },
        languages: texts_under_either(document, "detected_language"@, "language"@),
    }
}

fn read_item(value: &JsonValue) -> (item: EvidenceItem)
    ensures
        item.deep_view() == item_said(*value),
{
    let text: String = match find_text(value, "text") {
        Some(text) => text.to_owned(),
        None => String::new(),
    };
    assert(text@ =~= item_said(*value).text);
    EvidenceItem {
        text,
        start_bits: numeric_field(value, "start_seconds", "start"),
        end_bits: numeric_field(value, "end_seconds", "end"),
        speakers: find_texts(value, "speaker_id", "speaker"),
        confidence_bits: match find_number(value, "confidence") {
            Some(bits) => Some(bits),
            None => numeric_field(value, "probability", "alignment_score"),
        },
    }
}

fn read_items(values: &Vec<JsonValue>) -> (items: Vec<EvidenceItem>)
    ensures
        items.deep_view() == items_said(values@),
{
    let mut items: Vec<EvidenceItem> = Vec::new();
    let mut index: usize = 0;
    while index < values.len()
        invariant
            index == items.len() <= values.len(),
            forall|i: int| 0 <= i < index ==> (#[trigger] items@[i]).deep_view() == item_said(values@[i]),
        decreases values.len() - index,
    {
        items.push(read_item(&values[index]));
        index += 1;
    }
    assert(items.deep_view() =~= items_said(values@));
    items
}

fn read_evidence(document: &JsonValue) -> (evidence: TranscriptEvidence)
    ensures
        evidence.deep_view() == evidence_in(*document),
{
    let segments: Option<Vec<EvidenceItem>> = match find_member(document, "segments") {
        Some(JsonValue::List(values)) => Some(read_items(values)),
        _ => None,
    };
    let words: Vec<EvidenceItem> = match find_member(document, "words") {
        Some(JsonValue::List(values)) => read_items(values),
        _ => Vec::new(),
    };
    assert(words.deep_view() =~= evidence_in(*document).words);
    TranscriptEvidence { segments, words, languages: find_texts(document, "detected_language", "language") }
}

/// Normalizes timestamped local transcription evidence onto the exact probed source clock.
///
/// Missing or invalid timestamps are rejected rather than guessed; callers can then run a local
/// transcription instead.
pub fn transcript_from_runtime_json(evidence: &JsonValue, request: &TranscriptImportRequest) -> (result: VideoResult<
    TranscriptVersion,
>)
    ensures
        refusal(result) == import_fault(evidence_in(*evidence), request.deep_view()),
        result matches Ok(transcript) ==> transcript.deep_view() == transcript_of(
            evidence_in(*evidence),
            request.deep_view(),
        ),
{
    let read: TranscriptEvidence = read_evidence(evidence);
    transcript_from_evidence(&read, request)
}

} // verus!
