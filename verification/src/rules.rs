//! The rules that identifiers, names, timestamps and paths obey everywhere in a project.

use crate::digest::is_sha256_hex;
use crate::error::{fault_at, or_else, refusal, refuse, unless, Fault, VideoErrorCode, VideoResult};
use crate::text::{
    ascii_letter_or_digit, blank, byte_len, bytes_in, chars_of, decimal, decimal_text, is_ascii_letter_or_digit,
    is_blank, is_part, text_concat, text_concat3,
};
use crate::time::{range_fault, Microseconds, TimeRange, Validate};
use chrono::DateTime;
use vstd::hash_set::StringHashSet;
use vstd::prelude::*;

verus! {

pub open spec fn is_identifier_char(c: char) -> bool {
    is_ascii_letter_or_digit(c) || c == '-' || c == '_' || c == '.' || c == ':'
}

/// 1 to 128 ASCII letters, digits, hyphens, underscores, dots or colons.
pub open spec fn is_identifier(text: Seq<char>) -> bool {
    &&& 1 <= text.len() <= 128
    &&& forall|i: int| 0 <= i < text.len() ==> is_identifier_char(#[trigger] text[i])
}

pub open spec fn identifier_fault(text: Seq<char>, field: Seq<char>) -> Option<Fault> {
    unless(
        is_identifier(text),
        fault_at(
            VideoErrorCode::InvalidIdentifier,
            "identifier must be 1..=128 ASCII letters, digits, '-', '_', '.', or ':'"@,
            field,
        ),
    )
}

pub fn validate_identifier(value: &str, field: &str) -> (result: VideoResult<()>)
    ensures
        refusal(result) == identifier_fault(value@, field@),
{
    let chars: Vec<char> = chars_of(value);
    let mut valid: bool = chars.len() >= 1 && chars.len() <= 128;
    let mut index: usize = 0;
    while valid && index < chars.len()
        invariant
            chars@ == value@,
            index <= chars.len(),
            valid ==> 1 <= chars.len() <= 128,
            valid ==> forall|i: int| 0 <= i < index ==> is_identifier_char(#[trigger] chars@[i]),
            !valid ==> !is_identifier(value@),
        decreases chars.len() - index + if valid { 1int } else { 0int },
    {
        let c: char = chars[index];
        if !(ascii_letter_or_digit(c) || c == '-' || c == '_' || c == '.' || c == ':') {
            assert(!is_identifier_char(value@[index as int]));
            valid = false;
        } else {
            index += 1;
        }
    }
    if !valid {
        return Err(
            refuse(
                VideoErrorCode::InvalidIdentifier,
                "identifier must be 1..=128 ASCII letters, digits, '-', '_', '.', or ':'",
                field,
            ),
        );
    }
    Ok(())
}

/// The rule on an identifier that need not be there.
pub open spec fn optional_identifier_fault(text: Option<Seq<char>>, field: Seq<char>) -> Option<Fault> {
    match text {
        Some(text) => identifier_fault(text, field),
        None => None,
    }
}

pub fn validate_optional_identifier(value: &Option<String>, field: &str) -> (result: VideoResult<()>)
    ensures
        refusal(result) == optional_identifier_fault(value.deep_view(), field@),
{
    match value {
        Some(text) => validate_identifier(text.as_str(), field),
        None => Ok(()),
    }
}

pub open spec fn sha256_fault(text: Seq<char>, field: Seq<char>, code: VideoErrorCode) -> Option<Fault> {
    unless(
        is_sha256_hex(text),
        fault_at(code, "SHA-256 values must be 64 lowercase hexadecimal characters"@, field),
    )
}

pub fn validate_sha256(value: &str, field: &str, code: VideoErrorCode) -> (result: VideoResult<()>)
    ensures
        refusal(result) == sha256_fault(value@, field@, code),
{
    let chars: Vec<char> = chars_of(value);
    let mut valid: bool = chars.len() == 64;
    let mut index: usize = 0;
    while valid && index < chars.len()
        invariant
            chars@ == value@,
            index <= chars.len(),
            valid ==> chars.len() == 64,
            valid ==> forall|i: int|
                0 <= i < index ==> crate::text::is_hex_digit(#[trigger] chars@[i]),
            !valid ==> !is_sha256_hex(value@),
        decreases chars.len() - index + if valid { 1int } else { 0int },
    {
        let c: char = chars[index];
        if !((c >= '0' && c <= '9') || (c >= 'a' && c <= 'f')) {
            assert(!crate::text::is_hex_digit(value@[index as int]));
            valid = false;
        } else {
            index += 1;
        }
    }
    if !valid {
        return Err(
            refuse(code, "SHA-256 values must be 64 lowercase hexadecimal characters", field),
        );
    }
    Ok(())
}

/// Text that says something and takes at most so many bytes.
pub open spec fn is_bounded_text(text: Seq<char>, maximum: int) -> bool {
    !blank(text) && byte_len(text) <= maximum
}

pub open spec fn nonempty_fault(text: Seq<char>, field: Seq<char>, maximum: int) -> Option<Fault> {
    unless(
        is_bounded_text(text, maximum),
        fault_at(
            VideoErrorCode::InvalidIdentifier,
            "value must be non-empty and at most "@ + decimal(maximum as nat) + " bytes"@,
            field,
        ),
    )
}

pub fn validate_nonempty(value: &str, field: &str, maximum_length: usize) -> (result: VideoResult<()>)
    ensures
        refusal(result) == nonempty_fault(value@, field@, maximum_length as int),
{
    if is_blank(value) || bytes_in(value) > maximum_length {
        let limit: String = decimal_text(maximum_length as u64);
        let message: String = text_concat3(
            "value must be non-empty and at most ",
            limit.as_str(),
            " bytes",
        );
        return Err(refuse(VideoErrorCode::InvalidIdentifier, message.as_str(), field));
    }
    Ok(())
}

/// Whether a part of a language tag is one to eight ASCII letters or digits.
pub open spec fn is_language_part(text: Seq<char>, from: int, to: int) -> bool {
    &&& 1 <= to - from <= 8
    &&& forall|i: int| from <= i < to ==> is_ascii_letter_or_digit(#[trigger] text[i])
}

/// A tag of hyphen-separated parts in the style of BCP 47.
pub open spec fn is_language_tag(text: Seq<char>) -> bool {
    &&& 1 <= text.len() <= 64
    &&& forall|from: int, to: int| #[trigger] is_part(text, '-', from, to) ==> is_language_part(text, from, to)
}

pub open spec fn language_fault(text: Seq<char>, field: Seq<char>) -> Option<Fault> {
    unless(
        is_language_tag(text),
        fault_at(
            VideoErrorCode::InvalidNarration,
            "language must be a bounded BCP-47-style tag"@,
            field,
        ),
    )
}

fn is_language_tag_text(value: &str) -> (valid: bool)
    ensures
        valid == is_language_tag(value@),
{
    let chars: Vec<char> = chars_of(value);
    let ghost text = value@;
    if chars.len() < 1 || chars.len() > 64 {
        return false;
    }
    let mut start: usize = 0;
    let mut index: usize = 0;
    while index < chars.len()
        invariant
            chars@ == text,
            text == value@,
            1 <= chars.len() <= 64,
            start <= index <= chars.len(),
            start == 0 || text[start - 1] == '-',
            index - start <= 8,
            forall|i: int| start <= i < index ==> is_ascii_letter_or_digit(#[trigger] text[i]),
            forall|from: int, to: int|
                to < start && #[trigger] is_part(text, '-', from, to) ==> is_language_part(text, from, to),
        decreases chars.len() - index,
    {
        let c: char = chars[index];
        if c == '-' {
            assert(is_part(text, '-', start as int, index as int));
            if index == start {
                assert(!is_language_part(text, start as int, index as int));
                return false;
            }
            assert forall|from: int, to: int|
                to < index + 1 && #[trigger] is_part(text, '-', from, to) implies is_language_part(
                text,
                from,
                to,
            ) by {
                if to >= start {
                    lemma_part_is_unique(text, '-', from, to, start as int, index as int);
                }
            }
            index += 1;
            start = index;
        } else if !ascii_letter_or_digit(c) || index - start >= 8 {
            proof {
                let end = lemma_part_end(text, '-', index as int);
                assert(is_part(text, '-', start as int, end));
                assert(!is_language_part(text, start as int, end));
            }
            return false;
        } else {
            index += 1;
        }
    }
    assert(is_part(text, '-', start as int, index as int));
    if index == start {
        assert(!is_language_part(text, start as int, index as int));
        return false;
    }
    assert forall|from: int, to: int| #[trigger] is_part(text, '-', from, to) implies is_language_part(
        text,
        from,
        to,
    ) by {
        if to >= start {
            lemma_part_is_unique(text, '-', from, to, start as int, index as int);
        }
    }
    true
}

/// Every character that is not a separator belongs to a part that ends after it.
proof fn lemma_part_end(text: Seq<char>, separator: char, index: int) -> (end: int)
    requires
        0 <= index < text.len(),
        text[index] != separator,
    ensures
        index < end <= text.len(),
        end == text.len() || text[end] == separator,
        forall|i: int| index <= i < end ==> text[i] != separator,
    decreases text.len() - index,
{
    if index + 1 == text.len() || text[index + 1] == separator {
        index + 1
    } else {
        lemma_part_end(text, separator, index + 1)
    }
}

/// Two parts that end at or after the start of one of them are the same part.
proof fn lemma_part_is_unique(text: Seq<char>, separator: char, from: int, to: int, start: int, end: int)
    requires
        is_part(text, separator, from, to),
        is_part(text, separator, start, end),
        start <= to <= end,
    ensures
        from == start,
        to == end,
{
    if to < end {
        assert(text[to] == separator);
    }
    if from > start {
        assert(text[from - 1] == separator);
    }
    if from < start {
        assert(text[start - 1] == separator);
    }
}

pub fn validate_language_tag(value: &str, field: &str) -> (result: VideoResult<()>)
    ensures
        refusal(result) == language_fault(value@, field@),
{
    if !is_language_tag_text(value) {
        return Err(
            refuse(
                VideoErrorCode::InvalidNarration,
                "language must be a bounded BCP-47-style tag",
                field,
            ),
        );
    }
    Ok(())
}

/// Whether a text is a date and time in the form of RFC 3339.
pub uninterp spec fn is_rfc3339(text: Seq<char>) -> bool;

/// `chrono::DateTime::parse_from_rfc3339`: whether it accepts the text, which depends on nothing
/// but the text.
#[verifier::external_body]
fn parses_as_rfc3339(value: &str) -> (result: bool)
    ensures
        result == is_rfc3339(value@),
{
    DateTime::parse_from_rfc3339(value).is_ok()
}

/// A UTC instant in the form of RFC 3339, with the designator `Z`.
pub open spec fn is_utc_timestamp(text: Seq<char>) -> bool {
    text.len() > 0 && text.last() == 'Z' && is_rfc3339(text)
}

pub open spec fn timestamp_fault(text: Seq<char>, field: Seq<char>) -> Option<Fault> {
    unless(
        is_utc_timestamp(text),
        fault_at(VideoErrorCode::InvalidTimestamp, "timestamp must be a UTC RFC3339 string"@, field),
    )
}

pub fn validate_timestamp_text(value: &str, field: &str) -> (result: VideoResult<()>)
    ensures
        refusal(result) == timestamp_fault(value@, field@),
{
    let chars: Vec<char> = chars_of(value);
    if chars.len() == 0 || chars[chars.len() - 1] != 'Z' || !parses_as_rfc3339(value) {
        return Err(
            refuse(
                VideoErrorCode::InvalidTimestamp,
                "timestamp must be a UTC RFC3339 string",
                field,
            ),
        );
    }
    Ok(())
}

/// Whether the characters from `from` up to `to` name the parent directory.
pub open spec fn is_parent_part(text: Seq<char>, from: int, to: int) -> bool {
    to == from + 2 && text[from] == '.' && text[from + 1] == '.'
}

/// A relative path of at most 4096 bytes that never steps to a parent directory.
pub open spec fn is_managed_path(text: Seq<char>) -> bool {
    &&& text.len() > 0
    &&& byte_len(text) <= 4_096
    &&& text[0] != '/'
    &&& forall|from: int, to: int| #[trigger] is_part(text, '/', from, to) ==> !is_parent_part(text, from, to)
}

pub open spec fn managed_path_fault(text: Seq<char>, field: Seq<char>) -> Option<Fault> {
    unless(
        is_managed_path(text),
        fault_at(
            VideoErrorCode::InvalidAsset,
            "managed paths must be relative, bounded, and may not traverse parents"@,
            field,
        ),
    )
}

fn traverses_parent(chars: &Vec<char>) -> (result: bool)
    ensures
        result == exists|from: int, to: int|
            #[trigger] is_part(chars@, '/', from, to) && is_parent_part(chars@, from, to),
{
    let mut index: usize = 0;
    while index < chars.len()
        invariant
            index <= chars.len(),
            forall|from: int, to: int|
                from < index && #[trigger] is_part(chars@, '/', from, to) ==> !is_parent_part(
                    chars@,
                    from,
                    to,
                ),
        decreases chars.len() - index,
    {
        if (index == 0 || chars[index - 1] == '/') && chars.len() - index >= 2 && chars[index] == '.'
            && chars[index + 1] == '.' && (chars.len() - index == 2 || chars[index + 2] == '/') {
            assert(is_part(chars@, '/', index as int, index + 2));
            assert(is_parent_part(chars@, index as int, index + 2));
            return true;
        }
        index += 1;
    }
    false
}

pub fn validate_managed_path(value: &str, field: &str) -> (result: VideoResult<()>)
    ensures
        refusal(result) == managed_path_fault(value@, field@),
{
    let chars: Vec<char> = chars_of(value);
    if chars.len() == 0 || bytes_in(value) > 4_096 || chars[0] == '/' || traverses_parent(&chars) {
        return Err(
            refuse(
                VideoErrorCode::InvalidAsset,
                "managed paths must be relative, bounded, and may not traverse parents",
                field,
            ),
        );
    }
    Ok(())
}

pub open spec fn duplicate_fault(field: Seq<char>, id: Seq<char>) -> Fault {
    fault_at(VideoErrorCode::DuplicateId, "duplicate identifier "@ + id, field)
}

pub fn duplicate_id_error(field: &str, id: &str) -> (error: crate::error::VideoError)
    ensures
        error.deep_view() == duplicate_fault(field@, id@),
{
    let message: String = text_concat("duplicate identifier ", id);
    refuse(VideoErrorCode::DuplicateId, message.as_str(), field)
}

/// Whether the identifier at a place also stands before it.
pub open spec fn repeats_at(ids: Seq<Seq<char>>, index: int) -> bool {
    exists|earlier: int| 0 <= earlier < index && #[trigger] ids[earlier] == ids[index]
}

/// The refusal of the first identifier, from a place on, that stands twice.
pub open spec fn unique_fault_from(ids: Seq<Seq<char>>, index: int, field: Seq<char>) -> Option<Fault>
    decreases ids.len() - index,
{
    if index < 0 || index >= ids.len() {
        None
    } else if repeats_at(ids, index) {
        Some(duplicate_fault(field, ids[index]))
    } else {
        unique_fault_from(ids, index + 1, field)
    }
}

/// The refusal of the first identifier that stands twice.
pub open spec fn unique_fault(ids: Seq<Seq<char>>, field: Seq<char>) -> Option<Fault> {
    unique_fault_from(ids, 0, field)
}

/// The identifiers of a list are distinct.
pub open spec fn distinct(ids: Seq<Seq<char>>) -> bool {
    forall|i: int, j: int| 0 <= i < j < ids.len() ==> #[trigger] ids[i] != #[trigger] ids[j]
}

/// Identifiers are accepted as unique exactly where they are distinct.
pub proof fn unique_is_distinct(ids: Seq<Seq<char>>, field: Seq<char>)
    ensures
        unique_fault(ids, field) is None <==> distinct(ids),
{
    lemma_unique_from(ids, 0, field);
}

proof fn lemma_unique_from(ids: Seq<Seq<char>>, index: int, field: Seq<char>)
    requires
        0 <= index <= ids.len(),
    ensures
        unique_fault_from(ids, index, field) is None <==> forall|i: int, j: int|
            0 <= i < j < ids.len() && j >= index ==> #[trigger] ids[i] != #[trigger] ids[j],
    decreases ids.len() - index,
{
    if index < ids.len() {
        lemma_unique_from(ids, index + 1, field);
        if repeats_at(ids, index) {
            let earlier = choose|earlier: int| 0 <= earlier < index && #[trigger] ids[earlier] == ids[index];
            assert(ids[earlier] == ids[index]);
        } else {
            assert forall|i: int, j: int|
                0 <= i < j < ids.len() && j >= index && unique_fault_from(ids, index + 1, field) is None implies #[trigger] ids[i]
                != #[trigger] ids[j] by {
                if j == index {
                    assert(ids[i] != ids[index]);
                }
            }
        }
    }
}

pub fn validate_unique_ids(ids: &Vec<String>, field: &str) -> (result: VideoResult<()>)
    ensures
        refusal(result) == unique_fault(ids.deep_view(), field@),
{
    let ghost model = ids.deep_view();
    let mut seen: StringHashSet = StringHashSet::new();
    let mut index: usize = 0;
    while index < ids.len()
        invariant
            index <= ids.len(),
            model == ids.deep_view(),
            forall|id: Seq<char>|
                #[trigger] seen@.contains(id) <==> exists|i: int| 0 <= i < index && #[trigger] model[i] == id,
            unique_fault(model, field@) == unique_fault_from(model, index as int, field@),
        decreases ids.len() - index,
    {
        assert(model[index as int] == ids[index as int]@);
        let fresh: bool = seen.insert(ids[index].clone());
        if !fresh {
            assert(repeats_at(model, index as int));
            return Err(duplicate_id_error(field, ids[index].as_str()));
        }
        assert(!repeats_at(model, index as int));
        index += 1;
    }
    Ok(())
}

pub open spec fn within_fault(
    range: TimeRange,
    duration: int,
    code: VideoErrorCode,
    field: Seq<char>,
) -> Option<Fault> {
    or_else(
        range_fault(range.start(), range.end()),
        unless(
            0 < duration && range.end() <= duration,
            fault_at(code, "time range exceeds its clock duration"@, field),
        ),
    )
}

pub fn validate_range_within(
    range: TimeRange,
    duration: Microseconds,
    code: VideoErrorCode,
    field: &str,
) -> (result: VideoResult<()>)
    ensures
        refusal(result) == within_fault(range, duration.0 as int, code, field@),
{
    range.validate()?;
    if duration.0 <= 0 || range.end_us.0 > duration.0 {
        return Err(refuse(code, "time range exceeds its clock duration", field));
    }
    Ok(())
}

} // verus!
