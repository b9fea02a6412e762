//! Times and texts as subtitle documents and filter graphs write them.

use crate::text::{
    a_number_reads_as_itself, a_padded_number_reads_as_itself, chars_of, decimal, decimal_text, number_in, padded,
    padded_text, power_of_ten, signed_decimal, signed_decimal_text,
};
use crate::time::Microseconds;
use vstd::prelude::*;

verus! {

/// Where a text is written.
#[derive(Clone, Copy, Debug, PartialEq, Eq, Structural)]
pub enum Place {
    /// The text of a subtitle.
    Subtitle,
    /// A field of a subtitle, which a comma would end.
    SubtitleField,
    /// A file's path within a filter graph.
    FilterPath,
}

/// What stands for a character in the text of a subtitle.
pub open spec fn subtitle_char(c: char) -> Seq<char> {
    if c == '\\' {
        "\\\\"@
    } else if c == '{' {
        "\\{"@
    } else if c == '}' {
        "\\}"@
    } else if c == '\r' || c == '\n' {
        "\\N"@
    } else {
        seq![c]
    }
}

/// What stands for a character.
pub open spec fn written_char(place: Place, c: char) -> Seq<char> {
    match place {
        Place::Subtitle => subtitle_char(c),
        Place::SubtitleField => if c == ',' {
            seq![' ']
        } else {
            subtitle_char(c)
        },
        Place::FilterPath => if c == '\\' {
            "\\\\"@
        } else if c == ':' {
            "\\:"@
        } else if c == '\'' {
            "\\'"@
        } else if c == '[' {
            "\\["@
        } else if c == ']' {
            "\\]"@
        } else {
            seq![c]
        },
    }
}

/// What stands for the first characters of a text.
pub open spec fn written(place: Place, text: Seq<char>, count: int) -> Seq<char>
    decreases count,
{
    if count <= 0 {
        Seq::empty()
    } else {
        written(place, text, count - 1) + written_char(place, text[count - 1])
    }
}

/// A text with the characters escaped that mean something where it is written.
pub open spec fn escaped(place: Place, text: Seq<char>) -> Seq<char> {
    written(place, text, text.len() as int)
}

fn push_subtitle_char(text: &mut String, c: char)
    ensures
        final(text)@ == old(text)@ + written_char(Place::Subtitle, c),
{
    if c == '\\' {
        text.append("\\\\");
    } else if c == '{' {
        text.append("\\{");
    } else if c == '}' {
        text.append("\\}");
    } else if c == '\r' || c == '\n' {
        text.append("\\N");
    } else {
        text.push(c);
        assert(text@ =~= old(text)@ + seq![c]);
    }
}

fn push_path_char(text: &mut String, c: char)
    ensures
        final(text)@ == old(text)@ + written_char(Place::FilterPath, c),
{
    if c == '\\' {
        text.append("\\\\");
    } else if c == ':' {
        text.append("\\:");
    } else if c == '\'' {
        text.append("\\'");
    } else if c == '[' {
        text.append("\\[");
    } else if c == ']' {
        text.append("\\]");
    } else {
        text.push(c);
        assert(text@ =~= old(text)@ + seq![c]);
    }
}

/// Escapes a text for the place where it is written.
pub fn escape(place: Place, text: &str) -> (result: String)
    ensures
        result@ == escaped(place, text@),
{
    let chars: Vec<char> = chars_of(text);
    let mut result: String = String::new();
    let mut index: usize = 0;
    assert(result@ =~= Seq::empty());
    while index < chars.len()
        invariant
            chars@ == text@,
            index <= chars.len(),
            result@ == written(place, text@, index as int),
        decreases chars.len() - index,
    {
        let c: char = chars[index];
        match place {
            Place::Subtitle => push_subtitle_char(&mut result, c),
            Place::SubtitleField => if c == ',' {
                let ghost before = result@;
                result.push(' ');
                assert(result@ =~= before + seq![' ']);
            } else {
                push_subtitle_char(&mut result, c);
            },
            Place::FilterPath => push_path_char(&mut result, c),
        }
        index += 1;
    }
    result
}

/// A number in decimal, its sign first and zeros up to a width.
pub open spec fn padded_signed(value: int, width: nat) -> Seq<char> {
    if value < 0 {
        "-"@ + padded((-value) as nat, (width - 1) as nat)
    } else {
        padded(value as nat, width)
    }
}

/// A quotient rounded toward zero.
pub open spec fn truncated(value: int, by: int) -> int {
    if value < 0 {
        -((-value) / by)
    } else {
        value / by
    }
}

/// An instant in seconds with six decimals. Before zero both parts carry the sign.
pub open spec fn seconds_of(value: int) -> Seq<char> {
    signed_decimal(truncated(value, 1_000_000)) + "."@ + padded_signed(
        value - 1_000_000 * truncated(value, 1_000_000),
        6,
    )
}

/// An instant in seconds, as filter graphs write it.
pub fn ffmpeg_time(value: Microseconds) -> (text: String)
    ensures
        text@ == seconds_of(value.0 as int),
{
    if value.0 < 0 {
        let size: u64 = if value.0 == i64::MIN {
            9_223_372_036_854_775_808u64
        } else {
            (-value.0) as u64
        };
        let mut text: String = signed_decimal_text(-((size / 1_000_000) as i64));
        text.append(".");
        let rest: u64 = size % 1_000_000;
        if rest > 0 {
            let digits: String = padded_text(rest, 5);
            let mut part: String = "-".to_owned();
            part.append(digits.as_str());
            text.append(part.as_str());
        } else {
            let digits: String = padded_text(0, 6);
            text.append(digits.as_str());
        }
        text
    } else {
        let mut text: String = signed_decimal_text(value.0 / 1_000_000);
        text.append(".");
        let digits: String = padded_text((value.0 % 1_000_000) as u64, 6);
        text.append(digits.as_str());
        text
    }
}

/// The hundredths of a second that a subtitle counts in; before zero none.
pub open spec fn centiseconds(value: int) -> int {
    if value < 0 {
        0
    } else {
        value / 10_000
    }
}

/// An instant as hours, minutes, seconds and hundredths.
pub open spec fn clock_of(value: int) -> Seq<char> {
    let total = centiseconds(value);
    decimal((total / 360_000) as nat) + ":"@ + padded(((total / 6_000) % 60) as nat, 2) + ":"@ + padded(
        ((total / 100) % 60) as nat,
        2,
    ) + "."@ + padded((total % 100) as nat, 2)
}

/// An instant as subtitles write it.
pub fn ass_time(value: Microseconds) -> (text: String)
    ensures
        text@ == clock_of(value.0 as int),
{
    let total: u64 = count_centiseconds(value);
    let minutes: String = padded_text((total / 6_000) % 60, 2);
    let seconds: String = padded_text((total / 100) % 60, 2);
    let rest: String = padded_text(total % 100, 2);
    let mut text: String = decimal_text(total / 360_000);
    text.append(":");
    text.append(minutes.as_str());
    text.append(":");
    text.append(seconds.as_str());
    text.append(".");
    text.append(rest.as_str());
    text
}

/// The hundredths of a second that a subtitle counts in.
pub fn count_centiseconds(value: Microseconds) -> (count: u64)
    ensures
        count == centiseconds(value.0 as int),
{
    if value.0 < 0 {
        0
    } else {
        value.0 as u64 / 10_000
    }
}

/// One event of a subtitle document.
pub open spec fn dialogue_of(
    layer: nat,
    start: int,
    end: int,
    style: Seq<char>,
    name: Seq<char>,
    text: Seq<char>,
) -> Seq<char> {
    "Dialogue: "@ + decimal(layer) + ","@ + clock_of(start) + ","@ + clock_of(end) + ","@ + style + ","@ + escaped(
        Place::SubtitleField,
        name,
    ) + ",0,0,0,,"@ + text + "\n"@
}

/// One event of a subtitle document.
pub fn ass_dialogue(layer: u8, start: Microseconds, end: Microseconds, style: &str, name: &str, text: &str) -> (line:
    String)
    ensures
        line@ == dialogue_of(layer as nat, start.0 as int, end.0 as int, style@, name@, text@),
{
    let number: String = decimal_text(layer as u64);
    let from: String = ass_time(start);
    let to: String = ass_time(end);
    let speaker: String = escape(Place::SubtitleField, name);
    let mut line: String = String::from_str("Dialogue: ");
    line.append(number.as_str());
    line.append(",");
    line.append(from.as_str());
    line.append(",");
    line.append(to.as_str());
    line.append(",");
    line.append(style);
    line.append(",");
    line.append(speaker.as_str());
    line.append(",0,0,0,,");
    line.append(text);
    line.append("\n");
    line
}

/// Whether a text neither ends its line in a subtitle document nor opens an override of its own.
pub open spec fn stays_on_its_line(text: Seq<char>) -> bool {
    forall|i: int|
        0 <= i < text.len() ==> {
            &&& (#[trigger] text[i]) != '\n'
            &&& text[i] != '\r'
            &&& text[i] == '{' || text[i] == '}' ==> i > 0 && text[i - 1] == '\\'
        }
}

proof fn lemma_written_stays(place: Place, text: Seq<char>, count: int)
    requires
        place != Place::FilterPath,
        0 <= count <= text.len(),
    ensures
        stays_on_its_line(written(place, text, count)),
        place == Place::SubtitleField ==> !written(place, text, count).contains(','),
    decreases count,
{
    if count > 0 {
        lemma_written_stays(place, text, count - 1);
        reveal_strlit("\\\\");
        reveal_strlit("\\{");
        reveal_strlit("\\}");
        reveal_strlit("\\N");
        let before = written(place, text, count - 1);
        let more = written_char(place, text[count - 1]);
        let after = written(place, text, count);
        assert(after == before + more);
        assert forall|i: int| 0 <= i < after.len() implies {
            &&& (#[trigger] after[i]) != '\n'
            &&& after[i] != '\r'
            &&& after[i] == '{' || after[i] == '}' ==> i > 0 && after[i - 1] == '\\'
        } by {
            if i < before.len() {
                assert(after[i] == before[i]);
                if i > 0 {
                    assert(after[i - 1] == before[i - 1]);
                }
            } else {
                assert(after[i] == more[i - before.len()]);
                if i > before.len() {
                    assert(after[i - 1] == more[i - 1 - before.len()]);
                }
            }
        }
        if place == Place::SubtitleField && after.contains(',') {
            let i = choose|i: int| 0 <= i < after.len() && after[i] == ',';
            if i < before.len() {
                assert(before[i] == ',');
            } else {
                assert(more[i - before.len()] == ',');
            }
        }
    }
}

/// Whatever a text says, it neither ends its line in a subtitle document nor opens an override, and a
/// field holds no comma.
pub proof fn escaped_text_stays_on_its_line(place: Place, text: Seq<char>)
    requires
        place != Place::FilterPath,
    ensures
        stays_on_its_line(escaped(place, text)),
        place == Place::SubtitleField ==> !escaped(place, text).contains(','),
{
    lemma_written_stays(place, text, text.len() as int);
}

/// An instant on a filter graph's clock reads as its microseconds: whole seconds, a point, and six digits for the
/// rest.
pub proof fn seconds_read_as_their_microseconds(value: int) -> (parts: (Seq<char>, Seq<char>))
    requires
        value >= 0,
    ensures
        seconds_of(value) == parts.0 + "."@ + parts.1,
        1_000_000 * number_in(parts.0) + number_in(parts.1) == value,
        parts.1.len() == 6,
{
    let whole = decimal((value / 1_000_000) as nat);
    let rest = padded((value % 1_000_000) as nat, 6);
    a_number_reads_as_itself((value / 1_000_000) as nat);
    a_padded_number_reads_as_itself((value % 1_000_000) as nat, 6);
    reveal_with_fuel(power_of_ten, 7);
    assert(power_of_ten(6) == 1_000_000);
    assert(value - 1_000_000 * truncated(value, 1_000_000) == value % 1_000_000);
    (whole, rest)
}

/// An instant on a subtitle's clock reads, in hours, minutes, seconds and hundredths, as the last hundredth of a
/// second at or before it; minutes and seconds stay below sixty.
pub proof fn a_clock_reads_as_its_hundredths(value: int) -> (parts: (Seq<char>, Seq<char>, Seq<char>, Seq<char>))
    ensures
        clock_of(value) == parts.0 + ":"@ + parts.1 + ":"@ + parts.2 + "."@ + parts.3,
        ({
            let read = 360_000 * number_in(parts.0) + 6_000 * number_in(parts.1) + 100 * number_in(parts.2)
                + number_in(parts.3);
            &&& value >= 0 ==> 10_000 * read <= value < 10_000 * (read + 1)
            &&& value < 0 ==> read == 0
        }),
        parts.1.len() == 2 && parts.2.len() == 2 && parts.3.len() == 2,
        0 <= number_in(parts.1) < 60,
        0 <= number_in(parts.2) < 60,
        0 <= number_in(parts.3) < 100,
{
    let total = centiseconds(value);
    let hours = (total / 360_000) as nat;
    let minutes = ((total / 6_000) % 60) as nat;
    let seconds = ((total / 100) % 60) as nat;
    let rest = (total % 100) as nat;
    a_number_reads_as_itself(hours);
    a_padded_number_reads_as_itself(minutes, 2);
    a_padded_number_reads_as_itself(seconds, 2);
    a_padded_number_reads_as_itself(rest, 2);
    reveal_with_fuel(power_of_ten, 3);
    assert(power_of_ten(2) == 100);
    lemma_clock_parts(total);
    (decimal(hours), padded(minutes, 2), padded(seconds, 2), padded(rest, 2))
}

proof fn lemma_clock_parts(total: int)
    requires
        total >= 0,
    ensures
        360_000 * (total / 360_000) + 6_000 * ((total / 6_000) % 60) + 100 * ((total / 100) % 60) + total % 100 == total,
{
    let seconds = total / 100;
    vstd::arithmetic::div_mod::lemma_div_denominator(total, 100, 60);
    vstd::arithmetic::div_mod::lemma_div_denominator(total, 6_000, 60);
    let minutes = total / 6_000;
    assert(seconds / 60 == minutes);
    assert(minutes / 60 == total / 360_000);
    assert(seconds == 60 * (seconds / 60) + seconds % 60);
    assert(minutes == 60 * (minutes / 60) + minutes % 60);
    assert(total == 100 * seconds + total % 100);
}

/// A later instant never shows an earlier hundredth.
pub proof fn clocks_run_forward(earlier: int, later: int)
    requires
        earlier <= later,
    ensures
        centiseconds(earlier) <= centiseconds(later),
{
}

} // verus!
