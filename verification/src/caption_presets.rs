//! The curated caption looks.

use crate::text::{decimal, decimal_text, padded, padded_text, text_eq, chars_of};
use crate::validate::CaptionPresetId;
use vstd::prelude::*;

verus! {

/// The caption look of a whole render. A cue's own style decides; this one is kept for the record.
#[derive(Clone, Copy, Debug, PartialEq, Eq, Structural)]
pub enum CaptionTheme {
    CleanWhite,
    Calm,
    Kinetic,
}

/// How a page of a caption shows its words.
#[derive(Clone, Copy, Debug, PartialEq, Eq, Structural)]
pub enum CaptionRevealMode {
    Page,
    ActiveWord,
    Karaoke,
    Typewriter,
}

/// How much of a caption fits on one page.
#[derive(Clone, Copy, Debug, PartialEq, Eq, Structural)]
pub struct CaptionPagingRules {
    pub max_words: usize,
    pub max_lines: usize,
    pub max_chars_per_line: usize,
    pub preferred_min_page_us: i64,
    pub break_on_punctuation: bool,
}

/// A caption look. Sizes and margins are thousandths of the canvas.
#[derive(Clone, Copy, Debug)]
pub struct AssCaptionPreset {
    pub id: CaptionPresetId,
    pub ass_name: &'static str,
    pub font_name: &'static str,
    pub relative_size_milli: u16,
    pub primary_color: &'static str,
    pub secondary_color: &'static str,
    pub active_color: &'static str,
    pub outline_color: &'static str,
    pub back_color: &'static str,
    pub bold: bool,
    pub spacing: i8,
    pub border_style: u8,
    pub outline: u8,
    pub shadow: u8,
    pub alignment: u8,
    pub margin_vertical_milli: u16,
    pub uppercase: bool,
    pub lowercase: bool,
    pub reveal: CaptionRevealMode,
    pub paging: CaptionPagingRules,
}

/// The look of a preset.
pub open spec fn preset_of(id: CaptionPresetId) -> AssCaptionPreset {
    match id {
        CaptionPresetId::CleanWhite => AssCaptionPreset {
            id,
            ass_name: "CaptionCleanWhite",
            font_name: "Inter",
            relative_size_milli: 44,
            primary_color: "&H00FFFFFF",
            secondary_color: "&H00FFFFFF",
            active_color: "&H00FFFFFF",
            outline_color: "&H78000000",
            back_color: "&H3C000000",
            bold: true,
            spacing: 0,
            border_style: 1,
            outline: 3,
            shadow: 0,
            alignment: 2,
            margin_vertical_milli: 90,
            uppercase: false,
            lowercase: false,
            reveal: CaptionRevealMode::Page,
            paging: CaptionPagingRules {
                max_words: 8,
                max_lines: 2,
                max_chars_per_line: 30,
                preferred_min_page_us: 500_000,
                break_on_punctuation: true,
            },
        },
        CaptionPresetId::Calm => AssCaptionPreset {
            id,
            ass_name: "CaptionCalm",
            font_name: "Inter",
            relative_size_milli: 36,
            primary_color: "&H00F7F3EE",
            secondary_color: "&H00F7F3EE",
            active_color: "&H00F7F3EE",
            outline_color: "&H8A111111",
            back_color: "&H50000000",
            bold: true,
            spacing: 0,
            border_style: 1,
            outline: 2,
            shadow: 1,
            alignment: 2,
            margin_vertical_milli: 105,
            uppercase: false,
            lowercase: false,
            reveal: CaptionRevealMode::Page,
            paging: CaptionPagingRules {
                max_words: 10,
                max_lines: 2,
                max_chars_per_line: 34,
                preferred_min_page_us: 650_000,
                break_on_punctuation: true,
            },
        },
        CaptionPresetId::Kinetic => AssCaptionPreset {
            id,
            ass_name: "CaptionKinetic",
            font_name: "Inter",
            relative_size_milli: 52,
            primary_color: "&H00FFFFFF",
            secondary_color: "&H003DD9FF",
            active_color: "&H003DD9FF",
            outline_color: "&H00000000",
            back_color: "&H50000000",
            bold: true,
            spacing: 1,
            border_style: 1,
            outline: 4,
            shadow: 1,
            alignment: 2,
            margin_vertical_milli: 180,
            uppercase: false,
            lowercase: false,
            reveal: CaptionRevealMode::Page,
            paging: CaptionPagingRules {
                max_words: 4,
                max_lines: 2,
                max_chars_per_line: 20,
                preferred_min_page_us: 350_000,
                break_on_punctuation: true,
            },
        },
        CaptionPresetId::BoldPop => AssCaptionPreset {
            id,
            ass_name: "CaptionBoldPop",
            font_name: "Inter",
            relative_size_milli: 64,
            primary_color: "&H00FFFFFF",
            secondary_color: "&H003DD9FF",
            active_color: "&H003DD9FF",
            outline_color: "&H00000000",
            back_color: "&H60000000",
            bold: true,
            spacing: 1,
            border_style: 1,
            outline: 5,
            shadow: 2,
            alignment: 2,
            margin_vertical_milli: 220,
            uppercase: true,
            lowercase: false,
            reveal: CaptionRevealMode::ActiveWord,
            paging: CaptionPagingRules {
                max_words: 3,
                max_lines: 2,
                max_chars_per_line: 16,
                preferred_min_page_us: 300_000,
                break_on_punctuation: true,
            },
        },
        CaptionPresetId::Highlight => AssCaptionPreset {
            id,
            ass_name: "CaptionHighlight",
            font_name: "Inter",
            relative_size_milli: 48,
            primary_color: "&H00FFFFFF",
            secondary_color: "&H00F2764F",
            active_color: "&H00F2764F",
            outline_color: "&H70000000",
            back_color: "&H58000000",
            bold: true,
            spacing: 0,
            border_style: 1,
            outline: 3,
            shadow: 1,
            alignment: 2,
            margin_vertical_milli: 130,
            uppercase: false,
            lowercase: false,
            reveal: CaptionRevealMode::ActiveWord,
            paging: CaptionPagingRules {
                max_words: 5,
                max_lines: 2,
                max_chars_per_line: 24,
                preferred_min_page_us: 400_000,
                break_on_punctuation: true,
            },
        },
        CaptionPresetId::Karaoke => AssCaptionPreset {
            id,
            ass_name: "CaptionKaraoke",
            font_name: "Inter",
            relative_size_milli: 47,
            primary_color: "&H008C8C8C",
            secondary_color: "&H008C8C8C",
            active_color: "&H00FFFFFF",
            outline_color: "&H78000000",
            back_color: "&H48000000",
            bold: true,
            spacing: 0,
            border_style: 1,
            outline: 3,
            shadow: 0,
            alignment: 2,
            margin_vertical_milli: 110,
            uppercase: false,
            lowercase: false,
            reveal: CaptionRevealMode::Karaoke,
            paging: CaptionPagingRules {
                max_words: 6,
                max_lines: 2,
                max_chars_per_line: 28,
                preferred_min_page_us: 450_000,
                break_on_punctuation: true,
            },
        },
        CaptionPresetId::Typewriter => AssCaptionPreset {
            id,
            ass_name: "CaptionTypewriter",
            font_name: "DejaVu Sans Mono",
            relative_size_milli: 38,
            primary_color: "&H006EE7A4",
            secondary_color: "&H006EE7A4",
            active_color: "&H006EE7A4",
            outline_color: "&H50000000",
            back_color: "&H70110D0A",
            bold: false,
            spacing: 1,
            border_style: 3,
            outline: 1,
            shadow: 0,
            alignment: 2,
            margin_vertical_milli: 120,
            uppercase: false,
            lowercase: true,
            reveal: CaptionRevealMode::Typewriter,
            paging: CaptionPagingRules {
                max_words: 7,
                max_lines: 2,
                max_chars_per_line: 30,
                preferred_min_page_us: 400_000,
                break_on_punctuation: true,
            },
        },
        CaptionPresetId::Podcast => AssCaptionPreset {
            id,
            ass_name: "CaptionPodcast",
            font_name: "Inter",
            relative_size_milli: 39,
            primary_color: "&H00F3EFE8",
            secondary_color: "&H00F3EFE8",
            active_color: "&H00F3EFE8",
            outline_color: "&H50000000",
            back_color: "&H701A1510",
            bold: true,
            spacing: 0,
            border_style: 3,
            outline: 1,
            shadow: 0,
            alignment: 2,
            margin_vertical_milli: 90,
            uppercase: false,
            lowercase: false,
            reveal: CaptionRevealMode::Page,
            paging: CaptionPagingRules {
                max_words: 10,
                max_lines: 2,
                max_chars_per_line: 34,
                preferred_min_page_us: 650_000,
                break_on_punctuation: true,
            },
        },
    }
}

/// The look of a preset.
pub fn caption_preset(id: CaptionPresetId) -> (preset: AssCaptionPreset)
    ensures
        preset == preset_of(id),
{
    match id {
        CaptionPresetId::CleanWhite => AssCaptionPreset {
            id,
            ass_name: "CaptionCleanWhite",
            font_name: "Inter",
            relative_size_milli: 44,
            primary_color: "&H00FFFFFF",
            secondary_color: "&H00FFFFFF",
            active_color: "&H00FFFFFF",
            outline_color: "&H78000000",
            back_color: "&H3C000000",
            bold: true,
            spacing: 0,
            border_style: 1,
            outline: 3,
            shadow: 0,
            alignment: 2,
            margin_vertical_milli: 90,
            uppercase: false,
            lowercase: false,
            reveal: CaptionRevealMode::Page,
            paging: CaptionPagingRules {
                max_words: 8,
                max_lines: 2,
                max_chars_per_line: 30,
                preferred_min_page_us: 500_000,
                break_on_punctuation: true,
            },
        },
        CaptionPresetId::Calm => AssCaptionPreset {
            id,
            ass_name: "CaptionCalm",
            font_name: "Inter",
            relative_size_milli: 36,
            primary_color: "&H00F7F3EE",
            secondary_color: "&H00F7F3EE",
            active_color: "&H00F7F3EE",
            outline_color: "&H8A111111",
            back_color: "&H50000000",
            bold: true,
            spacing: 0,
            border_style: 1,
            outline: 2,
            shadow: 1,
            alignment: 2,
            margin_vertical_milli: 105,
            uppercase: false,
            lowercase: false,
            reveal: CaptionRevealMode::Page,
            paging: CaptionPagingRules {
                max_words: 10,
                max_lines: 2,
                max_chars_per_line: 34,
                preferred_min_page_us: 650_000,
                break_on_punctuation: true,
            },
        },
        CaptionPresetId::Kinetic => AssCaptionPreset {
            id,
            ass_name: "CaptionKinetic",
            font_name: "Inter",
            relative_size_milli: 52,
            primary_color: "&H00FFFFFF",
            secondary_color: "&H003DD9FF",
            active_color: "&H003DD9FF",
            outline_color: "&H00000000",
            back_color: "&H50000000",
            bold: true,
            spacing: 1,
            border_style: 1,
            outline: 4,
            shadow: 1,
            alignment: 2,
            margin_vertical_milli: 180,
            uppercase: false,
            lowercase: false,
            reveal: CaptionRevealMode::Page,
            paging: CaptionPagingRules {
                max_words: 4,
                max_lines: 2,
                max_chars_per_line: 20,
                preferred_min_page_us: 350_000,
                break_on_punctuation: true,
            },
        },
        CaptionPresetId::BoldPop => AssCaptionPreset {
            id,
            ass_name: "CaptionBoldPop",
            font_name: "Inter",
            relative_size_milli: 64,
            primary_color: "&H00FFFFFF",
            secondary_color: "&H003DD9FF",
            active_color: "&H003DD9FF",
            outline_color: "&H00000000",
            back_color: "&H60000000",
            bold: true,
            spacing: 1,
            border_style: 1,
            outline: 5,
            shadow: 2,
            alignment: 2,
            margin_vertical_milli: 220,
            uppercase: true,
            lowercase: false,
            reveal: CaptionRevealMode::ActiveWord,
            paging: CaptionPagingRules {
                max_words: 3,
                max_lines: 2,
                max_chars_per_line: 16,
                preferred_min_page_us: 300_000,
                break_on_punctuation: true,
            },
        },
        CaptionPresetId::Highlight => AssCaptionPreset {
            id,
            ass_name: "CaptionHighlight",
            font_name: "Inter",
            relative_size_milli: 48,
            primary_color: "&H00FFFFFF",
            secondary_color: "&H00F2764F",
            active_color: "&H00F2764F",
            outline_color: "&H70000000",
            back_color: "&H58000000",
            bold: true,
            spacing: 0,
            border_style: 1,
            outline: 3,
            shadow: 1,
            alignment: 2,
            margin_vertical_milli: 130,
            uppercase: false,
            lowercase: false,
            reveal: CaptionRevealMode::ActiveWord,
            paging: CaptionPagingRules {
                max_words: 5,
                max_lines: 2,
                max_chars_per_line: 24,
                preferred_min_page_us: 400_000,
                break_on_punctuation: true,
            },
        },
        CaptionPresetId::Karaoke => AssCaptionPreset {
            id,
            ass_name: "CaptionKaraoke",
            font_name: "Inter",
            relative_size_milli: 47,
            primary_color: "&H008C8C8C",
            secondary_color: "&H008C8C8C",
            active_color: "&H00FFFFFF",
            outline_color: "&H78000000",
            back_color: "&H48000000",
            bold: true,
            spacing: 0,
            border_style: 1,
            outline: 3,
            shadow: 0,
            alignment: 2,
            margin_vertical_milli: 110,
            uppercase: false,
            lowercase: false,
            reveal: CaptionRevealMode::Karaoke,
            paging: CaptionPagingRules {
                max_words: 6,
                max_lines: 2,
                max_chars_per_line: 28,
                preferred_min_page_us: 450_000,
                break_on_punctuation: true,
            },
        },
        CaptionPresetId::Typewriter => AssCaptionPreset {
            id,
            ass_name: "CaptionTypewriter",
            font_name: "DejaVu Sans Mono",
            relative_size_milli: 38,
            primary_color: "&H006EE7A4",
            secondary_color: "&H006EE7A4",
            active_color: "&H006EE7A4",
            outline_color: "&H50000000",
            back_color: "&H70110D0A",
            bold: false,
            spacing: 1,
            border_style: 3,
            outline: 1,
            shadow: 0,
            alignment: 2,
            margin_vertical_milli: 120,
            uppercase: false,
            lowercase: true,
            reveal: CaptionRevealMode::Typewriter,
            paging: CaptionPagingRules {
                max_words: 7,
                max_lines: 2,
                max_chars_per_line: 30,
                preferred_min_page_us: 400_000,
                break_on_punctuation: true,
            },
        },
        CaptionPresetId::Podcast => AssCaptionPreset {
            id,
            ass_name: "CaptionPodcast",
            font_name: "Inter",
            relative_size_milli: 39,
            primary_color: "&H00F3EFE8",
            secondary_color: "&H00F3EFE8",
            active_color: "&H00F3EFE8",
            outline_color: "&H50000000",
            back_color: "&H701A1510",
            bold: true,
            spacing: 0,
            border_style: 3,
            outline: 1,
            shadow: 0,
            alignment: 2,
            margin_vertical_milli: 90,
            uppercase: false,
            lowercase: false,
            reveal: CaptionRevealMode::Page,
            paging: CaptionPagingRules {
                max_words: 10,
                max_lines: 2,
                max_chars_per_line: 34,
                preferred_min_page_us: 650_000,
                break_on_punctuation: true,
            },
        },
    }
}

// ---------------------------------------------------------------------------------------------
// Colours
// ---------------------------------------------------------------------------------------------
/// The value of a hexadecimal digit of either case.
pub open spec fn hex_digit_value(c: char) -> Option<int> {
    if '0' <= c <= '9' {
        Some(c as int - '0' as int)
    } else if 'a' <= c <= 'f' {
        Some(c as int - 'a' as int + 10)
    } else if 'A' <= c <= 'F' {
        Some(c as int - 'A' as int + 10)
    } else {
        None
    }
}

/// The number that the first hexadecimal digits of a text write.
pub open spec fn hex_number(text: Seq<char>, count: int) -> int
    decreases count,
{
    if count <= 0 {
        0
    } else {
        16 * hex_number(text, count - 1) + hex_digit_value(text[count - 1])->0
    }
}

pub open spec fn all_hex(text: Seq<char>) -> bool {
    forall|i: int| 0 <= i < text.len() ==> hex_digit_value(#[trigger] text[i]) is Some
}

/// The thirty-two bit number that a text writes in hexadecimal, with or without a plus sign.
pub open spec fn hex_u32(text: Seq<char>) -> Option<int> {
    let digits = if text.len() > 1 && text[0] == '+' {
        text.drop_first()
    } else {
        text
    };
    if digits.len() > 0 && all_hex(digits) && hex_number(digits, digits.len() as int) <= u32::MAX {
        Some(hex_number(digits, digits.len() as int))
    } else {
        None
    }
}

/// A text without the `&H` marks it starts with.
pub open spec fn without_lead(text: Seq<char>) -> Seq<char>
    decreases text.len(),
{
    if text.len() >= 2 && text[0] == '&' && text[1] == 'H' {
        without_lead(text.skip(2))
    } else {
        text
    }
}

/// A text without the ampersands it ends with.
pub open spec fn without_tail(text: Seq<char>) -> Seq<char>
    decreases text.len(),
{
    if text.len() > 0 && text.last() == '&' {
        without_tail(text.drop_last())
    } else {
        text
    }
}

/// Thousandths of the opacity that a byte of transparency leaves.
pub open spec fn opacity_milli(alpha: int) -> int {
    (2_000 * (255 - alpha) + 255) / 510
}

pub open spec fn css_of(raw: int) -> Seq<char> {
    let alpha = raw / 0x100_0000;
    let blue = (raw / 0x1_0000) % 0x100;
    let green = (raw / 0x100) % 0x100;
    let red = raw % 0x100;
    "rgba("@ + decimal(red as nat) + ", "@ + decimal(green as nat) + ", "@ + decimal(blue as nat) + ", "@ + decimal(
        (opacity_milli(alpha) / 1_000) as nat,
    ) + "."@ + padded((opacity_milli(alpha) % 1_000) as nat, 3) + ")"@
}

/// The colour that a subtitle literal names.
pub open spec fn color_of(value: Seq<char>) -> Option<Seq<char>> {
    match hex_u32(without_tail(without_lead(value))) {
        Some(raw) => Some(css_of(raw)),
        None => None,
    }
}

fn hex_value(c: char) -> (result: Option<u32>)
    ensures
        match result {
            Some(value) => hex_digit_value(c) == Some(value as int) && value < 16,
            None => hex_digit_value(c) is None,
        },
{
    if c >= '0' && c <= '9' {
        Some(c as u32 - 48)
    } else if c >= 'a' && c <= 'f' {
        Some(c as u32 - 97 + 10)
    } else if c >= 'A' && c <= 'F' {
        Some(c as u32 - 65 + 10)
    } else {
        None
    }
}

proof fn lemma_hex_grows(text: Seq<char>, from: int, to: int)
    requires
        0 <= from <= to <= text.len(),
        all_hex(text),
    ensures
        0 <= hex_number(text, from) <= hex_number(text, to),
    decreases to,
{
    if to > 0 {
        assert(hex_digit_value(text[to - 1]) is Some);
        if from < to {
            lemma_hex_grows(text, from, to - 1);
        } else {
            lemma_hex_grows(text, from - 1, to - 1);
        }
    }
}

fn parse_hex(chars: &Vec<char>, from: usize, to: usize) -> (result: Option<u32>)
    requires
        from <= to <= chars.len(),
    ensures
        match result {
            Some(value) => hex_u32(chars@.subrange(from as int, to as int)) == Some(value as int),
            None => hex_u32(chars@.subrange(from as int, to as int)) is None,
        },
{
    let ghost text = chars@.subrange(from as int, to as int);
    let start: usize = if to - from > 1 && chars[from] == '+' {
        from + 1
    } else {
        from
    };
    let ghost digits = chars@.subrange(start as int, to as int);
    proof {
        if start > from {
            assert(digits =~= text.drop_first());
        } else {
            assert(digits =~= text);
        }
    }
    if start == to {
        return None;
    }
    let mut value: u64 = 0;
    let mut index: usize = start;
    while index < to
        invariant
            from <= start <= index <= to <= chars.len(),
            text == chars@.subrange(from as int, to as int),
            digits == chars@.subrange(start as int, to as int),
            hex_u32(text) == (if digits.len() > 0 && all_hex(digits) && hex_number(digits, digits.len() as int)
                <= u32::MAX {
                Some(hex_number(digits, digits.len() as int))
            } else {
                None
            }),
            value == hex_number(digits, index - start),
            value <= u32::MAX,
            forall|i: int| 0 <= i < index - start ==> hex_digit_value(#[trigger] digits[i]) is Some,
        decreases to - index,
    {
        assert(digits[index - start] == chars[index as int]);
        match hex_value(chars[index]) {
            Some(digit) => {
                value = 16 * value + digit as u64;
                if value > u32::MAX as u64 {
                    proof {
                        if all_hex(digits) {
                            lemma_hex_grows(digits, index + 1 - start, digits.len() as int);
                        }
                    }
                    return None;
                }
            },
            None => {
                assert(!all_hex(digits));
                return None;
            },
        }
        index += 1;
    }
    Some(value as u32)
}

fn write_css(raw: u32) -> (text: String)
    ensures
        text@ == css_of(raw as int),
{
    let alpha: u64 = raw as u64 / 0x100_0000;
    let opacity: u64 = (2_000 * (255 - alpha) + 255) / 510;
    let red: String = decimal_text(raw as u64 % 0x100);
    let green: String = decimal_text((raw as u64 / 0x100) % 0x100);
    let blue: String = decimal_text((raw as u64 / 0x1_0000) % 0x100);
    let whole: String = decimal_text(opacity / 1_000);
    let rest: String = padded_text(opacity % 1_000, 3);
    let mut text: String = String::from_str("rgba(");
    text.append(red.as_str());
    text.append(", ");
    text.append(green.as_str());
    text.append(", ");
    text.append(blue.as_str());
    text.append(", ");
    text.append(whole.as_str());
    text.append(".");
    text.append(rest.as_str());
    text.append(")");
    text
}

/// Where the digits of a colour start.
fn skip_lead(chars: &Vec<char>) -> (from: usize)
    ensures
        from <= chars.len(),
        without_lead(chars@) == chars@.subrange(from as int, chars@.len() as int),
{
    let mut from: usize = 0;
    assert(chars@.subrange(0, chars@.len() as int) =~= chars@);
    while chars.len() - from > 1 && chars[from] == '&' && chars[from + 1] == 'H'
        invariant
            from <= chars.len(),
            without_lead(chars@) == without_lead(chars@.subrange(from as int, chars@.len() as int)),
        decreases chars.len() - from,
    {
        assert(chars@.subrange(from as int, chars@.len() as int).skip(2) =~= chars@.subrange(
            from + 2,
            chars@.len() as int,
        ));
        from = from + 2;
    }
    from
}

/// Where the digits of a colour end.
fn skip_tail(chars: &Vec<char>, from: usize) -> (to: usize)
    requires
        from <= chars.len(),
    ensures
        from <= to <= chars.len(),
        without_tail(chars@.subrange(from as int, chars@.len() as int)) == chars@.subrange(from as int, to as int),
{
    let mut to: usize = chars.len();
    while to > from && chars[to - 1] == '&'
        invariant
            from <= to <= chars.len(),
            without_tail(chars@.subrange(from as int, chars@.len() as int)) == without_tail(
                chars@.subrange(from as int, to as int),
            ),
        decreases to,
    {
        assert(chars@.subrange(from as int, to as int).drop_last() =~= chars@.subrange(from as int, to - 1));
        to = to - 1;
    }
    to
}

/// Converts a subtitle colour, `&HAABBGGRR`, to a CSS colour. Subtitles store the channels reversed
/// and treat alpha as transparency, so `00` is fully opaque.
pub fn ass_color_to_css(value: &str) -> (result: Option<String>)
    ensures
        result.deep_view() == color_of(value@),
{
    let chars: Vec<char> = chars_of(value);
    let from: usize = skip_lead(&chars);
    let to: usize = skip_tail(&chars, from);
    match parse_hex(&chars, from, to) {
        Some(raw) => Some(write_css(raw)),
        None => None,
    }
}

// ---------------------------------------------------------------------------------------------
// Presets for a web view
// ---------------------------------------------------------------------------------------------
/// A caption look as a web view renders it. Letter spacing and outline count fiftieths of an em.
#[derive(Clone, Debug, PartialEq, Eq)]
pub struct CaptionPresetPresentation {
    pub id: String,
    pub label: String,
    pub font_family: String,
    pub relative_size_milli: u16,
    pub text_color: Option<String>,
    pub active_color: Option<String>,
    pub outline_color: Option<String>,
    pub background_color: Option<String>,
    pub bold: bool,
    pub spacing: i8,
    pub outline: u8,
    pub casing: String,
    pub reveal: String,
    pub max_words_per_page: usize,
    pub max_lines: usize,
}

/// What a [`CaptionPresetPresentation`] holds, as mathematical values.
pub struct CaptionPresetPresentationModel {
    pub id: Seq<char>,
    pub label: Seq<char>,
    pub font_family: Seq<char>,
    pub relative_size_milli: u16,
    pub text_color: Option<Seq<char>>,
    pub active_color: Option<Seq<char>>,
    pub outline_color: Option<Seq<char>>,
    pub background_color: Option<Seq<char>>,
    pub bold: bool,
    pub spacing: i8,
    pub outline: u8,
    pub casing: Seq<char>,
    pub reveal: Seq<char>,
    pub max_words_per_page: usize,
    pub max_lines: usize,
}

impl DeepView for CaptionPresetPresentation {
    type V = CaptionPresetPresentationModel;

    open spec fn deep_view(&self) -> CaptionPresetPresentationModel {
        CaptionPresetPresentationModel {
            id: self.id@,
            label: self.label@,
            font_family: self.font_family@,
            relative_size_milli: self.relative_size_milli,
            text_color: self.text_color.deep_view(),
            active_color: self.active_color.deep_view(),
            outline_color: self.outline_color.deep_view(),
            background_color: self.background_color.deep_view(),
            bold: self.bold,
            spacing: self.spacing,
            outline: self.outline,
            casing: self.casing@,
            reveal: self.reveal@,
            max_words_per_page: self.max_words_per_page,
            max_lines: self.max_lines,
        }
    }
}

pub open spec fn label_of(id: CaptionPresetId) -> Seq<char> {
    match id {
        CaptionPresetId::CleanWhite => "Clean"@,
        CaptionPresetId::Calm => "Calm"@,
        CaptionPresetId::Kinetic => "Kinetic"@,
        CaptionPresetId::BoldPop => "Bold pop"@,
        CaptionPresetId::Highlight => "Highlight"@,
        CaptionPresetId::Karaoke => "Karaoke"@,
        CaptionPresetId::Typewriter => "Typewriter"@,
        CaptionPresetId::Podcast => "Podcast"@,
    }
}

fn caption_preset_label(id: CaptionPresetId) -> (label: &'static str)
    ensures
        label@ == label_of(id),
{
    match id {
        CaptionPresetId::CleanWhite => "Clean",
        CaptionPresetId::Calm => "Calm",
        CaptionPresetId::Kinetic => "Kinetic",
        CaptionPresetId::BoldPop => "Bold pop",
        CaptionPresetId::Highlight => "Highlight",
        CaptionPresetId::Karaoke => "Karaoke",
        CaptionPresetId::Typewriter => "Typewriter",
        CaptionPresetId::Podcast => "Podcast",
    }
}

/// The stack of web fonts that resolves to the shape of the one font the renderer names.
pub open spec fn font_stack_of(font_name: Seq<char>) -> Seq<char> {
    if font_name == "DejaVu Sans Mono"@ {
        "\"JetBrains Mono Variable\", \"DejaVu Sans Mono\", monospace"@
    } else {
        "\"Inter Variable\", Inter, system-ui, sans-serif"@
    }
}

fn web_font_stack(font_name: &str) -> (stack: &'static str)
    ensures
        stack@ == font_stack_of(font_name@),
{
    if text_eq(font_name, "DejaVu Sans Mono") {
        "\"JetBrains Mono Variable\", \"DejaVu Sans Mono\", monospace"
    } else {
        "\"Inter Variable\", Inter, system-ui, sans-serif"
    }
}

pub open spec fn casing_of(preset: AssCaptionPreset) -> Seq<char> {
    if preset.uppercase {
        "upper"@
    } else if preset.lowercase {
        "lower"@
    } else {
        "as-is"@
    }
}

pub open spec fn reveal_of(reveal: CaptionRevealMode) -> Seq<char> {
    match reveal {
        CaptionRevealMode::Page => "page"@,
        CaptionRevealMode::ActiveWord => "active-word"@,
        CaptionRevealMode::Karaoke => "karaoke"@,
        CaptionRevealMode::Typewriter => "typewriter"@,
    }
}

/// A caption look as a web view renders it. The renderer paints the back colour only in opaque-box
/// mode; anything else has no box.
pub open spec fn presented(id: CaptionPresetId) -> CaptionPresetPresentationModel {
    let preset = preset_of(id);
    CaptionPresetPresentationModel {
        id: id.public_text(),
        label: label_of(id),
        font_family: font_stack_of(preset.font_name@),
        relative_size_milli: preset.relative_size_milli,
        text_color: color_of(preset.primary_color@),
        active_color: color_of(preset.active_color@),
        outline_color: color_of(preset.outline_color@),
        background_color: if preset.border_style == 3 {
            color_of(preset.back_color@)
        } else {
            None
        },
        bold: preset.bold,
        spacing: preset.spacing,
        outline: preset.outline,
        casing: casing_of(preset),
        reveal: reveal_of(preset.reveal),
        max_words_per_page: preset.paging.max_words,
        max_lines: preset.paging.max_lines,
    }
}

fn present(id: CaptionPresetId) -> (view: CaptionPresetPresentation)
    ensures
        view.deep_view() == presented(id),
{
    let preset: AssCaptionPreset = caption_preset(id);
    let casing: &str = if preset.uppercase {
        "upper"
    } else if preset.lowercase {
        "lower"
    } else {
        "as-is"
    };
    let reveal: &str = match preset.reveal {
        CaptionRevealMode::Page => "page",
        CaptionRevealMode::ActiveWord => "active-word",
        CaptionRevealMode::Karaoke => "karaoke",
        CaptionRevealMode::Typewriter => "typewriter",
    };
    let background_color: Option<String> = if preset.border_style == 3 {
        ass_color_to_css(preset.back_color)
    } else {
        None
    };
    CaptionPresetPresentation {
        id: String::from_str(id.public_id()),
        label: String::from_str(caption_preset_label(id)),
        font_family: String::from_str(web_font_stack(preset.font_name)),
        relative_size_milli: preset.relative_size_milli,
        text_color: ass_color_to_css(preset.primary_color),
        active_color: ass_color_to_css(preset.active_color),
        outline_color: ass_color_to_css(preset.outline_color),
        background_color,
        bold: preset.bold,
        spacing: preset.spacing,
        outline: preset.outline,
        casing: String::from_str(casing),
        reveal: String::from_str(reveal),
        max_words_per_page: preset.paging.max_words,
        max_lines: preset.paging.max_lines,
    }
}

/// Projects every caption preset into a web-renderable one, so that a preview shows what the renderer
/// burns in.
pub fn present_caption_presets() -> (views: Vec<CaptionPresetPresentation>)
    ensures
        views.deep_view() == Seq::new(
            CaptionPresetId::in_order().len(),
            |i: int| presented(CaptionPresetId::in_order()[i]),
        ),
{
    let ids: Vec<CaptionPresetId> = CaptionPresetId::all();
    let mut views: Vec<CaptionPresetPresentation> = Vec::new();
    let mut index: usize = 0;
    while index < ids.len()
        invariant
            index <= ids.len(),
            ids@ == CaptionPresetId::in_order(),
            views.len() == index,
            forall|i: int|
                0 <= i < index ==> (#[trigger] views[i]).deep_view() == presented(CaptionPresetId::in_order()[i]),
        decreases ids.len() - index,
    {
        views.push(present(ids[index]));
        index += 1;
    }
    assert(views.deep_view() =~= Seq::new(
        CaptionPresetId::in_order().len(),
        |i: int| presented(CaptionPresetId::in_order()[i]),
    ));
    views
}

} // verus!
