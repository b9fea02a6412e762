//! Text: what the rules say of strings, and the few things asked of std.

use vstd::prelude::*;
use vstd::utf8::encode_utf8;

verus! {

// ---------------------------------------------------------------------------------------------
// What std says of characters and strings
// ---------------------------------------------------------------------------------------------
/// The characters with Unicode's `White_Space` property.
pub open spec fn is_space(c: char) -> bool {
    ||| '\u{9}' <= c <= '\u{d}'
    ||| c == ' '
    ||| c == '\u{85}'
    ||| c == '\u{a0}'
    ||| c == '\u{1680}'
    ||| '\u{2000}' <= c <= '\u{200a}'
    ||| c == '\u{2028}'
    ||| c == '\u{2029}'
    ||| c == '\u{202f}'
    ||| c == '\u{205f}'
    ||| c == '\u{3000}'
}

/// `char::is_whitespace`: whether the character has the `White_Space` property.
pub assume_specification[ char::is_whitespace ](c: char) -> (result: bool)
    ensures
        result == is_space(c),
;

/// Whether a character is a letter or a number to Unicode.
pub uninterp spec fn is_letter_or_number(c: char) -> bool;

/// `char::is_alphanumeric`: whether the character has one of Unicode's alphabetic or numeric
/// properties. For ASCII these are the letters and the digits.
pub assume_specification[ char::is_alphanumeric ](c: char) -> (result: bool)
    ensures
        result == is_letter_or_number(c),
        c <= '\u{7f}' ==> result == is_ascii_letter_or_digit(c),
;

/// Whether a character is a letter to Unicode.
pub uninterp spec fn is_letter(c: char) -> bool;

/// `char::is_alphabetic`: whether the character has Unicode's `Alphabetic` property.
pub assume_specification[ char::is_alphabetic ](c: char) -> (result: bool)
    ensures
        result == is_letter(c),
;

/// Whether a character is a lowercase letter to Unicode.
pub uninterp spec fn is_lowercase_letter(c: char) -> bool;

/// `char::is_lowercase`: whether the character has Unicode's `Lowercase` property.
pub assume_specification[ char::is_lowercase ](c: char) -> (result: bool)
    ensures
        result == is_lowercase_letter(c),
;

/// A text in lowercase, by Unicode's rules.
pub uninterp spec fn lowercase(text: Seq<char>) -> Seq<char>;

/// `str::to_lowercase`: the lowercase equivalent of the text, a function of the text alone.
pub assume_specification[ str::to_lowercase ](text: &str) -> (result: String)
    ensures
        result@ == lowercase(text@),
;

/// A text in uppercase, by Unicode's rules.
pub uninterp spec fn uppercase(text: Seq<char>) -> Seq<char>;

/// `str::to_uppercase`: the uppercase equivalent of the text, a function of the text alone.
pub assume_specification[ str::to_uppercase ](text: &str) -> (result: String)
    ensures
        result@ == uppercase(text@),
;

/// One character in lowercase, by Unicode's rules. It may be more than one character.
pub uninterp spec fn char_lowercase(c: char) -> Seq<char>;

/// `char::to_lowercase`: the lowercase mapping of the character, a function of it alone.
#[verifier::external_body]
pub(crate) fn lowercase_of_char(c: char) -> (result: String)
    ensures
        result@ == char_lowercase(c),
{
    c.to_lowercase().to_string()
}

pub open spec fn ascii_lower(c: char) -> char {
    if 'A' <= c <= 'Z' {
        (c as u32 + 32) as char
    } else {
        c
    }
}

/// A text with its ASCII capitals in lowercase and everything else as it is.
pub open spec fn ascii_lowercase(text: Seq<char>) -> Seq<char> {
    Seq::new(text.len(), |i: int| ascii_lower(text[i]))
}

/// `str::to_ascii_lowercase`: ASCII letters `A` to `Z` become `a` to `z`, other characters stay.
pub assume_specification[ str::to_ascii_lowercase ](text: &str) -> (result: String)
    ensures
        result@ == ascii_lowercase(text@),
;

/// A text without the whitespace it starts with.
pub open spec fn trimmed_start(text: Seq<char>) -> Seq<char>
    decreases text.len(),
{
    if text.len() > 0 && is_space(text[0]) {
        trimmed_start(text.drop_first())
    } else {
        text
    }
}

/// A text without the whitespace it ends with.
pub open spec fn trimmed_end(text: Seq<char>) -> Seq<char>
    decreases text.len(),
{
    if text.len() > 0 && is_space(text.last()) {
        trimmed_end(text.drop_last())
    } else {
        text
    }
}

/// A text without the whitespace around it.
pub open spec fn trimmed(text: Seq<char>) -> Seq<char> {
    trimmed_end(trimmed_start(text))
}

/// `str::trim`: the text with leading and trailing whitespace removed.
pub assume_specification[ str::trim ](text: &str) -> (result: &str)
    ensures
        result@ == trimmed(text@),
;

/// `str::trim_start`: the text with leading whitespace removed.
pub assume_specification[ str::trim_start ](text: &str) -> (result: &str)
    ensures
        result@ == trimmed_start(text@),
;

/// `str::trim_end`: the text with trailing whitespace removed.
pub assume_specification[ str::trim_end ](text: &str) -> (result: &str)
    ensures
        result@ == trimmed_end(text@),
;

/// `String::push`: appends the character to the end of the string.
pub assume_specification[ String::push ](text: &mut String, c: char)
    ensures
        final(text)@ == old(text)@.push(c),
;

/// Whether two texts hold the same characters.
pub fn text_eq(left: &str, right: &str) -> (result: bool)
    ensures
        result == (left@ == right@),
{
    let a: Vec<char> = chars_of(left);
    let b: Vec<char> = chars_of(right);
    if a.len() != b.len() {
        return false;
    }
    let mut index: usize = 0;
    while index < a.len()
        invariant
            a@ == left@,
            b@ == right@,
            a.len() == b.len(),
            index <= a.len(),
            forall|i: int| 0 <= i < index ==> a[i] == b[i],
        decreases a.len() - index,
    {
        if a[index] != b[index] {
            return false;
        }
        index += 1;
    }
    assert(a@ =~= b@);
    true
}

// ---------------------------------------------------------------------------------------------
// Building and taking apart
// ---------------------------------------------------------------------------------------------
/// Two texts one after the other.
pub fn text_concat(left: &str, right: &str) -> (joined: String)
    ensures
        joined@ == left@ + right@,
{
    let mut joined: String = left.to_owned();
    joined.append(right);
    joined
}

/// Three texts one after the other.
pub fn text_concat3(first: &str, second: &str, third: &str) -> (joined: String)
    ensures
        joined@ == first@ + second@ + third@,
{
    let mut joined: String = first.to_owned();
    joined.append(second);
    joined.append(third);
    joined
}

/// The characters of a text.
pub fn chars_of(text: &str) -> (chars: Vec<char>)
    ensures
        chars@ == text@,
{
    let mut chars: Vec<char> = Vec::new();
    for c in it: text.chars()
        invariant
            chars@ == it.seq().take(it.index()),
            it.seq() == text@,
    {
        chars.push(c);
    }
    chars
}

/// The text made of the characters from `from` up to `to`.
pub fn text_of(chars: &Vec<char>, from: usize, to: usize) -> (text: String)
    requires
        from <= to <= chars.len(),
    ensures
        text@ == chars@.subrange(from as int, to as int),
{
    let mut text: String = String::new();
    let mut index: usize = from;
    while index < to
        invariant
            from <= index <= to <= chars.len(),
            text@ == chars@.subrange(from as int, index as int),
        decreases to - index,
    {
        text.push(chars[index]);
        index += 1;
        assert(text@ =~= chars@.subrange(from as int, index as int));
    }
    text
}

/// How many bytes a text takes as UTF-8.
pub open spec fn byte_len(text: Seq<char>) -> nat {
    encode_utf8(text).len()
}

/// A text takes at least one byte for each of its characters.
pub proof fn lemma_chars_within_bytes(text: Seq<char>)
    ensures
        text.len() <= byte_len(text),
    decreases text.len(),
{
    if text.len() > 0 {
        lemma_chars_within_bytes(text.drop_first());
    }
}

/// The first place from `from` on that holds a character.
pub open spec fn char_place(text: Seq<char>, wanted: char, from: int) -> Option<int>
    decreases text.len() - from,
{
    if from < 0 || from >= text.len() {
        None
    } else if text[from] == wanted {
        Some(from)
    } else {
        char_place(text, wanted, from + 1)
    }
}

/// The first place from `from` on that holds a character.
pub fn find_char(text: &Vec<char>, wanted: char, from: usize) -> (result: Option<usize>)
    requires
        from <= text.len(),
    ensures
        match result {
            Some(place) => from <= place < text.len() && text[place as int] == wanted && char_place(
                text@,
                wanted,
                from as int,
            ) == Some(place as int),
            None => char_place(text@, wanted, from as int) is None,
        },
{
    let mut index: usize = from;
    while index < text.len()
        invariant
            from <= index <= text.len(),
            char_place(text@, wanted, from as int) == char_place(text@, wanted, index as int),
        decreases text.len() - index,
    {
        if text[index] == wanted {
            return Some(index);
        }
        index += 1;
    }
    None
}

/// How many bytes a text takes as UTF-8.
pub fn bytes_in(text: &str) -> (length: usize)
    ensures
        length == byte_len(text@),
{
    text.as_bytes().len()
}

/// How many characters a text has.
pub fn chars_in(text: &str) -> (length: usize)
    ensures
        length == text@.len(),
{
    text.unicode_len()
}

pub fn has_prefix(text: &str, prefix: &str) -> (result: bool)
    ensures
        result == prefix@.is_prefix_of(text@),
{
    let whole: Vec<char> = chars_of(text);
    let wanted: Vec<char> = chars_of(prefix);
    if wanted.len() > whole.len() {
        return false;
    }
    let mut index: usize = 0;
    while index < wanted.len()
        invariant
            whole@ == text@,
            wanted@ == prefix@,
            index <= wanted.len() <= whole.len(),
            forall|i: int| 0 <= i < index ==> wanted[i] == whole[i],
        decreases wanted.len() - index,
    {
        if wanted[index] != whole[index] {
            assert(whole@.subrange(0, wanted@.len() as int)[index as int] != wanted@[index as int]);
            return false;
        }
        index += 1;
    }
    assert(whole@.subrange(0, wanted@.len() as int) =~= wanted@);
    true
}

/// Whether a text holds a character.
pub fn has_char(text: &str, wanted: char) -> (result: bool)
    ensures
        result == text@.contains(wanted),
{
    for c in it: text.chars()
        invariant
            it.seq() == text@,
            forall|i: int| 0 <= i < it.index() ==> text@[i] != wanted,
    {
        if c == wanted {
            assert(text@[it.index()] == wanted);
            return true;
        }
    }
    false
}

// ---------------------------------------------------------------------------------------------
// Classes of characters
// ---------------------------------------------------------------------------------------------
pub open spec fn is_ascii_digit(c: char) -> bool {
    '0' <= c <= '9'
}

pub open spec fn is_ascii_letter_or_digit(c: char) -> bool {
    is_ascii_digit(c) || 'a' <= c <= 'z' || 'A' <= c <= 'Z'
}

/// A lowercase hexadecimal digit.
pub open spec fn is_hex_digit(c: char) -> bool {
    is_ascii_digit(c) || 'a' <= c <= 'f'
}

pub fn ascii_letter_or_digit(c: char) -> (result: bool)
    ensures
        result == is_ascii_letter_or_digit(c),
{
    (c >= '0' && c <= '9') || (c >= 'a' && c <= 'z') || (c >= 'A' && c <= 'Z')
}

/// Whether a text has only whitespace.
pub open spec fn blank(text: Seq<char>) -> bool {
    trimmed(text).len() == 0
}

pub fn is_blank(text: &str) -> (result: bool)
    ensures
        result == blank(text@),
{
    text.trim().is_empty()
}

/// Whether the characters from `from` up to `to` are one of the parts between separators.
pub open spec fn is_part(text: Seq<char>, separator: char, from: int, to: int) -> bool {
    &&& 0 <= from <= to <= text.len()
    &&& from == 0 || text[from - 1] == separator
    &&& to == text.len() || text[to] == separator
    &&& forall|i: int| from <= i < to ==> text[i] != separator
}

// ---------------------------------------------------------------------------------------------
// Numbers as text
// ---------------------------------------------------------------------------------------------
pub open spec fn digit_char(digit: nat) -> char {
    if digit == 0 {
        '0'
    } else if digit == 1 {
        '1'
    } else if digit == 2 {
        '2'
    } else if digit == 3 {
        '3'
    } else if digit == 4 {
        '4'
    } else if digit == 5 {
        '5'
    } else if digit == 6 {
        '6'
    } else if digit == 7 {
        '7'
    } else if digit == 8 {
        '8'
    } else {
        '9'
    }
}

/// A number in decimal, without leading zeros.
pub open spec fn decimal(value: nat) -> Seq<char>
    decreases value,
{
    if value < 10 {
        seq![digit_char(value)]
    } else {
        decimal(value / 10).push(digit_char(value % 10))
    }
}

/// An integer in decimal, with a minus sign where it is negative.
pub open spec fn signed_decimal(value: int) -> Seq<char> {
    if value < 0 {
        "-"@ + decimal((-value) as nat)
    } else {
        decimal(value as nat)
    }
}

/// A run of zeros.
pub open spec fn zeros(count: int) -> Seq<char> {
    Seq::new(
        if count < 0 {
            0
        } else {
            count as nat
        },
        |i: int| '0',
    )
}

/// A number in decimal with zeros before it up to a width.
pub open spec fn padded(value: nat, width: nat) -> Seq<char> {
    zeros(width - decimal(value).len()) + decimal(value)
}

fn digit_to_char(digit: u64) -> (c: char)
    requires
        digit < 10,
    ensures
        c == digit_char(digit as nat),
{
    if digit == 0 {
        '0'
    } else if digit == 1 {
        '1'
    } else if digit == 2 {
        '2'
    } else if digit == 3 {
        '3'
    } else if digit == 4 {
        '4'
    } else if digit == 5 {
        '5'
    } else if digit == 6 {
        '6'
    } else if digit == 7 {
        '7'
    } else if digit == 8 {
        '8'
    } else {
        '9'
    }
}

/// Appends a number in decimal.
pub fn push_decimal(text: &mut String, value: u64)
    ensures
        final(text)@ == old(text)@ + decimal(value as nat),
    decreases value,
{
    if value < 10 {
        text.push(digit_to_char(value));
        assert(text@ =~= old(text)@ + decimal(value as nat));
    } else {
        push_decimal(text, value / 10);
        text.push(digit_to_char(value % 10));
        assert(text@ =~= old(text)@ + decimal(value as nat));
    }
}

/// A number in decimal.
pub fn decimal_text(value: u64) -> (text: String)
    ensures
        text@ == decimal(value as nat),
{
    let mut text: String = String::new();
    push_decimal(&mut text, value);
    assert(text@ =~= decimal(value as nat));
    text
}

/// An integer in decimal.
pub fn signed_decimal_text(value: i64) -> (text: String)
    ensures
        text@ == signed_decimal(value as int),
{
    if value < 0 {
        let magnitude: u64 = if value == i64::MIN {
            9_223_372_036_854_775_808u64
        } else {
            (-value) as u64
        };
        let mut text: String = "-".to_owned();
        push_decimal(&mut text, magnitude);
        text
    } else {
        decimal_text(value as u64)
    }
}

/// A number in decimal with zeros before it up to a width.
pub fn padded_text(value: u64, width: usize) -> (text: String)
    ensures
        text@ == padded(value as nat, width as nat),
{
    let digits: String = decimal_text(value);
    let length: usize = chars_in(digits.as_str());
    let mut text: String = String::new();
    let mut count: usize = length;
    while count < width
        invariant
            length == decimal(value as nat).len(),
            length <= count,
            count <= width || count == length,
            text@ == zeros(count - length),
        decreases width - count,
    {
        text.push('0');
        count += 1;
        assert(text@ =~= zeros(count - length));
    }
    assert(text@ =~= zeros(width - length));
    text.append(digits.as_str());
    text
}

/// A text is blank where each of its characters is whitespace, and nowhere else.
pub proof fn a_text_is_blank_where_all_is_space(text: Seq<char>)
    ensures
        blank(text) <==> forall|i: int| 0 <= i < text.len() ==> is_space(#[trigger] text[i]),
{
    lemma_trimmed_start(text);
    let rest = trimmed_start(text);
    lemma_trimmed_end(rest);
    let cut = text.len() - rest.len();
    if forall|i: int| 0 <= i < text.len() ==> is_space(#[trigger] text[i]) {
        if rest.len() > 0 {
            assert(rest[0] == text[cut]);
        }
    } else {
        let i = choose|i: int| 0 <= i < text.len() && !is_space(#[trigger] text[i]);
        assert(i >= cut);
        assert(rest[i - cut] == text[i]);
        assert(trimmed_end(rest).len() > i - cut);
    }
}

proof fn lemma_trimmed_start(text: Seq<char>)
    ensures
        trimmed_start(text).len() <= text.len(),
        trimmed_start(text) == text.skip(text.len() - trimmed_start(text).len()),
        trimmed_start(text).len() > 0 ==> !is_space(trimmed_start(text)[0]),
        forall|i: int| 0 <= i < text.len() - trimmed_start(text).len() ==> is_space(#[trigger] text[i]),
    decreases text.len(),
{
    if text.len() > 0 && is_space(text[0]) {
        let rest = text.drop_first();
        lemma_trimmed_start(rest);
        let cut = rest.len() - trimmed_start(rest).len();
        assert(rest.skip(cut) =~= text.skip(cut + 1));
        assert forall|i: int| 0 <= i < cut + 1 implies is_space(#[trigger] text[i]) by {
            if i > 0 {
                assert(rest[i - 1] == text[i]);
            }
        }
    } else {
        assert(text.skip(0) =~= text);
    }
}

proof fn lemma_trimmed_end(text: Seq<char>)
    ensures
        trimmed_end(text).len() <= text.len(),
        trimmed_end(text) == text.take(trimmed_end(text).len() as int),
        trimmed_end(text).len() > 0 ==> !is_space(trimmed_end(text).last()),
        forall|i: int| trimmed_end(text).len() <= i < text.len() ==> is_space(#[trigger] text[i]),
    decreases text.len(),
{
    if text.len() > 0 && is_space(text.last()) {
        let rest = text.drop_last();
        lemma_trimmed_end(rest);
        let len = trimmed_end(rest).len() as int;
        assert(rest.take(len) =~= text.take(len));
        assert forall|i: int| len <= i < text.len() implies is_space(#[trigger] text[i]) by {
            if i < rest.len() {
                assert(rest[i] == text[i]);
            }
        }
    } else {
        assert(text.take(text.len() as int) =~= text);
    }
}

/// The value of a decimal digit.
pub open spec fn digit_value(c: char) -> int {
    c as int - '0' as int
}

/// The number that a text of decimal digits reads as.
pub open spec fn number_in(text: Seq<char>) -> int
    decreases text.len(),
{
    if text.len() == 0 {
        0
    } else {
        10 * number_in(text.drop_last()) + digit_value(text.last())
    }
}

/// A number that is written reads as itself: all its characters are digits, and the first is a zero only where
/// it is the whole number.
pub proof fn a_number_reads_as_itself(value: nat)
    ensures
        number_in(decimal(value)) == value,
        decimal(value).len() > 0,
        forall|i: int| 0 <= i < decimal(value).len() ==> is_ascii_digit(#[trigger] decimal(value)[i]),
        value > 0 ==> decimal(value)[0] != '0',
    decreases value,
{
    if value < 10 {
        let text = decimal(value);
        assert(text.drop_last() =~= Seq::empty());
        assert(number_in(text.drop_last()) == 0);
    } else {
        a_number_reads_as_itself(value / 10);
        let text = decimal(value);
        assert(text.drop_last() =~= decimal(value / 10));
    }
}

/// Numbers below a power of ten have no more digits than it has zeros.
pub proof fn a_small_number_is_short(value: nat, width: nat)
    requires
        width > 0,
        value < power_of_ten(width),
    ensures
        decimal(value).len() <= width,
    decreases width,
{
    if value >= 10 {
        assert(width > 1) by {
            if width == 1 {
                assert(power_of_ten(1) == 10 * power_of_ten(0));
            }
        }
        assert(value / 10 < power_of_ten((width - 1) as nat));
        a_small_number_is_short(value / 10, (width - 1) as nat);
    }
}

pub open spec fn power_of_ten(width: nat) -> nat
    decreases width,
{
    if width == 0 {
        1
    } else {
        10 * power_of_ten((width - 1) as nat)
    }
}

/// A number with zeros in front reads as itself, and is as wide as asked where it fits.
pub proof fn a_padded_number_reads_as_itself(value: nat, width: nat)
    ensures
        number_in(padded(value, width)) == value,
        value < power_of_ten(width) && width > 0 ==> padded(value, width).len() == width,
        forall|i: int| 0 <= i < padded(value, width).len() ==> is_ascii_digit(#[trigger] padded(value, width)[i]),
{
    a_number_reads_as_itself(value);
    if value < power_of_ten(width) && width > 0 {
        a_small_number_is_short(value, width);
    }
    lemma_leading_zeros(width - decimal(value).len(), decimal(value));
}

proof fn lemma_leading_zeros(count: int, text: Seq<char>)
    ensures
        number_in(zeros(count) + text) == number_in(text),
    decreases text.len(),
{
    let whole = zeros(count) + text;
    if text.len() == 0 {
        assert(whole =~= zeros(count));
        lemma_zeros(count);
    } else {
        lemma_leading_zeros(count, text.drop_last());
        assert(whole.drop_last() =~= zeros(count) + text.drop_last());
        assert(whole.last() == text.last());
    }
}

proof fn lemma_zeros(count: int)
    ensures
        number_in(zeros(count)) == 0,
    decreases count,
{
    if count > 0 {
        lemma_zeros(count - 1);
        assert(zeros(count).drop_last() =~= zeros(count - 1));
    }
}

} // verus!
