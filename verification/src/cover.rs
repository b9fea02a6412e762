//! Generated cover art for an episode that has no picture of its own.
//!
//! The card is derived, not invented. The same episode always produces the same card, so a cover is
//! cacheable, reproducible from the manifest alone, and never silently different between two builds
//! of the same episode.

use crate::bytes::{push_byte, push_text};
use crate::digest::{is_sha256_hex, sha256_hex, sha256_hex_text};
use crate::manifest::{CastMember, CastMemberModel};
use crate::text::{
    chars_in, chars_of, decimal, decimal_text, is_hex_digit, is_space, text_concat, text_of, trimmed, trimmed_end,
};
use crate::words::{joined, lemma_joined_prefix};
use vstd::prelude::*;
use vstd::utf8::encode_utf8;

verus! {

/// Longest title drawn on a card. Past this a title stops being readable at a glance, and the
/// filter argument stops being a sane length.
pub const MAX_COVER_TITLE_CHARS: usize = 96;

/// Longest cast line. A large cast is summarised rather than run off the card.
pub const MAX_COVER_SUBTITLE_CHARS: usize = 72;

/// Cast members named individually before the line becomes a count.
pub const MAX_NAMED_CAST: usize = 4;

/// One card's colours. Chosen from a fixed set rather than computed, so every generated cover is a
/// deliberate combination that has been looked at rather than whatever a hash happened to produce.
#[derive(Clone, Copy, Debug, PartialEq, Eq)]
pub struct CoverPalette {
    pub background: &'static str,
    pub foreground: &'static str,
    pub muted: &'static str,
    pub accent: &'static str,
}

/// What a [`CoverPalette`] holds, as mathematical values.
pub struct CoverPaletteModel {
    pub background: Seq<char>,
    pub foreground: Seq<char>,
    pub muted: Seq<char>,
    pub accent: Seq<char>,
}

impl DeepView for CoverPalette {
    type V = CoverPaletteModel;

    open spec fn deep_view(&self) -> CoverPaletteModel {
        CoverPaletteModel {
            background: self.background@,
            foreground: self.foreground@,
            muted: self.muted@,
            accent: self.accent@,
        }
    }
}

/// How many palettes there are.
pub const COVER_PALETTE_COUNT: usize = 6;

/// The palettes a generated cover may use. Each pairs a dark ground with text that clears a wide
/// contrast margin against it, because the card is read before it is admired.
pub open spec fn palette_at(index: int) -> CoverPaletteModel {
    if index == 0 {
        CoverPaletteModel {
            background: "0x1F2933"@,
            foreground: "0xF5F5F4"@,
            muted: "0x9AA5B1"@,
            accent: "0xE8B44A"@,
        }
    } else if index == 1 {
        CoverPaletteModel {
            background: "0x1B2A24"@,
            foreground: "0xF2F5F3"@,
            muted: "0x93A79C"@,
            accent: "0x6FCF97"@,
        }
    } else if index == 2 {
        CoverPaletteModel {
            background: "0x2A1F2D"@,
            foreground: "0xF6F2F7"@,
            muted: "0xAB9CB0"@,
            accent: "0xC084FC"@,
        }
    } else if index == 3 {
        CoverPaletteModel {
            background: "0x2B2118"@,
            foreground: "0xF7F3EE"@,
            muted: "0xB3A192"@,
            accent: "0xF59E6B"@,
        }
    } else if index == 4 {
        CoverPaletteModel {
            background: "0x18232E"@,
            foreground: "0xEFF4F8"@,
            muted: "0x92A4B3"@,
            accent: "0x60A5FA"@,
        }
    } else {
        CoverPaletteModel {
            background: "0x261C1C"@,
            foreground: "0xF7F1F1"@,
            muted: "0xB29A9A"@,
            accent: "0xF87171"@,
        }
    }
}

/// The palette of a number below [`COVER_PALETTE_COUNT`].
pub fn palette_numbered(index: usize) -> (palette: CoverPalette)
    requires
        index < COVER_PALETTE_COUNT,
    ensures
        palette.deep_view() == palette_at(index as int),
{
    if index == 0 {
        CoverPalette {
            background: "0x1F2933",
            foreground: "0xF5F5F4",
            muted: "0x9AA5B1",
            accent: "0xE8B44A",
        }
    } else if index == 1 {
        CoverPalette {
            background: "0x1B2A24",
            foreground: "0xF2F5F3",
            muted: "0x93A79C",
            accent: "0x6FCF97",
        }
    } else if index == 2 {
        CoverPalette {
            background: "0x2A1F2D",
            foreground: "0xF6F2F7",
            muted: "0xAB9CB0",
            accent: "0xC084FC",
        }
    } else if index == 3 {
        CoverPalette {
            background: "0x2B2118",
            foreground: "0xF7F3EE",
            muted: "0xB3A192",
            accent: "0xF59E6B",
        }
    } else if index == 4 {
        CoverPalette {
            background: "0x18232E",
            foreground: "0xEFF4F8",
            muted: "0x92A4B3",
            accent: "0x60A5FA",
        }
    } else {
        CoverPalette {
            background: "0x261C1C",
            foreground: "0xF7F1F1",
            muted: "0xB29A9A",
            accent: "0xF87171",
        }
    }
}

/// The value of a lowercase hexadecimal digit.
pub open spec fn hex_value(c: char) -> int {
    if '0' <= c <= '9' {
        c as u32 - '0' as u32
    } else {
        c as u32 - 'a' as u32 + 10
    }
}

fn hex_value_of(c: char) -> (value: usize)
    requires
        is_hex_digit(c),
    ensures
        value == hex_value(c),
        value < 16,
{
    if '0' <= c && c <= '9' {
        (c as u32 - '0' as u32) as usize
    } else {
        (c as u32 - 'a' as u32 + 10) as usize
    }
}

/// The number of an episode's palette: the first byte of a digest decides.
pub open spec fn palette_number(seed: Seq<char>) -> int {
    let digest = sha256_hex(encode_utf8(seed));
    (hex_value(digest[0]) * 16 + hex_value(digest[1])) % COVER_PALETTE_COUNT as int
}

/// Picks the palette for an episode. Seeded by identity rather than by title, so renaming an episode
/// restyles its type without also changing its colour out from under the user.
pub fn cover_palette(seed: &str) -> (palette: CoverPalette)
    ensures
        0 <= palette_number(seed@) < COVER_PALETTE_COUNT,
        palette.deep_view() == palette_at(palette_number(seed@)),
{
    let digest: String = sha256_hex_text(seed.as_bytes());
    let digits: Vec<char> = chars_of(digest.as_str());
    let high: usize = hex_value_of(digits[0]);
    let low: usize = hex_value_of(digits[1]);
    let number: usize = (high * 16 + low) % COVER_PALETTE_COUNT;
    palette_numbered(number)
}

/// Everything needed to draw one cover, and nothing about how it is drawn.
#[derive(Clone, Debug, PartialEq, Eq)]
pub struct CoverSpec {
    pub width: u32,
    pub height: u32,
    pub title: String,
    pub subtitle: String,
    pub palette: CoverPalette,
}

/// What a [`CoverSpec`] holds, as mathematical values.
pub struct CoverSpecModel {
    pub width: u32,
    pub height: u32,
    pub title: Seq<char>,
    pub subtitle: Seq<char>,
    pub palette: CoverPaletteModel,
}

impl DeepView for CoverSpec {
    type V = CoverSpecModel;

    open spec fn deep_view(&self) -> CoverSpecModel {
        CoverSpecModel {
            width: self.width,
            height: self.height,
            title: self.title@,
            subtitle: self.subtitle@,
            palette: self.palette.deep_view(),
        }
    }
}

pub open spec fn at_least(value: int, least: int) -> int {
    if value < least {
        least
    } else {
        value
    }
}

/// How many lines' worth of letters a title has: one for each two dozen characters, begun ones
/// counted. Lengths are counted in thirty-two bits.
pub open spec fn crowding(title: Seq<char>) -> int {
    let letters = at_least(title.len() as int, 1) % 0x1_0000_0000;
    at_least((letters + 23) / 24, 1)
}

impl CoverSpecModel {
    pub open spec fn title_size(self) -> int {
        at_least(at_least(self.width as int / 20, 28) / crowding(self.title), 24)
    }

    pub open spec fn subtitle_size(self) -> int {
        at_least(self.title_size() / 2, 18)
    }

    pub open spec fn rule_height(self) -> int {
        let fraction = self.height as int / 135;
        if fraction > 16 {
            16
        } else {
            at_least(fraction, 4)
        }
    }

    /// The fields that a card's address covers: what is drawn and how.
    pub open spec fn addressed(self) -> Seq<Seq<char>> {
        seq![
            decimal(self.width as nat),
            decimal(self.height as nat),
            self.title,
            self.subtitle,
            self.palette.background,
            self.palette.foreground,
            self.palette.muted,
            self.palette.accent,
            decimal(self.title_size() as nat),
            decimal(self.subtitle_size() as nat),
            decimal(self.rule_height() as nat),
        ]
    }

    pub open spec fn address_bytes(self) -> Seq<u8> {
        encode_utf8("cover-v1"@) + fields_bytes(self.addressed(), 11)
    }
}

/// The first fields, each behind a separator.
pub open spec fn fields_bytes(fields: Seq<Seq<char>>, count: int) -> Seq<u8>
    decreases count,
{
    if count <= 0 {
        Seq::empty()
    } else {
        fields_bytes(fields, count - 1) + (seq![0x1fu8] + encode_utf8(fields[count - 1]))
    }
}

fn push_field(bytes: &mut Vec<u8>, field: &str)
    ensures
        final(bytes)@ == old(bytes)@ + (seq![0x1fu8] + encode_utf8(field@)),
{
    let ghost before = bytes@;
    push_byte(bytes, 0x1f);
    push_text(bytes, field);
    assert(bytes@ =~= before + (seq![0x1fu8] + encode_utf8(field@)));
}

impl CoverSpec {
    /// Title size that keeps a long name on the card. Derived from the canvas so the same card
    /// reads the same way at every resolution.
    ///
    /// The size stays a fraction of the canvas rather than being capped at a pixel count: a card
    /// is drawn once at full canvas size and scaled down for every preview, so a fixed ceiling
    /// makes the title shrink to nothing on a large canvas viewed small.
    pub fn title_font_size(&self) -> (size: u32)
        ensures
            size == self.deep_view().title_size(),
    {
        let fraction: u32 = self.width / 20;
        let base: u32 = if fraction < 28 {
            28
        } else {
            fraction
        };
        // A long title needs smaller type, or it runs past the edge rather than wrapping.
        let letters: u64 = chars_in(self.title.as_str()) as u64;
        let counted: u64 = (if letters < 1 {
            1
        } else {
            letters
        }) % 0x1_0000_0000;
        let rows: u64 = (counted + 23) / 24;
        let crowd: u32 = if rows < 1 {
            1
        } else {
            rows as u32
        };
        assert(crowd == crowding(self.title@));
        let size: u32 = base / crowd;
        if size < 24 {
            24
        } else {
            size
        }
    }

    pub fn subtitle_font_size(&self) -> (size: u32)
        ensures
            size == self.deep_view().subtitle_size(),
    {
        let half: u32 = self.title_font_size() / 2;
        if half < 18 {
            18
        } else {
            half
        }
    }

    /// Height of the accent rule along the top edge.
    pub fn accent_height(&self) -> (height: u32)
        ensures
            height == self.deep_view().rule_height(),
    {
        let fraction: u32 = self.height / 135;
        if fraction > 16 {
            16
        } else if fraction < 4 {
            4
        } else {
            fraction
        }
    }

    /// Content address for this exact card. Two episodes that would draw the same card share one
    /// generated file; changing a title or the cast changes the address, so the cover follows the
    /// episode rather than going stale against it.
    ///
    /// The address covers the drawing decisions, not only the inputs. Type sizes and the accent
    /// rule are derived from the canvas, so hashing the inputs alone would let a change to how a
    /// card is drawn keep serving the card drawn by the old rules, forever and silently.
    pub fn cache_key(&self) -> (key: String)
        ensures
            key@ == sha256_hex(self.deep_view().address_bytes()),
            is_sha256_hex(key@),
    {
        let ghost model = self.deep_view();
        let mut fields: Vec<String> = Vec::new();
        fields.push(decimal_text(self.width as u64));
        fields.push(decimal_text(self.height as u64));
        fields.push(self.title.clone());
        fields.push(self.subtitle.clone());
        fields.push(self.palette.background.to_owned());
        fields.push(self.palette.foreground.to_owned());
        fields.push(self.palette.muted.to_owned());
        fields.push(self.palette.accent.to_owned());
        fields.push(decimal_text(self.title_font_size() as u64));
        fields.push(decimal_text(self.subtitle_font_size() as u64));
        fields.push(decimal_text(self.accent_height() as u64));
        assert(fields.deep_view() =~= model.addressed());
        // Field separators, so a title ending in the subtitle's first word cannot collide with the
        // pair that actually reads that way.
        let mut bytes: Vec<u8> = Vec::new();
        push_text(&mut bytes, "cover-v1");
        let ghost head = bytes@;
        assert(head =~= encode_utf8("cover-v1"@));
        let mut index: usize = 0;
        assert(bytes@ =~= head + fields_bytes(model.addressed(), 0));
        while index < fields.len()
            invariant
                index <= fields.len() == 11,
                fields.deep_view() == model.addressed(),
                bytes@ == head + fields_bytes(model.addressed(), index as int),
            decreases fields.len() - index,
        {
            assert(fields.deep_view()[index as int] == fields[index as int]@);
            push_field(&mut bytes, fields[index].as_str());
            index += 1;
            assert(bytes@ =~= head + fields_bytes(model.addressed(), index as int));
        }
        sha256_hex_text(bytes.as_slice())
    }
}

// ---------------------------------------------------------------------------------------------
// What a card says
// ---------------------------------------------------------------------------------------------
/// A text that fits, and says that it was shortened rather than ending as though it simply stopped.
pub open spec fn clamped(value: Seq<char>, limit: int) -> Seq<char> {
    let text = trimmed(value);
    if text.len() <= limit {
        text
    } else {
        trimmed_end(text.take(limit - 1)) + "…"@
    }
}

fn clamp_text(value: &str, limit: usize) -> (text: String)
    requires
        limit >= 1,
    ensures
        text@ == clamped(value@, limit as int),
{
    let whole: &str = value.trim();
    let chars: Vec<char> = chars_of(whole);
    if chars.len() <= limit {
        return whole.to_owned();
    }
    let kept: String = text_of(&chars, 0, limit - 1);
    assert(kept@ =~= trimmed(value@).take(limit - 1));
    text_concat(kept.as_str().trim_end(), "…")
}

/// The names of the members from a place on that say something.
pub open spec fn spoken_names_from(cast: Seq<CastMemberModel>, index: int) -> Seq<Seq<char>>
    decreases cast.len() - index,
{
    if index < 0 || index >= cast.len() {
        Seq::empty()
    } else if trimmed(cast[index].display_name).len() > 0 {
        seq![trimmed(cast[index].display_name)] + spoken_names_from(cast, index + 1)
    } else {
        spoken_names_from(cast, index + 1)
    }
}

/// The cast line for a card.
pub open spec fn cast_line(cast: Seq<CastMemberModel>) -> Seq<char> {
    if cast.len() == 0 {
        Seq::empty()
    } else if cast.len() > MAX_NAMED_CAST {
        decimal(cast.len()) + " voices"@
    } else {
        let names = spoken_names_from(cast, 0);
        clamped(joined(names, " · "@, names.len() as int), MAX_COVER_SUBTITLE_CHARS as int)
    }
}

/// The cast line for a card: who is in this episode, summarised once the list stops being readable.
pub fn cover_subtitle(cast: &[CastMember]) -> (line: String)
    ensures
        line@ == cast_line(cast.deep_view()),
{
    let ghost model = cast.deep_view();
    assert(model.len() == cast.len());
    if cast.len() == 0 {
        let empty: String = String::new();
        assert(empty@ =~= Seq::empty());
        return empty;
    }
    if cast.len() > MAX_NAMED_CAST {
        // A count is honest where a truncated list would imply the episode has only those voices.
        let count: String = decimal_text(cast.len() as u64);
        return text_concat(count.as_str(), " voices");
    }
    let ghost names = spoken_names_from(model, 0);
    let ghost mut found: Seq<Seq<char>> = Seq::empty();
    let mut line: String = String::new();
    let mut index: usize = 0;
    let mut written: usize = 0;
    assert(found + names =~= names);
    assert(line@ =~= joined(found, " · "@, 0));
    while index < cast.len()
        invariant
            index <= cast.len(),
            written <= index,
            model == cast.deep_view(),
            names == spoken_names_from(model, 0),
            written == found.len(),
            found + spoken_names_from(model, index as int) == names,
            line@ == joined(found, " · "@, found.len() as int),
        decreases cast.len() - index,
    {
        assert(model[index as int] == cast[index as int].deep_view());
        let name: &str = cast[index].display_name.as_str().trim();
        if chars_in(name) > 0 {
            proof {
                let before = found;
                let rest = spoken_names_from(model, index + 1);
                found = found.push(name@);
                assert(found + rest =~= before + (seq![name@] + rest));
                lemma_joined_prefix(before, found, " · "@, before.len() as int);
            }
            if written > 0 {
                line.append(" · ");
            }
            line.append(name);
            written += 1;
            if written == 1 {
                assert(line@ =~= found[0]);
            }
        }
        index += 1;
    }
    assert(found =~= names);
    clamp_text(line.as_str(), MAX_COVER_SUBTITLE_CHARS)
}

/// The title of a card. An episode with no name still gets one rather than a blank one.
pub open spec fn card_title(name: Seq<char>) -> Seq<char> {
    let title = clamped(name, MAX_COVER_TITLE_CHARS as int);
    if title.len() == 0 {
        "Untitled episode"@
    } else {
        title
    }
}

pub open spec fn card(project_id: Seq<char>, name: Seq<char>, cast: Seq<CastMemberModel>, width: u32, height: u32) -> CoverSpecModel {
    CoverSpecModel {
        width,
        height,
        title: card_title(name),
        subtitle: cast_line(cast),
        palette: palette_at(palette_number(project_id)),
    }
}

/// Builds the card for one episode.
pub fn cover_spec(project_id: &str, name: &str, cast: &[CastMember], width: u32, height: u32) -> (spec_card: CoverSpec)
    ensures
        spec_card.deep_view() == card(project_id@, name@, cast.deep_view(), width, height),
{
    let title: String = clamp_text(name, MAX_COVER_TITLE_CHARS);
    CoverSpec {
        width,
        height,
        title: if chars_in(title.as_str()) == 0 {
            "Untitled episode".to_owned()
        } else {
            title
        },
        subtitle: cover_subtitle(cast),
        palette: cover_palette(project_id),
    }
}

// ---------------------------------------------------------------------------------------------
// Laws
// ---------------------------------------------------------------------------------------------
proof fn lemma_trimmed_end(text: Seq<char>)
    ensures
        trimmed_end(text).len() <= text.len(),
    decreases text.len(),
{
    if text.len() > 0 {
        lemma_trimmed_end(text.drop_last());
    }
}

/// A shortened text keeps to its limit.
pub proof fn a_clamped_text_fits(value: Seq<char>, limit: int)
    requires
        limit >= 1,
    ensures
        clamped(value, limit).len() <= limit,
{
    reveal_strlit("…");
    lemma_trimmed_end(trimmed(value).take(limit - 1));
}

/// Every card says something, and its title keeps to the length a title may have.
pub proof fn every_card_has_a_title(name: Seq<char>)
    ensures
        1 <= card_title(name).len() <= MAX_COVER_TITLE_CHARS,
{
    reveal_strlit("Untitled episode");
    a_clamped_text_fits(name, MAX_COVER_TITLE_CHARS as int);
}

/// Type is never too small to read, and a title never larger than a twentieth of the canvas allows.
pub proof fn type_stays_readable(cover: CoverSpecModel)
    ensures
        24 <= cover.title_size() <= at_least(cover.width as int / 20, 28),
        18 <= cover.subtitle_size(),
        4 <= cover.rule_height() <= 16,
{
    let base = at_least(cover.width as int / 20, 28);
    let crowd = crowding(cover.title);
    assert(base / crowd <= base) by (nonlinear_arith)
        requires
            base >= 0,
            crowd >= 1,
    ;
}

/// Renaming an episode keeps its colours.
pub proof fn a_rename_keeps_the_colours(
    project_id: Seq<char>,
    before: Seq<char>,
    after: Seq<char>,
    cast: Seq<CastMemberModel>,
    width: u32,
    height: u32,
)
    ensures
        card(project_id, before, cast, width, height).palette == card(
            project_id,
            after,
            cast,
            width,
            height,
        ).palette,
{
}

/// Whether a colour is written as three bytes.
pub open spec fn is_colour(text: Seq<char>) -> bool {
    text.len() == 8 && text[0] == '0' && text[1] == 'x'
}

/// Every palette can be read: on a ground that is dark in each of its colours stands type that is light in each of
/// them, and what is muted lies between the two.
pub proof fn every_palette_can_be_read(index: int, channel: int)
    requires
        0 <= channel < 3,
    ensures
        ({
            let palette = palette_at(index);
            let at = 2 + 2 * channel;
            &&& is_colour(palette.background) && is_colour(palette.foreground) && is_colour(palette.muted)
                && is_colour(palette.accent)
            &&& '1' <= palette.background[at] <= '3'
            &&& 'E' <= palette.foreground[at] <= 'F'
            &&& '8' <= palette.muted[at] <= 'B'
        }),
{
    reveal_strlit("0x18232E");
    reveal_strlit("0x1B2A24");
    reveal_strlit("0x1F2933");
    reveal_strlit("0x261C1C");
    reveal_strlit("0x2A1F2D");
    reveal_strlit("0x2B2118");
    reveal_strlit("0x60A5FA");
    reveal_strlit("0x6FCF97");
    reveal_strlit("0x92A4B3");
    reveal_strlit("0x93A79C");
    reveal_strlit("0x9AA5B1");
    reveal_strlit("0xAB9CB0");
    reveal_strlit("0xB29A9A");
    reveal_strlit("0xB3A192");
    reveal_strlit("0xC084FC");
    reveal_strlit("0xE8B44A");
    reveal_strlit("0xEFF4F8");
    reveal_strlit("0xF2F5F3");
    reveal_strlit("0xF59E6B");
    reveal_strlit("0xF5F5F4");
    reveal_strlit("0xF6F2F7");
    reveal_strlit("0xF7F1F1");
    reveal_strlit("0xF7F3EE");
    reveal_strlit("0xF87171");
}

/// No two palettes share a ground or an accent.
pub proof fn palettes_differ(left: int, right: int)
    requires
        0 <= left < COVER_PALETTE_COUNT,
        0 <= right < COVER_PALETTE_COUNT,
        left != right,
    ensures
        palette_at(left).background != palette_at(right).background,
        palette_at(left).accent != palette_at(right).accent,
{
    reveal_strlit("0x18232E");
    reveal_strlit("0x1B2A24");
    reveal_strlit("0x1F2933");
    reveal_strlit("0x261C1C");
    reveal_strlit("0x2A1F2D");
    reveal_strlit("0x2B2118");
    reveal_strlit("0x60A5FA");
    reveal_strlit("0x6FCF97");
    reveal_strlit("0x92A4B3");
    reveal_strlit("0x93A79C");
    reveal_strlit("0x9AA5B1");
    reveal_strlit("0xAB9CB0");
    reveal_strlit("0xB29A9A");
    reveal_strlit("0xB3A192");
    reveal_strlit("0xC084FC");
    reveal_strlit("0xE8B44A");
    reveal_strlit("0xEFF4F8");
    reveal_strlit("0xF2F5F3");
    reveal_strlit("0xF59E6B");
    reveal_strlit("0xF5F5F4");
    reveal_strlit("0xF6F2F7");
    reveal_strlit("0xF7F1F1");
    reveal_strlit("0xF7F3EE");
    reveal_strlit("0xF87171");
    let a = palette_at(left);
    let b = palette_at(right);
    assert(a.background[3] != b.background[3] || a.background[4] != b.background[4] || a.background[5]
        != b.background[5] || a.background[2] != b.background[2]);
    assert(a.accent[2] != b.accent[2] || a.accent[3] != b.accent[3] || a.accent[4] != b.accent[4] || a.accent[5]
        != b.accent[5]);
}

/// A longer title is never set larger, nor is one on a narrower card.
pub proof fn crowded_titles_are_set_smaller(short: CoverSpecModel, long: CoverSpecModel)
    requires
        short.title.len() <= long.title.len() < 0x1_0000_0000,
        long.width <= short.width,
    ensures
        long.title_size() <= short.title_size(),
        long.subtitle_size() <= short.subtitle_size(),
        short.title.len() <= 24 ==> short.title_size() == at_least(short.width as int / 20, 28),
{
    let a = at_least(short.width as int / 20, 28);
    let b = at_least(long.width as int / 20, 28);
    let few = crowding(short.title);
    let many = crowding(long.title);
    assert(1 <= few <= many);
    assert(b / many <= a / few) by (nonlinear_arith)
        requires
            0 <= b <= a,
            1 <= few <= many,
    ;
    if short.title.len() <= 24 {
        assert(few == 1);
    }
}

/// A text that fits is left as it is but for the spaces round it; one that is shortened begins as the text does and
/// ends with an ellipsis.
pub proof fn a_shortened_text_says_so(value: Seq<char>, limit: int)
    requires
        limit >= 1,
    ensures
        ({
            let text = trimmed(value);
            let shown = clamped(value, limit);
            &&& text.len() <= limit ==> shown == text
            &&& text.len() > limit ==> shown.len() > 0 && shown.last() == '…' && shown.drop_last() == text.take(
                shown.len() - 1,
            )
        }),
{
    reveal_strlit("…");
    let text = trimmed(value);
    if text.len() > limit {
        let lead = text.take(limit - 1);
        lemma_trimmed_end_is_a_prefix(lead);
        let kept = trimmed_end(lead);
        let shown = clamped(value, limit);
        assert(shown.drop_last() =~= kept);
        assert(kept =~= text.take(kept.len() as int));
    }
}

proof fn lemma_trimmed_end_is_a_prefix(text: Seq<char>)
    ensures
        trimmed_end(text).len() <= text.len(),
        trimmed_end(text) == text.take(trimmed_end(text).len() as int),
    decreases text.len(),
{
    if text.len() > 0 && is_space(text.last()) {
        lemma_trimmed_end_is_a_prefix(text.drop_last());
        let kept = trimmed_end(text);
        assert(text.drop_last().take(kept.len() as int) =~= text.take(kept.len() as int));
    } else {
        assert(text.take(text.len() as int) =~= text);
    }
}

} // verus!
