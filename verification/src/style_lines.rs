//! What the lines of a subtitle document begin with: whatever a project says, each look is declared
//! once.

use crate::canvas::{dimensions, AssemblyOptions};
use crate::caption_layout::{
    color_mark, font_size, geometry_mark, page_text, scaled_basis_point, separator, style_line, style_text, styled_to,
    CaptionRenderGeometry, Emphasis,
};
use crate::caption_pages::{cue_pages, cue_preset, line_breaks};
use crate::caption_presets::{preset_of, CaptionRevealMode};
use crate::captions::{larger, smaller, CaptionPageModel, TimedCaptionTokenModel};
use crate::decimals::scaled;
use crate::manifest::{
    CaptionCueModel, NormalizedRect, ReviewedSceneModel, VideoProjectManifestModel,
};
use crate::notation::{
    centiseconds, clock_of, dialogue_of, escaped, escaped_text_stays_on_its_line, truncated, Place,
};
use crate::subtitles::{
    animation_of, captioned, captions_to, card_end, card_styles, cue_cards_from, cue_events, cue_events_to, cue_geometry,
    document_fault, document_head, document_of, emphasis_at, gets_card, introduces, line_cards_from, marks_to, midpoint,
    named_speaker, paced_event, paced_to, page_events, performed_lines, shown_cues, shown_name, speaker_card, speaker_of,
    title_end, titled, titles_to, with_styles, PlacedLineModel,
};
use crate::text::{decimal, padded, signed_decimal, zeros};
use crate::validate::CaptionPresetId;
use vstd::prelude::*;

verus! {

// ---------------------------------------------------------------------------------------------
// Lines
// ---------------------------------------------------------------------------------------------
/// Whether a line starts at a place of a document.
pub open spec fn starts_line(document: Seq<char>, place: int) -> bool {
    0 <= place < document.len() && (place == 0 || document[place - 1] == '\n')
}

/// Whether a text stands at a place of a document.
pub open spec fn stands_at(document: Seq<char>, text: Seq<char>, place: int) -> bool {
    place + text.len() <= document.len() && forall|i: int| 0 <= i < text.len() ==> document[place + i] == #[trigger] text[i]
}

/// How many lines that start in the first part of a document begin with a text.
pub open spec fn lines_to(document: Seq<char>, text: Seq<char>, count: int) -> int
    decreases count,
{
    if count <= 0 {
        0
    } else if starts_line(document, count - 1) && stands_at(document, text, count - 1) {
        lines_to(document, text, count - 1) + 1
    } else {
        lines_to(document, text, count - 1)
    }
}

/// How many lines of a document begin with a text.
pub open spec fn lines_beginning(document: Seq<char>, text: Seq<char>) -> int {
    lines_to(document, text, document.len() as int)
}

/// Whether the last line of a document has its end.
pub open spec fn is_complete(document: Seq<char>) -> bool {
    document.len() > 0 ==> document.last() == '\n'
}

/// Whether a text keeps to one line.
#[verifier::opaque]
pub open spec fn is_unbroken(text: Seq<char>) -> bool {
    forall|i: int| 0 <= i < text.len() ==> #[trigger] text[i] != '\n'
}

broadcast proof fn lemma_unbroken(left: Seq<char>, right: Seq<char>)
    ensures
        #[trigger] is_unbroken(left + right) == (is_unbroken(left) && is_unbroken(right)),
{
    reveal(is_unbroken);
    if is_unbroken(left + right) {
        assert forall|i: int| 0 <= i < left.len() implies #[trigger] left[i] != '\n' by {
            assert((left + right)[i] == left[i]);
        }
        assert forall|i: int| 0 <= i < right.len() implies #[trigger] right[i] != '\n' by {
            assert((left + right)[left.len() + i] == right[i]);
        }
    }
}

/// Two pieces of a document, the first with its end, have their lines together.
proof fn lemma_lines_add(left: Seq<char>, right: Seq<char>, text: Seq<char>)
    requires
        is_complete(left),
        text.len() > 0,
        is_unbroken(text),
    ensures
        lines_beginning(left + right, text) == lines_beginning(left, text) + lines_beginning(right, text),
        is_complete(right) ==> is_complete(left + right),
{
    lemma_lines_left(left, right, text, left.len() as int);
    lemma_lines_right(left, right, text, right.len() as int);
}

proof fn lemma_lines_left(left: Seq<char>, right: Seq<char>, text: Seq<char>, count: int)
    requires
        is_complete(left),
        text.len() > 0,
        is_unbroken(text),
        0 <= count <= left.len(),
    ensures
        lines_to(left + right, text, count) == lines_to(left, text, count),
    decreases count,
{
    reveal(is_unbroken);
    if count > 0 {
        lemma_lines_left(left, right, text, count - 1);
        let place = count - 1;
        let whole = left + right;
        if stands_at(whole, text, place) && place + text.len() > left.len() {
            assert(whole[left.len() - 1] == '\n');
            let i = left.len() - 1 - place;
            assert(whole[place + i] == text[i]);
        }
        if stands_at(whole, text, place) && place + text.len() <= left.len() {
            assert forall|i: int| 0 <= i < text.len() implies left[place + i] == #[trigger] text[i] by {
                assert(whole[place + i] == left[place + i]);
            }
        }
        if stands_at(left, text, place) {
            assert forall|i: int| 0 <= i < text.len() implies whole[place + i] == #[trigger] text[i] by {
                assert(whole[place + i] == left[place + i]);
            }
        }
    }
}

proof fn lemma_lines_right(left: Seq<char>, right: Seq<char>, text: Seq<char>, count: int)
    requires
        is_complete(left),
        text.len() > 0,
        is_unbroken(text),
        0 <= count <= right.len(),
    ensures
        lines_to(left + right, text, left.len() + count) == lines_to(left, text, left.len() as int) + lines_to(
            right,
            text,
            count,
        ),
    decreases count,
{
    if count > 0 {
        lemma_lines_right(left, right, text, count - 1);
        let place = count - 1;
        let whole = left + right;
        let there = left.len() + place;
        assert(starts_line(whole, there) == starts_line(right, place)) by {
            if place > 0 {
                assert(whole[there - 1] == right[place - 1]);
            } else if left.len() > 0 {
                assert(whole[there - 1] == left.last());
            }
        }
        if stands_at(whole, text, there) {
            assert forall|i: int| 0 <= i < text.len() implies right[place + i] == #[trigger] text[i] by {
                assert(whole[there + i] == right[place + i]);
            }
        }
        if stands_at(right, text, place) {
            assert forall|i: int| 0 <= i < text.len() implies whole[there + i] == #[trigger] text[i] by {
                assert(whole[there + i] == right[place + i]);
            }
        }
    } else {
        lemma_lines_left(left, right, text, left.len() as int);
    }
}

/// One line begins with a text or does not.
proof fn lemma_one_line(body: Seq<char>, text: Seq<char>)
    requires
        is_unbroken(body),
        text.len() > 0,
        is_unbroken(text),
    ensures
        is_complete(body + "\n"@),
        lines_beginning(body + "\n"@, text) == if stands_at(body, text, 0) {
            1int
        } else {
            0
        },
{
    reveal_strlit("\n");
    let line = body + "\n"@;
    lemma_one_line_to(body, text, line.len() as int);
}

proof fn lemma_one_line_to(body: Seq<char>, text: Seq<char>, count: int)
    requires
        is_unbroken(body),
        text.len() > 0,
        is_unbroken(text),
        1 <= count <= body.len() + 1,
    ensures
        lines_to(body + "\n"@, text, count) == if stands_at(body, text, 0) {
            1int
        } else {
            0
        },
    decreases count,
{
    reveal(is_unbroken);
    reveal_strlit("\n");
    let line = body + "\n"@;
    if count > 1 {
        lemma_one_line_to(body, text, count - 1);
        assert(line[count - 2] == body[count - 2]);
    } else {
        assert(lines_to(line, text, 0) == 0);
        if stands_at(line, text, 0) {
            if text.len() > body.len() {
                assert(line[body.len() as int] == text[body.len() as int]);
            }
            assert forall|i: int| 0 <= i < text.len() implies body[0int + i] == #[trigger] text[i] by {
                assert(line[0 + i] == body[i]);
            }
        }
        if stands_at(body, text, 0) {
            assert forall|i: int| 0 <= i < text.len() implies line[0 + i] == #[trigger] text[i] by {
                assert(line[i] == body[0int + i]);
            }
        }
    }
}

// ---------------------------------------------------------------------------------------------
// Texts that keep to one line
// ---------------------------------------------------------------------------------------------
proof fn lemma_decimal(value: nat)
    ensures
        is_unbroken(decimal(value)),
        decimal(value).len() > 0,
    decreases value,
{
    reveal(is_unbroken);
    if value >= 10 {
        lemma_decimal(value / 10);
    }
}

proof fn lemma_zeros(count: int)
    ensures
        is_unbroken(zeros(count)),
{
    reveal(is_unbroken);
}

proof fn lemma_padded(value: nat, width: nat)
    ensures
        is_unbroken(padded(value, width)),
{
    broadcast use lemma_unbroken;

    lemma_decimal(value);
    lemma_zeros(width - decimal(value).len());
}

proof fn lemma_signed(value: int)
    ensures
        is_unbroken(signed_decimal(value)),
{
    broadcast use lemma_unbroken;

    lemma_decimal(value as nat);
    lemma_decimal((-value) as nat);
    assert(is_unbroken("-"@)) by {
        reveal(is_unbroken);
        reveal_strlit("-");
    }
}

proof fn lemma_escaped(place: Place, text: Seq<char>)
    requires
        place != Place::FilterPath,
    ensures
        is_unbroken(escaped(place, text)),
{
    reveal(is_unbroken);
    escaped_text_stays_on_its_line(place, text);
}

proof fn lemma_clock(value: int)
    ensures
        is_unbroken(clock_of(value)),
{
    broadcast use lemma_unbroken;

    let total = centiseconds(value);
    lemma_decimal((total / 360_000) as nat);
    lemma_padded(((total / 6_000) % 60) as nat, 2);
    lemma_padded(((total / 100) % 60) as nat, 2);
    lemma_padded((total % 100) as nat, 2);
    assert(is_unbroken(":"@) && is_unbroken("."@)) by {
        reveal(is_unbroken);
        reveal_strlit(":");
        reveal_strlit(".");
    }
}

proof fn lemma_marks()
    ensures
        is_unbroken(","@),
        is_unbroken(",0,0,0,,"@),
        is_unbroken("Dialogue: "@),
        is_unbroken("\\N"@),
        is_unbroken(" "@),
        is_unbroken(""@),
        is_unbroken("{\\1c"@),
        is_unbroken("}"@),
        is_unbroken(Seq::<char>::empty()),
{
    reveal(is_unbroken);
    reveal_strlit(",");
    reveal_strlit(",0,0,0,,");
    reveal_strlit("Dialogue: ");
    reveal_strlit("\\N");
    reveal_strlit(" ");
    reveal_strlit("");
    reveal_strlit("{\\1c");
    reveal_strlit("}");
}

/// An event is one line, and none that declares a style.
proof fn lemma_event(layer: nat, start: int, end: int, style: Seq<char>, name: Seq<char>, text: Seq<char>, wanted: Seq<char>)
    requires
        is_unbroken(style),
        is_unbroken(text),
        declares(wanted),
    ensures
        is_complete(dialogue_of(layer, start, end, style, name, text)),
        lines_beginning(dialogue_of(layer, start, end, style, name, text), wanted) == 0,
{
    broadcast use lemma_unbroken;

    lemma_marks();
    lemma_decimal(layer);
    lemma_clock(start);
    lemma_clock(end);
    lemma_escaped(Place::SubtitleField, name);
    let body = "Dialogue: "@ + decimal(layer) + ","@ + clock_of(start) + ","@ + clock_of(end) + ","@ + style + ","@
        + escaped(Place::SubtitleField, name) + ",0,0,0,,"@ + text;
    reveal_strlit("Dialogue: ");
    assert(body[0] == 'D');
    lemma_one_line(body, wanted);
    assert(wanted[0] == 'S');
}

/// Whether a text is the beginning of a line that declares a style.
pub open spec fn declares(text: Seq<char>) -> bool {
    text.len() >= 16 && is_unbroken(text) && text[0] == 'S' && text[1] == 't' && text[7] == 'C'
}

// ---------------------------------------------------------------------------------------------
// Events
// ---------------------------------------------------------------------------------------------
proof fn lemma_look(id: CaptionPresetId)
    ensures
        is_unbroken(preset_of(id).ass_name@),
        is_unbroken(preset_of(id).font_name@),
        is_unbroken(preset_of(id).primary_color@),
        is_unbroken(preset_of(id).secondary_color@),
        is_unbroken(preset_of(id).active_color@),
        is_unbroken(preset_of(id).outline_color@),
        is_unbroken(preset_of(id).back_color@),
{
    reveal(is_unbroken);
    reveal_strlit("&H00000000");
    reveal_strlit("&H003DD9FF");
    reveal_strlit("&H006EE7A4");
    reveal_strlit("&H008C8C8C");
    reveal_strlit("&H00F2764F");
    reveal_strlit("&H00F3EFE8");
    reveal_strlit("&H00F7F3EE");
    reveal_strlit("&H00FFFFFF");
    reveal_strlit("&H3C000000");
    reveal_strlit("&H48000000");
    reveal_strlit("&H50000000");
    reveal_strlit("&H58000000");
    reveal_strlit("&H60000000");
    reveal_strlit("&H70000000");
    reveal_strlit("&H70110D0A");
    reveal_strlit("&H701A1510");
    reveal_strlit("&H78000000");
    reveal_strlit("&H8A111111");
    reveal_strlit("CaptionBoldPop");
    reveal_strlit("CaptionCalm");
    reveal_strlit("CaptionCleanWhite");
    reveal_strlit("CaptionHighlight");
    reveal_strlit("CaptionKaraoke");
    reveal_strlit("CaptionKinetic");
    reveal_strlit("CaptionPodcast");
    reveal_strlit("CaptionTypewriter");
    reveal_strlit("DejaVu Sans Mono");
    reveal_strlit("Inter");
}

proof fn lemma_styled(
    tokens: Seq<TimedCaptionTokenModel>,
    breaks: Seq<bool>,
    id: CaptionPresetId,
    emphasis: Emphasis,
    count: int,
)
    ensures
        is_unbroken(styled_to(tokens, breaks, preset_of(id), emphasis, count)),
    decreases count,
{
    broadcast use lemma_unbroken;

    lemma_marks();
    if count > 0 {
        lemma_styled(tokens, breaks, id, emphasis, count - 1);
        lemma_look(id);
        lemma_escaped(Place::Subtitle, tokens[count - 1].text);
        assert(is_unbroken(separator(tokens, breaks, count - 1, "\\N"@)));
        assert(is_unbroken(color_mark(preset_of(id), emphasis, count - 1)));
    }
}

proof fn lemma_geometry(geometry: CaptionRenderGeometry, width: int, height: int)
    ensures
        is_unbroken(geometry_mark(geometry, width, height)),
{
    broadcast use lemma_unbroken;

    let x = geometry.bounds.x_bp + truncated(geometry.bounds.width_bp as int, 2);
    let y = geometry.bounds.y_bp + truncated(geometry.bounds.height_bp as int, 2);
    lemma_marks();
    lemma_decimal(scaled_basis_point(x, width) as nat);
    lemma_decimal(scaled_basis_point(y, height) as nat);
    lemma_decimal(larger(scaled_basis_point(geometry.font_size_bp as int, height), 1) as nat);
    assert(is_unbroken("{\\an5\\pos("@) && is_unbroken(")\\fs"@) && is_unbroken("\\q2}"@)) by {
        reveal(is_unbroken);
        reveal_strlit("{\\an5\\pos(");
        reveal_strlit(")\\fs");
        reveal_strlit("\\q2}");
    }
}

proof fn lemma_animation(id: CaptionPresetId, start: int)
    ensures
        is_unbroken(animation_of(id, start)),
{
    reveal(is_unbroken);
    reveal_strlit("");
    reveal_strlit("{\\fad(120,160)}");
    reveal_strlit("{\\fad(40,80)\\fscx104\\fscy104\\t(0,140,\\fscx100\\fscy100)}");
    reveal_strlit("{\\fad(100,160)}");
}

/// Whether a piece of a document ends with a line and declares no style of a kind.
spec fn is_quiet(piece: Seq<char>, wanted: Seq<char>) -> bool {
    is_complete(piece) && lines_beginning(piece, wanted) == 0
}

proof fn lemma_quiet_add(left: Seq<char>, right: Seq<char>, wanted: Seq<char>)
    requires
        declares(wanted),
        is_quiet(left, wanted),
        is_quiet(right, wanted),
    ensures
        is_quiet(left + right, wanted),
{
    lemma_lines_add(left, right, wanted);
}

proof fn lemma_paced(
    page: CaptionPageModel,
    id: CaptionPresetId,
    speaker: Seq<char>,
    lead: Seq<char>,
    marks: Seq<i64>,
    count: int,
    wanted: Seq<char>,
)
    requires
        declares(wanted),
        is_unbroken(lead),
    ensures
        is_quiet(paced_to(page, preset_of(id), speaker, lead, marks, count), wanted),
    decreases count,
{
    broadcast use lemma_unbroken;

    if count > 0 {
        let preset = preset_of(id);
        let start = marks[count - 1] as int;
        let end = marks[count] as int;
        let emphasis = emphasis_at(page.tokens, preset.reveal, midpoint(start, end));
        let text = lead + page_text(page.tokens, preset, emphasis);
        lemma_paced(page, id, speaker, lead, marks, count - 1, wanted);
        lemma_styled(
            page.tokens,
            line_breaks(page.tokens, preset.paging)->0,
            id,
            emphasis,
            smaller(emphasis.visible, page.tokens.len() as int),
        );
        lemma_look(id);
        lemma_event(10, start, end, preset.ass_name@, speaker, text, wanted);
        let event = paced_event(page, preset, speaker, lead, start, end);
        assert(is_quiet(event, wanted));
        lemma_quiet_add(paced_to(page, preset, speaker, lead, marks, count - 1), event, wanted);
    }
}

proof fn lemma_page(page: CaptionPageModel, id: CaptionPresetId, speaker: Seq<char>, lead: Seq<char>, wanted: Seq<char>)
    requires
        declares(wanted),
        is_unbroken(lead),
    ensures
        is_quiet(page_events(page, preset_of(id), speaker, lead), wanted),
{
    broadcast use lemma_unbroken;

    let preset = preset_of(id);
    if preset.reveal == CaptionRevealMode::Page {
        let emphasis = emphasis_at(page.tokens, preset.reveal, 0);
        lemma_styled(
            page.tokens,
            line_breaks(page.tokens, preset.paging)->0,
            id,
            emphasis,
            smaller(emphasis.visible, page.tokens.len() as int),
        );
        lemma_animation(preset.id, page.start_us.0 as int);
        lemma_look(id);
        let text = lead + animation_of(preset.id, page.start_us.0 as int) + page_text(page.tokens, preset, emphasis);
        lemma_event(
            10,
            page.start_us.0 as int,
            page.end_us.0 as int,
            preset.ass_name@,
            speaker,
            text,
            wanted,
        );
    } else {
        let marks = marks_to(
            page,
            preset.reveal == CaptionRevealMode::ActiveWord,
            page.tokens.len() as int,
        );
        lemma_paced(page, id, speaker, lead, marks, marks.len() - 1, wanted);
    }
}

proof fn lemma_cue(
    m: VideoProjectManifestModel,
    cue: CaptionCueModel,
    default: NormalizedRect,
    size: (u32, u32),
    count: int,
    wanted: Seq<char>,
)
    requires
        declares(wanted),
    ensures
        is_quiet(cue_events_to(m, cue, default, size, count), wanted),
    decreases count,
{
    if count > 0 {
        let page = cue_pages(m, cue)[count - 1];
        let lead = geometry_mark(cue_geometry(m, cue, default, page), size.0 as int, size.1 as int);
        lemma_cue(m, cue, default, size, count - 1, wanted);
        lemma_geometry(cue_geometry(m, cue, default, page), size.0 as int, size.1 as int);
        lemma_page(page, CaptionPresetId::named(cue.style_id)->0, speaker_of(cue), lead, wanted);
        lemma_quiet_add(
            cue_events_to(m, cue, default, size, count - 1),
            page_events(page, cue_preset(cue), speaker_of(cue), lead),
            wanted,
        );
    }
}

proof fn lemma_captions(
    m: VideoProjectManifestModel,
    cues: Seq<CaptionCueModel>,
    default: NormalizedRect,
    size: (u32, u32),
    count: int,
    wanted: Seq<char>,
)
    requires
        declares(wanted),
    ensures
        is_quiet(captions_to(m, cues, default, size, count), wanted),
    decreases count,
{
    if count > 0 {
        let cue = cues[count - 1];
        lemma_captions(m, cues, default, size, count - 1, wanted);
        lemma_cue(m, cue, default, size, cue_pages(m, cue).len() as int, wanted);
        lemma_quiet_add(
            captions_to(m, cues, default, size, count - 1),
            cue_events(m, cue, default, size),
            wanted,
        );
    }
}

proof fn lemma_titles(scenes: Seq<ReviewedSceneModel>, count: int, wanted: Seq<char>)
    requires
        declares(wanted),
    ensures
        is_quiet(titles_to(scenes, count), wanted),
    decreases count,
{
    broadcast use lemma_unbroken;

    if count > 0 {
        let scene = scenes[count - 1];
        let text = "{\\fad(100,220)}"@ + escaped(Place::Subtitle, scene.title);
        lemma_titles(scenes, count - 1, wanted);
        lemma_escaped(Place::Subtitle, scene.title);
        assert(is_unbroken("{\\fad(100,220)}"@) && is_unbroken("Title"@)) by {
            reveal(is_unbroken);
            reveal_strlit("{\\fad(100,220)}");
            reveal_strlit("Title");
        }
        lemma_event(20, scene.timeline_start_us.0 as int, title_end(scene), "Title"@, ""@, text, wanted);
        lemma_quiet_add(
            titles_to(scenes, count - 1),
            dialogue_of(20, scene.timeline_start_us.0 as int, title_end(scene), "Title"@, ""@, text),
            wanted,
        );
    }
}

proof fn lemma_card(start: int, end: int, name: Seq<char>, wanted: Seq<char>)
    requires
        declares(wanted),
    ensures
        is_quiet(speaker_card(start, end, name), wanted),
{
    broadcast use lemma_unbroken;

    lemma_escaped(Place::Subtitle, name);
    assert(is_unbroken("{\\fad(80,180)}"@) && is_unbroken("Speaker"@)) by {
        reveal(is_unbroken);
        reveal_strlit("{\\fad(80,180)}");
        reveal_strlit("Speaker");
    }
    lemma_event(30, start, end, "Speaker"@, name, "{\\fad(80,180)}"@ + escaped(Place::Subtitle, name), wanted);
}

proof fn lemma_cue_cards(
    document: Seq<char>,
    cues: Seq<CaptionCueModel>,
    place: int,
    prior: Option<Seq<char>>,
    wanted: Seq<char>,
)
    requires
        declares(wanted),
        is_complete(document),
    ensures
        lines_beginning(cue_cards_from(document, cues, place, prior), wanted) == lines_beginning(document, wanted),
    decreases cues.len() - place,
{
    if 0 <= place < cues.len() {
        if gets_card(cues[place], prior) {
            let range = cues[place].range;
            let start = range.start();
            let end = smaller(range.start() + 1_600_000, range.end());
            let name = named_speaker(cues[place])->0;
            lemma_card(start, end, name, wanted);
            lemma_lines_add(document, speaker_card(start, end, name), wanted);
            lemma_cue_cards(
                document + speaker_card(start, end, name),
                cues,
                place + 1,
                named_speaker(cues[place]),
                wanted,
            );
        } else {
            lemma_cue_cards(document, cues, place + 1, prior, wanted);
        }
    }
}

proof fn lemma_line_cards(
    document: Seq<char>,
    m: VideoProjectManifestModel,
    lines: Seq<PlacedLineModel>,
    place: int,
    prior: Option<Seq<char>>,
    wanted: Seq<char>,
)
    requires
        declares(wanted),
        is_complete(document),
    ensures
        lines_beginning(line_cards_from(document, m, lines, place, prior), wanted) == lines_beginning(
            document,
            wanted,
        ),
    decreases lines.len() - place,
{
    if 0 <= place < lines.len() {
        let line = lines[place];
        if introduces(m, line, prior) && card_end(line) > line.start_us.0 {
            let card = speaker_card(line.start_us.0 as int, card_end(line), shown_name(m, line.character_id));
            lemma_card(line.start_us.0 as int, card_end(line), shown_name(m, line.character_id), wanted);
            lemma_lines_add(document, card, wanted);
            lemma_line_cards(document + card, m, lines, place + 1, Some(line.character_id), wanted);
        } else {
            lemma_line_cards(document, m, lines, place + 1, prior, wanted);
        }
    }
}

// ---------------------------------------------------------------------------------------------
// Styles
// ---------------------------------------------------------------------------------------------
/// What the line that declares a look begins with.
pub open spec fn declaration(id: CaptionPresetId) -> Seq<char> {
    "Style: "@ + preset_of(id).ass_name@ + ","@
}

/// The two characters that tell the names of the looks apart.
spec fn initials(id: CaptionPresetId) -> (char, char) {
    match id {
        CaptionPresetId::CleanWhite => ('C', 'l'),
        CaptionPresetId::Calm => ('C', 'a'),
        CaptionPresetId::Kinetic => ('K', 'i'),
        CaptionPresetId::BoldPop => ('B', 'o'),
        CaptionPresetId::Highlight => ('H', 'i'),
        CaptionPresetId::Karaoke => ('K', 'a'),
        CaptionPresetId::Typewriter => ('T', 'y'),
        CaptionPresetId::Podcast => ('P', 'o'),
    }
}

proof fn lemma_name(id: CaptionPresetId)
    ensures
        preset_of(id).ass_name@.len() >= 9,
        preset_of(id).ass_name@[0] == 'C',
        preset_of(id).ass_name@[7] == initials(id).0,
        preset_of(id).ass_name@[8] == initials(id).1,
{
    reveal_strlit("CaptionBoldPop");
    reveal_strlit("CaptionCalm");
    reveal_strlit("CaptionCleanWhite");
    reveal_strlit("CaptionHighlight");
    reveal_strlit("CaptionKaraoke");
    reveal_strlit("CaptionKinetic");
    reveal_strlit("CaptionPodcast");
    reveal_strlit("CaptionTypewriter");
}

proof fn lemma_declaration(id: CaptionPresetId)
    ensures
        declares(declaration(id)),
        declaration(id)[14] == initials(id).0,
        declaration(id)[15] == initials(id).1,
{
    broadcast use lemma_unbroken;

    lemma_name(id);
    lemma_look(id);
    lemma_marks();
    reveal_strlit("Style: ");
    reveal_strlit(",");
    assert(is_unbroken("Style: "@)) by {
        reveal(is_unbroken);
    }
    let name = preset_of(id).ass_name@;
    assert(declaration(id)[7] == name[0]);
    assert(declaration(id)[14] == name[7]);
    assert(declaration(id)[15] == name[8]);
}

/// Whether a text begins with another.
#[verifier::opaque]
spec fn begins(text: Seq<char>, start: Seq<char>) -> bool {
    start.len() <= text.len() && forall|i: int| 0 <= i < start.len() ==> text[i] == #[trigger] start[i]
}

broadcast proof fn lemma_begins(left: Seq<char>, right: Seq<char>, start: Seq<char>)
    requires
        begins(left, start),
    ensures
        #[trigger] begins(left + right, start),
{
    reveal(begins);
}

proof fn lemma_style_text(id: CaptionPresetId, width: int, height: int)
    ensures
        is_unbroken(style_text(preset_of(id), width, height)),
        begins(style_text(preset_of(id), width, height), declaration(id)),
{
    broadcast use {lemma_unbroken, lemma_begins};

    let preset = preset_of(id);
    lemma_marks();
    assert(begins(declaration(id), declaration(id))) by {
        reveal(begins);
    }
    lemma_look(id);
    lemma_decimal(larger(scaled(width, 65), 36) as nat);
    lemma_decimal(larger(scaled(height, preset.margin_vertical_milli as int), 36) as nat);
    lemma_decimal(font_size(preset, height) as nat);
    lemma_signed(preset.spacing as int);
    lemma_decimal(preset.border_style as nat);
    lemma_decimal(preset.outline as nat);
    lemma_decimal(preset.shadow as nat);
    lemma_decimal(preset.alignment as nat);
    assert(is_unbroken("-1"@) && is_unbroken("0"@) && is_unbroken(",0,0,0,100,100,"@) && is_unbroken(",0,"@)
        && is_unbroken(",1"@) && is_unbroken("Style: "@)) by {
        reveal(is_unbroken);
        reveal_strlit("Style: ");
        reveal_strlit("-1");
        reveal_strlit("0");
        reveal_strlit(",0,0,0,100,100,");
        reveal_strlit(",0,");
        reveal_strlit(",1");
    }
}

/// The line that declares a look begins with that look's declaration and with no other's.
proof fn lemma_style_line(own: CaptionPresetId, width: int, height: int, wanted: CaptionPresetId)
    ensures
        is_complete(style_line(preset_of(own), width, height)),
        lines_beginning(style_line(preset_of(own), width, height), declaration(wanted)) == if own == wanted {
            1int
        } else {
            0
        },
{
    let body = style_text(preset_of(own), width, height);
    lemma_declaration(own);
    lemma_declaration(wanted);
    lemma_style_text(own, width, height);
    lemma_one_line(body, declaration(wanted));
    lemma_told_apart(body, own, wanted);
}

proof fn lemma_told_apart(body: Seq<char>, own: CaptionPresetId, wanted: CaptionPresetId)
    requires
        begins(body, declaration(own)),
    ensures
        stands_at(body, declaration(wanted), 0) <==> own == wanted,
{
    reveal(begins);
    lemma_declaration(own);
    lemma_declaration(wanted);
    let ours = declaration(own);
    let theirs = declaration(wanted);
    if own != wanted && stands_at(body, theirs, 0) {
        assert(body[0int + 14] == theirs[14] && body[14] == ours[14]);
        assert(body[0int + 15] == theirs[15] && body[15] == ours[15]);
    }
}

proof fn lemma_styles(document: Seq<char>, size: (u32, u32), count: int, wanted: CaptionPresetId, place: int)
    requires
        is_complete(document),
        0 <= count <= 8,
        0 <= place < 8,
        CaptionPresetId::in_order()[place] == wanted,
    ensures
        is_complete(with_styles(document, size, count)),
        lines_beginning(with_styles(document, size, count), declaration(wanted)) == lines_beginning(
            document,
            declaration(wanted),
        ) + if place < count {
            1int
        } else {
            0
        },
    decreases count,
{
    if count > 0 {
        let own = CaptionPresetId::in_order()[count - 1];
        lemma_styles(document, size, count - 1, wanted, place);
        lemma_style_line(own, size.0 as int, size.1 as int, wanted);
        lemma_declaration(wanted);
        lemma_lines_add(
            with_styles(document, size, count - 1),
            style_line(preset_of(own), size.0 as int, size.1 as int),
            declaration(wanted),
        );
    }
}

/// A line that does not begin like a declaration.
proof fn lemma_other_line(body: Seq<char>, wanted: Seq<char>)
    requires
        declares(wanted),
        is_unbroken(body),
        body.len() < 8 || body[0] != 'S' || body[1] != 't' || body[7] != 'C',
    ensures
        is_quiet(body + "\n"@, wanted),
{
    lemma_one_line(body, wanted);
    if stands_at(body, wanted, 0) {
        assert(body[0int + 0] == wanted[0]);
        assert(body[0int + 1] == wanted[1]);
        assert(body[0int + 7] == wanted[7]);
    }
}

/// A plain line after a piece of a document.
proof fn lemma_next_line(document: Seq<char>, body: Seq<char>, wanted: Seq<char>)
    requires
        declares(wanted),
        is_complete(document),
        is_unbroken(body),
        body.len() < 8 || body[0] != 'S' || body[1] != 't' || body[7] != 'C',
    ensures
        is_complete(document + body + "\n"@),
        lines_beginning(document + body + "\n"@, wanted) == lines_beginning(document, wanted),
{
    lemma_other_line(body, wanted);
    lemma_lines_add(document, body + "\n"@, wanted);
    assert(document + body + "\n"@ =~= document + (body + "\n"@));
}

/// A line of two pieces after a piece of a document.
proof fn lemma_next_pair(document: Seq<char>, first: Seq<char>, second: Seq<char>, wanted: Seq<char>)
    requires
        declares(wanted),
        is_complete(document),
        is_unbroken(first),
        is_unbroken(second),
        first.len() >= 8,
        first[0] != 'S' || first[1] != 't' || first[7] != 'C',
    ensures
        is_complete(document + first + second + "\n"@),
        lines_beginning(document + first + second + "\n"@, wanted) == lines_beginning(document, wanted),
{
    broadcast use lemma_unbroken;

    lemma_next_line(document, first + second, wanted);
    assert(document + (first + second) =~= document + first + second);
}

proof fn lemma_head(size: (u32, u32), wanted: Seq<char>)
    requires
        declares(wanted),
    ensures
        is_quiet(document_head(size), wanted),
{
    broadcast use lemma_unbroken;

    lemma_decimal(size.0 as nat);
    lemma_decimal(size.1 as nat);
    reveal_strlit("[Script Info]");
    reveal_strlit("ScriptType: v4.00+");
    reveal_strlit("PlayResX: ");
    reveal_strlit("PlayResY: ");
    reveal_strlit("ScaledBorderAndShadow: yes");
    reveal_strlit("WrapStyle: 0");
    reveal_strlit("; CaptionTiming: canonical timeline clock; exact source words or bounded in-cue fallback");
    reveal_strlit("[V4+ Styles]");
    reveal_strlit("Format: Name, Fontname, Fontsize, PrimaryColour, SecondaryColour, OutlineColour, BackColour, Bold, Italic, Underline, StrikeOut, ScaleX, ScaleY, Spacing, Angle, BorderStyle, Outline, Shadow, Alignment, MarginL, MarginR, MarginV, Encoding");
    assert(is_unbroken("[Script Info]"@) && is_unbroken("ScriptType: v4.00+"@) && is_unbroken("PlayResX: "@)
        && is_unbroken("PlayResY: "@) && is_unbroken("ScaledBorderAndShadow: yes"@) && is_unbroken("WrapStyle: 0"@)
        && is_unbroken("; CaptionTiming: canonical timeline clock; exact source words or bounded in-cue fallback"@)
        && is_unbroken("[V4+ Styles]"@)
        && is_unbroken("Format: Name, Fontname, Fontsize, PrimaryColour, SecondaryColour, OutlineColour, BackColour, Bold, Italic, Underline, StrikeOut, ScaleX, ScaleY, Spacing, Angle, BorderStyle, Outline, Shadow, Alignment, MarginL, MarginR, MarginV, Encoding"@)) by {
        reveal(is_unbroken);
    }
    lemma_other_line("[Script Info]"@, wanted);
    let first = "[Script Info]"@ + "\n"@;
    lemma_next_line(first, "ScriptType: v4.00+"@, wanted);
    let second = first + "ScriptType: v4.00+"@ + "\n"@;
    lemma_next_pair(second, "PlayResX: "@, decimal(size.0 as nat), wanted);
    let third = second + "PlayResX: "@ + decimal(size.0 as nat) + "\n"@;
    lemma_next_pair(third, "PlayResY: "@, decimal(size.1 as nat), wanted);
    let fourth = third + "PlayResY: "@ + decimal(size.1 as nat) + "\n"@;
    lemma_next_line(fourth, "ScaledBorderAndShadow: yes"@, wanted);
    let fifth = fourth + "ScaledBorderAndShadow: yes"@ + "\n"@;
    lemma_next_line(fifth, "WrapStyle: 0"@, wanted);
    let sixth = fifth + "WrapStyle: 0"@ + "\n"@;
    lemma_next_line(sixth, "; CaptionTiming: canonical timeline clock; exact source words or bounded in-cue fallback"@, wanted);
    let seventh = sixth + "; CaptionTiming: canonical timeline clock; exact source words or bounded in-cue fallback"@
        + "\n"@;
    lemma_empty_line(seventh, wanted);
    let eighth = seventh + "\n"@;
    lemma_next_line(eighth, "[V4+ Styles]"@, wanted);
    let ninth = eighth + "[V4+ Styles]"@ + "\n"@;
    lemma_next_line(
        ninth,
        "Format: Name, Fontname, Fontsize, PrimaryColour, SecondaryColour, OutlineColour, BackColour, Bold, Italic, Underline, StrikeOut, ScaleX, ScaleY, Spacing, Angle, BorderStyle, Outline, Shadow, Alignment, MarginL, MarginR, MarginV, Encoding"@,
        wanted,
    );
}

/// A line with nothing on it after a piece of a document.
proof fn lemma_empty_line(document: Seq<char>, wanted: Seq<char>)
    requires
        declares(wanted),
        is_complete(document),
    ensures
        is_complete(document + "\n"@),
        lines_beginning(document + "\n"@, wanted) == lines_beginning(document, wanted),
{
    lemma_marks();
    lemma_next_line(document, Seq::empty(), wanted);
    assert(document + Seq::<char>::empty() =~= document);
}

proof fn lemma_card_styles(size: (u32, u32), wanted: Seq<char>)
    requires
        declares(wanted),
    ensures
        is_quiet(card_styles(size), wanted),
{
    broadcast use lemma_unbroken;

    let clean = font_size(preset_of(CaptionPresetId::CleanWhite), size.1 as int);
    lemma_decimal(scaled(clean, 1_080) as nat);
    lemma_decimal(scaled(clean, 680) as nat);
    lemma_decimal(scaled(size.1 as int, 70) as nat);
    reveal_strlit("Style: Title,Inter,");
    reveal_strlit("Style: Speaker,Inter,");
    reveal_strlit("[Events]");
    reveal_strlit("Format: Layer, Start, End, Style, Name, MarginL, MarginR, MarginV, Effect, Text");
    assert(is_unbroken("Style: Title,Inter,"@) && is_unbroken("Style: Speaker,Inter,"@) && is_unbroken("[Events]"@)
        && is_unbroken("Format: Layer, Start, End, Style, Name, MarginL, MarginR, MarginV, Effect, Text"@)
        && is_unbroken(",1"@)
        && is_unbroken(",&H00FFFFFF,&H00FFFFFF,&H90000000,&H50000000,-1,0,0,0,100,100,0,0,1,3,0,8,90,90,"@)
        && is_unbroken(",&H00FFFFFF,&H00FFFFFF,&H80000000,&H50000000,-1,0,0,0,100,100,0,0,3,1,0,7,70,70,70,1"@)) by {
        reveal(is_unbroken);
        reveal_strlit(",1");
        reveal_strlit(",&H00FFFFFF,&H00FFFFFF,&H90000000,&H50000000,-1,0,0,0,100,100,0,0,1,3,0,8,90,90,");
        reveal_strlit(",&H00FFFFFF,&H00FFFFFF,&H80000000,&H50000000,-1,0,0,0,100,100,0,0,3,1,0,7,70,70,70,1");
    }
    let title = "Style: Title,Inter,"@ + decimal(scaled(clean, 1_080) as nat)
        + ",&H00FFFFFF,&H00FFFFFF,&H90000000,&H50000000,-1,0,0,0,100,100,0,0,1,3,0,8,90,90,"@ + decimal(
        scaled(size.1 as int, 70) as nat,
    ) + ",1"@;
    lemma_other_line(title, wanted);
    let first = title + "\n"@;
    let named = "Style: Speaker,Inter,"@;
    let number = decimal(scaled(clean, 680) as nat);
    let rest = ",&H00FFFFFF,&H00FFFFFF,&H80000000,&H50000000,-1,0,0,0,100,100,0,0,3,1,0,7,70,70,70,1"@;
    lemma_next_pair(first, named, number + rest, wanted);
    assert(first + named + (number + rest) =~= first + named + number + rest);
    let second = first + named + number + rest + "\n"@;
    lemma_empty_line(second, wanted);
    let third = second + "\n"@;
    lemma_next_line(third, "[Events]"@, wanted);
    let fourth = third + "[Events]"@ + "\n"@;
    lemma_next_line(
        fourth,
        "Format: Layer, Start, End, Style, Name, MarginL, MarginR, MarginV, Effect, Text"@,
        wanted,
    );
}

// ---------------------------------------------------------------------------------------------
// The document
// ---------------------------------------------------------------------------------------------
/// A subtitle document has exactly one line that declares a look, for each look there is and
/// whatever the project says and the options ask for.
pub proof fn every_look_has_one_style_line(
    m: VideoProjectManifestModel,
    options: AssemblyOptions,
    default: NormalizedRect,
    id: CaptionPresetId,
)
    ensures
        lines_beginning(document_of(m, options, default), declaration(id)) == 1,
{
    let size = dimensions(options.profile, m.layout);
    let cues = shown_cues(m.captions);
    let wanted = declaration(id);
    let place = choose|place: int| 0 <= place < 8 && CaptionPresetId::in_order()[place] == id;
    lemma_has_place(id);
    lemma_declaration(id);
    lemma_head(size, wanted);
    lemma_styles(document_head(size), size, 8, id, place);
    lemma_card_styles(size, wanted);
    let styled = with_styles(document_head(size), size, 8);
    lemma_lines_add(styled, card_styles(size), wanted);
    let events = captions_to(m, cues, default, size, cues.len() as int);
    lemma_captions(m, cues, default, size, cues.len() as int, wanted);
    lemma_lines_add(styled + card_styles(size), events, wanted);
    let titles = titles_to(m.reviewed_scenes, m.reviewed_scenes.len() as int);
    lemma_titles(m.reviewed_scenes, m.reviewed_scenes.len() as int, wanted);
    lemma_lines_add(captioned(m, options, default), titles, wanted);
    lemma_cue_cards(titled(m, options, default), cues, 0, None, wanted);
    lemma_line_cards(titled(m, options, default), m, performed_lines(m), 0, None, wanted);
}

proof fn lemma_has_place(id: CaptionPresetId)
    ensures
        exists|place: int| 0 <= place < 8 && CaptionPresetId::in_order()[place] == id,
{
    let looks = CaptionPresetId::in_order();
    assert(looks[0] == CaptionPresetId::CleanWhite);
    assert(looks[1] == CaptionPresetId::Calm);
    assert(looks[2] == CaptionPresetId::Kinetic);
    assert(looks[3] == CaptionPresetId::BoldPop);
    assert(looks[4] == CaptionPresetId::Highlight);
    assert(looks[5] == CaptionPresetId::Karaoke);
    assert(looks[6] == CaptionPresetId::Typewriter);
    assert(looks[7] == CaptionPresetId::Podcast);
}

/// The caption theme shows nowhere: options that agree on the profile and on the cards give one
/// document, or one reason why there is none.
pub proof fn the_theme_does_not_show(
    m: VideoProjectManifestModel,
    options: AssemblyOptions,
    other: AssemblyOptions,
    default: NormalizedRect,
)
    requires
        options.profile == other.profile,
        options.include_title_cards == other.include_title_cards,
        options.include_speaker_cards == other.include_speaker_cards,
    ensures
        document_of(m, options, default) == document_of(m, other, default),
        document_fault(m, options) == document_fault(m, other),
{
}

} // verus!
