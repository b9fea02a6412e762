//! The subtitle document of a timeline: captions, titles and the names of those who speak.

use crate::canvas::{dimensions, profile_dimensions, AssemblyOptions};
use crate::caption_layout::{
    ass_caption_style, ass_geometry_override, caption_font_size, caption_geometry_for_page, caption_page_text,
    font_size, geometry_mark, measured, page_geometry, page_text, style_line, CaptionRenderGeometry, Emphasis,
};
use crate::caption_pages::{
    cue_fault, cue_pages, cue_pages_fit_lines, cue_preset, every_preset_has_room, planned_caption_pages_for_cue,
};
use crate::caption_presets::{caption_preset, preset_of, AssCaptionPreset, CaptionRevealMode};
use crate::captions::{larger, smaller, CaptionPage, CaptionPageModel, TimedCaptionToken, TimedCaptionTokenModel};
use crate::decimals::{scale, scaled};
use crate::error::{or_else, refusal, unless, Fault, VideoResult};
use crate::manifest::{
    CaptionCue, CaptionCueModel, CastMember, DialogueTurn, DialogueTurnModel, NormalizedRect, ReviewedScene,
    ReviewedSceneModel, TimelineClip, TimelineClipModel, TrackKind, VideoProjectManifest, VideoProjectManifestModel,
};
use crate::model::{find_last, find_last_named, what_is_found_last_bears_the_name, Model, Named};
use crate::notation::{ass_dialogue, ass_time, clock_of, dialogue_of, escape, escaped, truncated, Place};
use crate::order::{lemma_text_ranks, rank, ranked, ranked_is_a_sorted_permutation, text_before, text_less, Ranked};
use crate::text::{chars_in, decimal, decimal_text, text_concat, text_eq, trimmed};
use crate::time::{addition_fault, on_clock, Microseconds, Validate};
use crate::validate::CaptionPresetId;
use vstd::math::min;
use vstd::prelude::*;

verus! {

// ---------------------------------------------------------------------------------------------
// Instants at which a page changes
// ---------------------------------------------------------------------------------------------
/// Instants in order, with one more. An instant is listed once.
pub open spec fn with_instant(instants: Seq<i64>, instant: i64) -> Seq<i64>
    decreases instants.len(),
{
    if instants.len() == 0 || instants.last() < instant {
        instants.push(instant)
    } else if instants.last() == instant {
        instants
    } else {
        with_instant(instants.drop_last(), instant).push(instants.last())
    }
}

/// An instant moved onto a page.
pub open spec fn on_page(page: CaptionPageModel, instant: Microseconds) -> i64 {
    smaller(larger(instant.0 as int, page.start_us.0 as int), page.end_us.0 as int) as i64
}

/// The instants at which a page changes: its ends, where its first words start and, where asked for,
/// where they end.
pub open spec fn marks_to(page: CaptionPageModel, with_ends: bool, count: int) -> Seq<i64>
    decreases count,
{
    if count <= 0 {
        with_instant(seq![page.start_us.0], page.end_us.0)
    } else {
        let token = page.tokens[count - 1];
        let begun = with_instant(marks_to(page, with_ends, count - 1), on_page(page, token.start_us));
        if with_ends {
            with_instant(begun, on_page(page, token.end_us))
        } else {
            begun
        }
    }
}

proof fn lemma_with_instant(instants: Seq<i64>, instant: i64, place: int)
    requires
        0 <= place <= instants.len(),
        place == 0 || instants[place - 1] <= instant,
        forall|i: int| place <= i < instants.len() ==> #[trigger] instants[i] > instant,
    ensures
        place > 0 && instants[place - 1] == instant ==> with_instant(instants, instant) == instants,
        place == 0 || instants[place - 1] < instant ==> with_instant(instants, instant) =~= instants.insert(
            place,
            instant,
        ),
    decreases instants.len(),
{
    if place < instants.len() {
        assert(instants[instants.len() - 1] == instants.last());
        let fewer = instants.drop_last();
        assert forall|i: int| place <= i < fewer.len() implies #[trigger] fewer[i] > instant by {
            assert(fewer[i] == instants[i]);
        }
        lemma_with_instant(fewer, instant, place);
        assert(fewer.push(instants.last()) =~= instants);
    }
}

fn put_instant(instants: &mut Vec<i64>, instant: i64)
    ensures
        final(instants)@ == with_instant(old(instants)@, instant),
{
    let ghost before = instants@;
    let mut place: usize = instants.len();
    while place > 0 && instants[place - 1] > instant
        invariant
            instants@ == before,
            place <= instants.len(),
            forall|i: int| place <= i < before.len() ==> #[trigger] before[i] > instant,
        decreases place,
    {
        place -= 1;
    }
    proof {
        lemma_with_instant(before, instant, place as int);
    }
    if place == 0 || instants[place - 1] < instant {
        instants.insert(place, instant);
    }
}

fn move_onto(page: &CaptionPage, instant: Microseconds) -> (moved: i64)
    ensures
        moved == on_page(page.deep_view(), instant),
{
    let later: i64 = if instant.0 >= page.start_us.0 {
        instant.0
    } else {
        page.start_us.0
    };
    if later <= page.end_us.0 {
        later
    } else {
        page.end_us.0
    }
}

fn find_marks(page: &CaptionPage, with_ends: bool) -> (marks: Vec<i64>)
    ensures
        marks@ == marks_to(page.deep_view(), with_ends, page.tokens.len() as int),
{
    let ghost model = page.deep_view();
    let mut marks: Vec<i64> = Vec::new();
    marks.push(page.start_us.0);
    assert(marks@ =~= seq![page.start_us.0]);
    put_instant(&mut marks, page.end_us.0);
    let mut place: usize = 0;
    while place < page.tokens.len()
        invariant
            place <= page.tokens.len(),
            model == page.deep_view(),
            marks@ == marks_to(model, with_ends, place as int),
        decreases page.tokens.len() - place,
    {
        assert(model.tokens[place as int] == page.tokens[place as int].deep_view());
        put_instant(&mut marks, move_onto(page, page.tokens[place].start_us));
        if with_ends {
            put_instant(&mut marks, move_onto(page, page.tokens[place].end_us));
        }
        place += 1;
    }
    marks
}

// ---------------------------------------------------------------------------------------------
// The events of a page
// ---------------------------------------------------------------------------------------------
/// The first token, from one on, that is said at an instant.
pub open spec fn said_from(tokens: Seq<TimedCaptionTokenModel>, instant: int, place: int) -> Option<int>
    decreases tokens.len() - place,
{
    if place < 0 || place >= tokens.len() {
        None
    } else if tokens[place].start_us.0 <= instant < tokens[place].end_us.0 {
        Some(place)
    } else {
        said_from(tokens, instant, place + 1)
    }
}

/// How many tokens, from one on, have begun by an instant before one has not.
pub open spec fn begun_from(tokens: Seq<TimedCaptionTokenModel>, instant: int, place: int) -> int
    decreases tokens.len() - place,
{
    if place < 0 || place >= tokens.len() || tokens[place].start_us.0 > instant {
        place
    } else {
        begun_from(tokens, instant, place + 1)
    }
}

/// The middle of two instants.
pub open spec fn midpoint(start: int, end: int) -> int {
    start + truncated(end - start, 2)
}

/// What a page emphasises between two of its marks.
pub open spec fn emphasis_at(tokens: Seq<TimedCaptionTokenModel>, reveal: CaptionRevealMode, instant: int) -> Emphasis {
    Emphasis {
        active: if reveal == CaptionRevealMode::ActiveWord {
            said_from(tokens, instant, 0)
        } else {
            None
        },
        spoken: if reveal == CaptionRevealMode::Karaoke {
            begun_from(tokens, instant, 0)
        } else {
            0
        },
        visible: if reveal == CaptionRevealMode::Typewriter {
            begun_from(tokens, instant, 0)
        } else {
            tokens.len() as int
        },
    }
}

/// The event of a page between two of its marks. There is none where both read alike, nor where no
/// word is shown.
pub open spec fn paced_event(
    page: CaptionPageModel,
    preset: AssCaptionPreset,
    speaker: Seq<char>,
    lead: Seq<char>,
    start: int,
    end: int,
) -> Seq<char> {
    let emphasis = emphasis_at(page.tokens, preset.reveal, midpoint(start, end));
    if clock_of(start) == clock_of(end) || emphasis.visible == 0 {
        Seq::empty()
    } else {
        dialogue_of(
            10,
            start,
            end,
            preset.ass_name@,
            speaker,
            lead + page_text(page.tokens, preset, emphasis),
        )
    }
}

/// The events between the first marks of a page.
pub open spec fn paced_to(
    page: CaptionPageModel,
    preset: AssCaptionPreset,
    speaker: Seq<char>,
    lead: Seq<char>,
    marks: Seq<i64>,
    count: int,
) -> Seq<char>
    decreases count,
{
    if count <= 0 {
        Seq::empty()
    } else {
        paced_to(page, preset, speaker, lead, marks, count - 1) + paced_event(
            page,
            preset,
            speaker,
            lead,
            marks[count - 1] as int,
            marks[count] as int,
        )
    }
}

/// How a page comes in. A page that is on the first frame stands still.
pub open spec fn animation_of(id: CaptionPresetId, start: int) -> Seq<char> {
    if start == 0 {
        ""@
    } else {
        match id {
            CaptionPresetId::Calm => "{\\fad(120,160)}"@,
            CaptionPresetId::Kinetic => "{\\fad(40,80)\\fscx104\\fscy104\\t(0,140,\\fscx100\\fscy100)}"@,
            CaptionPresetId::Podcast => "{\\fad(100,160)}"@,
            _ => ""@,
        }
    }
}

/// The events of a page.
pub open spec fn page_events(
    page: CaptionPageModel,
    preset: AssCaptionPreset,
    speaker: Seq<char>,
    lead: Seq<char>,
) -> Seq<char> {
    if preset.reveal == CaptionRevealMode::Page {
        dialogue_of(
            10,
            page.start_us.0 as int,
            page.end_us.0 as int,
            preset.ass_name@,
            speaker,
            lead + animation_of(preset.id, page.start_us.0 as int) + page_text(
                page.tokens,
                preset,
                emphasis_at(page.tokens, preset.reveal, 0),
            ),
        )
    } else {
        let marks = marks_to(
            page,
            preset.reveal == CaptionRevealMode::ActiveWord,
            page.tokens.len() as int,
        );
        paced_to(page, preset, speaker, lead, marks, marks.len() - 1)
    }
}

fn find_said(tokens: &Vec<TimedCaptionToken>, instant: i64) -> (result: Option<usize>)
    ensures
        match result {
            Some(place) => said_from(tokens.deep_view(), instant as int, 0) == Some(place as int),
            None => said_from(tokens.deep_view(), instant as int, 0) is None,
        },
{
    let ghost model = tokens.deep_view();
    let mut place: usize = 0;
    while place < tokens.len()
        invariant
            place <= tokens.len(),
            model == tokens.deep_view(),
            said_from(model, instant as int, 0) == said_from(model, instant as int, place as int),
        decreases tokens.len() - place,
    {
        assert(model[place as int] == tokens[place as int].deep_view());
        if tokens[place].start_us.0 <= instant && instant < tokens[place].end_us.0 {
            return Some(place);
        }
        place += 1;
    }
    None
}

fn count_begun(tokens: &Vec<TimedCaptionToken>, instant: i64) -> (count: usize)
    ensures
        count == begun_from(tokens.deep_view(), instant as int, 0),
        count <= tokens.len(),
{
    let ghost model = tokens.deep_view();
    let mut place: usize = 0;
    while place < tokens.len()
        invariant
            place <= tokens.len(),
            model == tokens.deep_view(),
            begun_from(model, instant as int, 0) == begun_from(model, instant as int, place as int),
        decreases tokens.len() - place,
    {
        assert(model[place as int] == tokens[place as int].deep_view());
        if tokens[place].start_us.0 > instant {
            return place;
        }
        place += 1;
    }
    place
}

fn write_paced_event(
    page: &CaptionPage,
    preset: &AssCaptionPreset,
    speaker: &str,
    lead: &str,
    start: i64,
    end: i64,
) -> (event: String)
    requires
        measured(page.tokens.deep_view(), *preset),
    ensures
        event@ == paced_event(page.deep_view(), *preset, speaker@, lead@, start as int, end as int),
{
    let ghost tokens = page.tokens.deep_view();
    assert(tokens.len() == page.tokens.len());
    let from: String = ass_time(Microseconds(start));
    let to: String = ass_time(Microseconds(end));
    let middle: i64 = (start as i128 + (end as i128 - start as i128) / 2) as i64;
    let active: Option<usize> = match preset.reveal {
        CaptionRevealMode::ActiveWord => find_said(&page.tokens, middle),
        _ => None,
    };
    let begun: usize = count_begun(&page.tokens, middle);
    let spoken: usize = match preset.reveal {
        CaptionRevealMode::Karaoke => begun,
        _ => 0,
    };
    let visible: usize = match preset.reveal {
        CaptionRevealMode::Typewriter => begun,
        _ => page.tokens.len(),
    };
    if text_eq(from.as_str(), to.as_str()) || visible == 0 {
        let nothing: String = String::new();
        assert(nothing@ =~= Seq::empty());
        return nothing;
    }
    let said: String = caption_page_text(page, preset, active, spoken, visible);
    let text: String = text_concat(lead, said.as_str());
    ass_dialogue(10, Microseconds(start), Microseconds(end), preset.ass_name, speaker, text.as_str())
}

fn caption_page_animation(id: CaptionPresetId, start: Microseconds) -> (text: &'static str)
    ensures
        text@ == animation_of(id, start.0 as int),
{
    if start.0 == 0 {
        return "";
    }
    match id {
        CaptionPresetId::Calm => "{\\fad(120,160)}",
        CaptionPresetId::Kinetic => "{\\fad(40,80)\\fscx104\\fscy104\\t(0,140,\\fscx100\\fscy100)}",
        CaptionPresetId::Podcast => "{\\fad(100,160)}",
        _ => "",
    }
}

fn write_page_events(page: &CaptionPage, preset: &AssCaptionPreset, speaker: &str, lead: &str) -> (events: String)
    requires
        measured(page.tokens.deep_view(), *preset),
    ensures
        events@ == page_events(page.deep_view(), *preset, speaker@, lead@),
{
    let ghost model = page.deep_view();
    assert(model.tokens.len() == page.tokens.len());
    match preset.reveal {
        CaptionRevealMode::Page => {
            let animation: &str = caption_page_animation(preset.id, page.start_us);
            let said: String = caption_page_text(page, preset, None, 0, page.tokens.len());
            let mut text: String = text_concat(lead, animation);
            text.append(said.as_str());
            ass_dialogue(10, page.start_us, page.end_us, preset.ass_name, speaker, text.as_str())
        },
        _ => {
            let with_ends: bool = match preset.reveal {
                CaptionRevealMode::ActiveWord => true,
                _ => false,
            };
            let marks: Vec<i64> = find_marks(page, with_ends);
            let mut events: String = String::new();
            let mut place: usize = 1;
            assert(events@ =~= Seq::empty());
            while place < marks.len()
                invariant
                    1 <= place,
                    place <= marks.len() || place == 1,
                    model == page.deep_view(),
                    measured(page.tokens.deep_view(), *preset),
                    events@ == paced_to(model, *preset, speaker@, lead@, marks@, place - 1),
                decreases marks.len() - place,
            {
                let event: String = write_paced_event(page, preset, speaker, lead, marks[place - 1], marks[place]);
                events.append(event.as_str());
                place += 1;
            }
            assert(events@ == paced_to(model, *preset, speaker@, lead@, marks@, marks@.len() - 1));
            events
        },
    }
}

// ---------------------------------------------------------------------------------------------
// The events of the captions
// ---------------------------------------------------------------------------------------------
/// Where a page of a cue stands and how large its letters are.
pub open spec fn cue_geometry(
    m: VideoProjectManifestModel,
    cue: CaptionCueModel,
    default: NormalizedRect,
    page: CaptionPageModel,
) -> CaptionRenderGeometry {
    page_geometry(m.layout, cue.scene_id, default, cue_preset(cue), page.tokens)
}

pub open spec fn speaker_of(cue: CaptionCueModel) -> Seq<char> {
    match cue.speaker_id {
        Some(speaker) => speaker,
        None => ""@,
    }
}

/// The events of the first pages of a cue.
pub open spec fn cue_events_to(
    m: VideoProjectManifestModel,
    cue: CaptionCueModel,
    default: NormalizedRect,
    size: (u32, u32),
    count: int,
) -> Seq<char>
    decreases count,
{
    if count <= 0 {
        Seq::empty()
    } else {
        let page = cue_pages(m, cue)[count - 1];
        cue_events_to(m, cue, default, size, count - 1) + page_events(
            page,
            cue_preset(cue),
            speaker_of(cue),
            geometry_mark(cue_geometry(m, cue, default, page), size.0 as int, size.1 as int),
        )
    }
}

pub open spec fn cue_events(
    m: VideoProjectManifestModel,
    cue: CaptionCueModel,
    default: NormalizedRect,
    size: (u32, u32),
) -> Seq<char> {
    cue_events_to(m, cue, default, size, cue_pages(m, cue).len() as int)
}

pub open spec fn cue_faults_from(m: VideoProjectManifestModel, cues: Seq<CaptionCueModel>, place: int) -> Option<Fault>
    decreases cues.len() - place,
{
    if place < 0 || place >= cues.len() {
        None
    } else {
        or_else(cue_fault(m, cues[place]), cue_faults_from(m, cues, place + 1))
    }
}

/// The events of the first cues.
pub open spec fn captions_to(
    m: VideoProjectManifestModel,
    cues: Seq<CaptionCueModel>,
    default: NormalizedRect,
    size: (u32, u32),
    count: int,
) -> Seq<char>
    decreases count,
{
    if count <= 0 {
        Seq::empty()
    } else {
        captions_to(m, cues, default, size, count - 1) + cue_events(m, cues[count - 1], default, size)
    }
}

pub open spec fn canvas_fits(m: VideoProjectManifestModel) -> bool {
    &&& 0 < m.layout.canvas.width <= 16_384
    &&& 0 < m.layout.canvas.height <= 16_384
}

/// A valid project has a canvas of a size that can be rendered.
pub proof fn lemma_canvas(m: VideoProjectManifestModel)
    requires
        VideoProjectManifest::fault_of(m) is None,
    ensures
        canvas_fits(m),
{
}

/// Where a cue pages, each of its pages can be laid out.
pub proof fn lemma_cue_page_measured(m: VideoProjectManifestModel, cue: CaptionCueModel, place: int)
    requires
        cue_fault(m, cue) is None,
        0 <= place < cue_pages(m, cue).len(),
    ensures
        measured(cue_pages(m, cue)[place].tokens, cue_preset(cue)),
{
    every_preset_has_room(CaptionPresetId::named(cue.style_id)->0);
    cue_pages_fit_lines(m, cue, place);
}

fn write_cue_events(manifest: &VideoProjectManifest, caption: &CaptionCue, default: NormalizedRect, size: (u32, u32)) -> (
result: VideoResult<String>)
    requires
        canvas_fits(manifest.deep_view()),
    ensures
        refusal(result) == cue_fault(manifest.deep_view(), caption.deep_view()),
        result matches Ok(events) ==> events@ == cue_events(
            manifest.deep_view(),
            caption.deep_view(),
            default,
            size,
        ),
{
    let ghost m = manifest.deep_view();
    let ghost cue = caption.deep_view();
    let planned: (AssCaptionPreset, Vec<CaptionPage>) = planned_caption_pages_for_cue(manifest, caption)?;
    let preset: AssCaptionPreset = planned.0;
    let pages: Vec<CaptionPage> = planned.1;
    let speaker: &str = match &caption.speaker_id {
        Some(name) => name.as_str(),
        None => "",
    };
    assert(speaker@ == speaker_of(cue));
    let mut events: String = String::new();
    let mut place: usize = 0;
    assert(events@ =~= Seq::empty());
    while place < pages.len()
        invariant
            place <= pages.len(),
            m == manifest.deep_view(),
            cue == caption.deep_view(),
            canvas_fits(m),
            cue_fault(m, cue) is None,
            preset == cue_preset(cue),
            pages.deep_view() == cue_pages(m, cue),
            speaker@ == speaker_of(cue),
            events@ == cue_events_to(m, cue, default, size, place as int),
        decreases pages.len() - place,
    {
        let page: &CaptionPage = &pages[place];
        proof {
            assert(pages.deep_view()[place as int] == page.deep_view());
            lemma_cue_page_measured(m, cue, place as int);
        }
        let geometry: CaptionRenderGeometry = caption_geometry_for_page(
            &manifest.layout,
            &caption.scene_id,
            default,
            &preset,
            page,
        );
        let lead: String = ass_geometry_override(geometry, size.0, size.1);
        let shown: String = write_page_events(page, &preset, speaker, lead.as_str());
        events.append(shown.as_str());
        place += 1;
    }
    assert(pages.deep_view().len() == pages.len());
    Ok(events)
}

/// A cue that is shown before another by where it starts, then by where it ends, then by identifier.
pub struct ShownCue {
    pub cue: CaptionCue,
}

impl DeepView for ShownCue {
    type V = CaptionCueModel;

    open spec fn deep_view(&self) -> CaptionCueModel {
        self.cue.deep_view()
    }
}

/// Whether a cue is shown before another.
pub open spec fn shown_before(left: CaptionCueModel, right: CaptionCueModel) -> bool {
    left.range.start() < right.range.start() || (left.range.start() == right.range.start() && (left.range.end()
        < right.range.end() || (left.range.end() == right.range.end() && text_less(left.id, right.id))))
}

impl Ranked for ShownCue {
    open spec fn before(left: CaptionCueModel, right: CaptionCueModel) -> bool {
        shown_before(left, right)
    }

    fn comes_before(&self, other: &Self) -> (result: bool) {
        let left: &CaptionCue = &self.cue;
        let right: &CaptionCue = &other.cue;
        left.range.start_us.0 < right.range.start_us.0 || (left.range.start_us.0 == right.range.start_us.0 && (
        left.range.end_us.0 < right.range.end_us.0 || (left.range.end_us.0 == right.range.end_us.0 && text_before(
            left.id.as_str(),
            right.id.as_str(),
        ))))
    }

    proof fn before_is_an_order(a: CaptionCueModel, b: CaptionCueModel, c: CaptionCueModel) {
        lemma_text_ranks(a.id, b.id, c.id);
    }
}

/// The cues in the order in which they are shown.
pub open spec fn shown_cues(cues: Seq<CaptionCueModel>) -> Seq<CaptionCueModel> {
    ranked::<ShownCue>(cues)
}

fn order_cues(captions: &Vec<CaptionCue>) -> (result: Vec<ShownCue>)
    ensures
        result.deep_view() == shown_cues(captions.deep_view()),
{
    let mut cues: Vec<ShownCue> = Vec::new();
    let mut place: usize = 0;
    while place < captions.len()
        invariant
            place <= captions.len(),
            cues.len() == place,
            forall|i: int| 0 <= i < place ==> (#[trigger] cues[i]).deep_view() == captions[i].deep_view(),
        decreases captions.len() - place,
    {
        cues.push(ShownCue { cue: captions[place].duplicate() });
        place += 1;
    }
    assert(cues.deep_view() =~= captions.deep_view());
    rank(cues)
}

fn write_captions(manifest: &VideoProjectManifest, cues: &Vec<ShownCue>, default: NormalizedRect, size: (u32, u32)) -> (
result: VideoResult<String>)
    requires
        canvas_fits(manifest.deep_view()),
    ensures
        refusal(result) == cue_faults_from(manifest.deep_view(), cues.deep_view(), 0),
        result matches Ok(events) ==> events@ == captions_to(
            manifest.deep_view(),
            cues.deep_view(),
            default,
            size,
            cues.len() as int,
        ),
{
    let ghost m = manifest.deep_view();
    let ghost model = cues.deep_view();
    let mut events: String = String::new();
    let mut place: usize = 0;
    assert(events@ =~= Seq::empty());
    while place < cues.len()
        invariant
            place <= cues.len(),
            m == manifest.deep_view(),
            model == cues.deep_view(),
            canvas_fits(m),
            events@ == captions_to(m, model, default, size, place as int),
            cue_faults_from(m, model, 0) == cue_faults_from(m, model, place as int),
        decreases cues.len() - place,
    {
        assert(model[place as int] == cues[place as int].deep_view());
        let shown: String = write_cue_events(manifest, &cues[place].cue, default, size)?;
        events.append(shown.as_str());
        place += 1;
    }
    Ok(events)
}

// ---------------------------------------------------------------------------------------------
// Titles and speakers
// ---------------------------------------------------------------------------------------------
/// How long the title of a scene stands.
pub open spec fn title_end(scene: ReviewedSceneModel) -> int {
    scene.timeline_start_us.0 + smaller(scene.timeline_duration_us.0 as int, 1_800_000)
}

pub open spec fn title_faults_from(scenes: Seq<ReviewedSceneModel>, place: int) -> Option<Fault>
    decreases scenes.len() - place,
{
    if place < 0 || place >= scenes.len() {
        None
    } else {
        or_else(
            unless(on_clock(title_end(scenes[place])), addition_fault()),
            title_faults_from(scenes, place + 1),
        )
    }
}

/// The titles of the first scenes.
pub open spec fn titles_to(scenes: Seq<ReviewedSceneModel>, count: int) -> Seq<char>
    decreases count,
{
    if count <= 0 {
        Seq::empty()
    } else {
        let scene = scenes[count - 1];
        titles_to(scenes, count - 1) + dialogue_of(
            20,
            scene.timeline_start_us.0 as int,
            title_end(scene),
            "Title"@,
            ""@,
            "{\\fad(100,220)}"@ + escaped(Place::Subtitle, scene.title),
        )
    }
}

fn write_titles(scenes: &Vec<ReviewedScene>) -> (result: VideoResult<String>)
    ensures
        refusal(result) == title_faults_from(scenes.deep_view(), 0),
        result matches Ok(events) ==> events@ == titles_to(scenes.deep_view(), scenes.len() as int),
{
    let ghost model = scenes.deep_view();
    let mut events: String = String::new();
    let mut place: usize = 0;
    assert(events@ =~= Seq::empty());
    while place < scenes.len()
        invariant
            place <= scenes.len(),
            model == scenes.deep_view(),
            events@ == titles_to(model, place as int),
            title_faults_from(model, 0) == title_faults_from(model, place as int),
        decreases scenes.len() - place,
    {
        let scene: &ReviewedScene = &scenes[place];
        assert(model[place as int] == scene.deep_view());
        let length: i64 = if scene.timeline_duration_us.0 <= 1_800_000 {
            scene.timeline_duration_us.0
        } else {
            1_800_000
        };
        let end: Microseconds = scene.timeline_start_us.checked_add(Microseconds(length))?;
        let title: String = escape(Place::Subtitle, scene.title.as_str());
        let text: String = text_concat("{\\fad(100,220)}", title.as_str());
        let event: String = ass_dialogue(20, scene.timeline_start_us, end, "Title", "", text.as_str());
        events.append(event.as_str());
        place += 1;
    }
    Ok(events)
}

/// The card that names who speaks.
pub open spec fn speaker_card(start: int, end: int, name: Seq<char>) -> Seq<char> {
    dialogue_of(30, start, end, "Speaker"@, name, "{\\fad(80,180)}"@ + escaped(Place::Subtitle, name))
}

fn write_card(start: Microseconds, end: Microseconds, name: &str) -> (card: String)
    ensures
        card@ == speaker_card(start.0 as int, end.0 as int, name@),
{
    let shown: String = escape(Place::Subtitle, name);
    let text: String = text_concat("{\\fad(80,180)}", shown.as_str());
    ass_dialogue(30, start, end, "Speaker", name, text.as_str())
}

/// Whom a cue names, if anyone.
pub open spec fn named_speaker(cue: CaptionCueModel) -> Option<Seq<char>> {
    match cue.speaker_id {
        Some(speaker) => if trimmed(speaker).len() > 0 {
            Some(trimmed(speaker))
        } else {
            None
        },
        None => None,
    }
}

/// Whether a cue gets a card: it names someone, and not whom the last card named.
pub open spec fn gets_card(cue: CaptionCueModel, prior: Option<Seq<char>>) -> bool {
    named_speaker(cue) is Some && named_speaker(cue) != prior
}

pub open spec fn cue_cards_fault_from(cues: Seq<CaptionCueModel>, place: int, prior: Option<Seq<char>>) -> Option<Fault>
    decreases cues.len() - place,
{
    if place < 0 || place >= cues.len() {
        None
    } else if gets_card(cues[place], prior) {
        or_else(
            unless(on_clock(cues[place].range.start() + 1_600_000), addition_fault()),
            cue_cards_fault_from(cues, place + 1, named_speaker(cues[place])),
        )
    } else {
        cue_cards_fault_from(cues, place + 1, prior)
    }
}

/// The cards of the cues from a place on, behind a document.
pub open spec fn cue_cards_from(document: Seq<char>, cues: Seq<CaptionCueModel>, place: int, prior: Option<Seq<char>>) -> Seq<
    char,
>
    decreases cues.len() - place,
{
    if place < 0 || place >= cues.len() {
        document
    } else if gets_card(cues[place], prior) {
        let range = cues[place].range;
        cue_cards_from(
            document + speaker_card(
                range.start(),
                smaller(range.start() + 1_600_000, range.end()),
                named_speaker(cues[place])->0,
            ),
            cues,
            place + 1,
            named_speaker(cues[place]),
        )
    } else {
        cue_cards_from(document, cues, place + 1, prior)
    }
}

/// Names who speaks each time the speaker of the captions changes.
fn append_speaker_cards(document: &mut String, cues: &Vec<ShownCue>) -> (result: VideoResult<()>)
    ensures
        refusal(result) == cue_cards_fault_from(cues.deep_view(), 0, None),
        result is Ok ==> final(document)@ == cue_cards_from(old(document)@, cues.deep_view(), 0, None),
{
    let ghost model = cues.deep_view();
    let ghost whole = cue_cards_from(document@, model, 0, None);
    let mut prior: Option<String> = None;
    let mut place: usize = 0;
    while place < cues.len()
        invariant
            place <= cues.len(),
            model == cues.deep_view(),
            whole == cue_cards_from(old(document)@, model, 0, None),
            whole == cue_cards_from(document@, model, place as int, prior.deep_view()),
            cue_cards_fault_from(model, 0, None) == cue_cards_fault_from(model, place as int, prior.deep_view()),
        decreases cues.len() - place,
    {
        let cue: &CaptionCue = &cues[place].cue;
        assert(model[place as int] == cue.deep_view());
        if let Some(speaker) = &cue.speaker_id {
            let name: &str = speaker.as_str().trim();
            let repeated: bool = match &prior {
                Some(last) => text_eq(last.as_str(), name),
                None => false,
            };
            if chars_in(name) > 0 && !repeated {
                let limit: Microseconds = cue.range.start_us.checked_add(Microseconds(1_600_000))?;
                let card: String = write_card(cue.range.start_us, limit.earlier(cue.range.end_us), name);
                document.append(card.as_str());
                prior = Some(String::from_str(name));
            }
        }
        place += 1;
    }
    Ok(())
}

/// A line of dialogue as a clip plays it.
pub struct PlacedLine {
    pub start_us: Microseconds,
    pub duration_us: Microseconds,
    pub character_id: String,
}

/// What a [`PlacedLine`] holds, as mathematical values.
pub struct PlacedLineModel {
    pub start_us: Microseconds,
    pub duration_us: Microseconds,
    pub character_id: Seq<char>,
}

impl DeepView for PlacedLine {
    type V = PlacedLineModel;

    open spec fn deep_view(&self) -> PlacedLineModel {
        PlacedLineModel {
            start_us: self.start_us,
            duration_us: self.duration_us,
            character_id: self.character_id@,
        }
    }
}

/// Lines are ranked by where they start, then by how long they are.
impl Ranked for PlacedLine {
    open spec fn before(left: PlacedLineModel, right: PlacedLineModel) -> bool {
        left.start_us.0 < right.start_us.0 || (left.start_us.0 == right.start_us.0 && left.duration_us.0
            < right.duration_us.0)
    }

    fn comes_before(&self, other: &Self) -> (result: bool) {
        self.start_us.0 < other.start_us.0 || (self.start_us.0 == other.start_us.0 && self.duration_us.0
            < other.duration_us.0)
    }

    proof fn before_is_an_order(a: PlacedLineModel, b: PlacedLineModel, c: PlacedLineModel) {
    }
}

/// The turn of dialogue that a clip performs; of several of an identifier the last.
pub open spec fn turn_of(m: VideoProjectManifestModel, clip: TimelineClipModel) -> Option<DialogueTurnModel> {
    match clip.turn_id {
        Some(turn_id) => find_last::<DialogueTurn>(m.dialogue, turn_id),
        None => None,
    }
}

/// The lines that the clips of a track perform, from one on, behind those before them.
pub open spec fn clip_lines_from(
    m: VideoProjectManifestModel,
    clips: Seq<TimelineClipModel>,
    place: int,
    lines: Seq<PlacedLineModel>,
) -> Seq<PlacedLineModel>
    decreases clips.len() - place,
{
    if place < 0 || place >= clips.len() {
        lines
    } else {
        match turn_of(m, clips[place]) {
            Some(turn) => clip_lines_from(
                m,
                clips,
                place + 1,
                lines.push(
                    PlacedLineModel {
                        start_us: clips[place].timeline_start_us,
                        duration_us: clips[place].timeline_duration_us,
                        character_id: turn.character_id,
                    },
                ),
            ),
            None => clip_lines_from(m, clips, place + 1, lines),
        }
    }
}

/// The lines that the audio tracks perform, from one on, behind those before them.
pub open spec fn lines_from(m: VideoProjectManifestModel, track: int, lines: Seq<PlacedLineModel>) -> Seq<PlacedLineModel>
    decreases m.tracks.len() - track,
{
    if track < 0 || track >= m.tracks.len() {
        lines
    } else if m.tracks[track].kind == TrackKind::Audio {
        lines_from(m, track + 1, clip_lines_from(m, m.tracks[track].clips, 0, lines))
    } else {
        lines_from(m, track + 1, lines)
    }
}

/// The lines that a timeline performs, in the order in which they are heard.
pub open spec fn performed_lines(m: VideoProjectManifestModel) -> Seq<PlacedLineModel> {
    ranked::<PlacedLine>(lines_from(m, 0, Seq::empty()))
}

fn collect_lines(manifest: &VideoProjectManifest) -> (lines: Vec<PlacedLine>)
    ensures
        lines.deep_view() == performed_lines(manifest.deep_view()),
{
    let ghost m = manifest.deep_view();
    let ghost whole = lines_from(m, 0, Seq::empty());
    let mut lines: Vec<PlacedLine> = Vec::new();
    let mut track: usize = 0;
    assert(lines.deep_view() =~= Seq::empty());
    while track < manifest.tracks.len()
        invariant
            track <= manifest.tracks.len(),
            m == manifest.deep_view(),
            whole == lines_from(m, track as int, lines.deep_view()),
        decreases manifest.tracks.len() - track,
    {
        assert(m.tracks[track as int] == manifest.tracks[track as int].deep_view());
        if manifest.tracks[track].kind == TrackKind::Audio {
            let clips: &Vec<TimelineClip> = &manifest.tracks[track].clips;
            let ghost model = clips.deep_view();
            let ghost reached = clip_lines_from(m, model, 0, lines.deep_view());
            let mut place: usize = 0;
            while place < clips.len()
                invariant
                    place <= clips.len(),
                    m == manifest.deep_view(),
                    model == clips.deep_view(),
                    reached == clip_lines_from(m, model, place as int, lines.deep_view()),
                decreases clips.len() - place,
            {
                let clip: &TimelineClip = &clips[place];
                assert(model[place as int] == clip.deep_view());
                if let Some(turn_id) = &clip.turn_id {
                    if let Some(turn) = find_last_named(&manifest.dialogue, turn_id.as_str()) {
                        let ghost before = lines.deep_view();
                        let line = PlacedLine {
                            start_us: clip.timeline_start_us,
                            duration_us: clip.timeline_duration_us,
                            character_id: turn.character_id.clone(),
                        };
                        let ghost own = line.deep_view();
                        lines.push(line);
                        assert(lines.deep_view() =~= before.push(own));
                    }
                }
                place += 1;
            }
        }
        track += 1;
    }
    rank(lines)
}

/// The name of a character: as the last member of that identifier is shown, or the identifier itself.
pub open spec fn shown_name(m: VideoProjectManifestModel, character_id: Seq<char>) -> Seq<char> {
    match find_last::<CastMember>(m.cast, character_id) {
        Some(member) => trimmed(member.display_name),
        None => trimmed(character_id),
    }
}

/// Whether a line may get a card: another character speaks than on the last card, and has a name.
pub open spec fn introduces(m: VideoProjectManifestModel, line: PlacedLineModel, prior: Option<Seq<char>>) -> bool {
    prior != Some(line.character_id) && shown_name(m, line.character_id).len() > 0
}

/// When the card of a line ends: with the line, or once it has been read.
pub open spec fn card_end(line: PlacedLineModel) -> int {
    smaller(line.start_us.0 + 1_800_000, line.start_us.0 + line.duration_us.0)
}

pub open spec fn line_cards_fault_from(
    m: VideoProjectManifestModel,
    lines: Seq<PlacedLineModel>,
    place: int,
    prior: Option<Seq<char>>,
) -> Option<Fault>
    decreases lines.len() - place,
{
    if place < 0 || place >= lines.len() {
        None
    } else if introduces(m, lines[place], prior) {
        or_else(
            unless(
                on_clock(lines[place].start_us.0 + 1_800_000) && on_clock(
                    lines[place].start_us.0 + lines[place].duration_us.0,
                ),
                addition_fault(),
            ),
            line_cards_fault_from(
                m,
                lines,
                place + 1,
                if card_end(lines[place]) > lines[place].start_us.0 {
                    Some(lines[place].character_id)
                } else {
                    prior
                },
            ),
        )
    } else {
        line_cards_fault_from(m, lines, place + 1, prior)
    }
}

/// The cards of the lines from a place on, behind a document.
pub open spec fn line_cards_from(
    document: Seq<char>,
    m: VideoProjectManifestModel,
    lines: Seq<PlacedLineModel>,
    place: int,
    prior: Option<Seq<char>>,
) -> Seq<char>
    decreases lines.len() - place,
{
    if place < 0 || place >= lines.len() {
        document
    } else if introduces(m, lines[place], prior) && card_end(lines[place]) > lines[place].start_us.0 {
        line_cards_from(
            document + speaker_card(
                lines[place].start_us.0 as int,
                card_end(lines[place]),
                shown_name(m, lines[place].character_id),
            ),
            m,
            lines,
            place + 1,
            Some(lines[place].character_id),
        )
    } else {
        line_cards_from(document, m, lines, place + 1, prior)
    }
}

/// Names the character speaking each time the voice changes, from the takes as placed.
///
/// A card is shown when a new character starts a line, and held for the first moment of it: long
/// enough to read, short enough to leave the frame to the picture. Consecutive lines by one character
/// get one card.
fn append_dialogue_speaker_cards(document: &mut String, manifest: &VideoProjectManifest) -> (result: VideoResult<()>)
    ensures
        refusal(result) == line_cards_fault_from(
            manifest.deep_view(),
            performed_lines(manifest.deep_view()),
            0,
            None,
        ),
        result is Ok ==> final(document)@ == line_cards_from(
            old(document)@,
            manifest.deep_view(),
            performed_lines(manifest.deep_view()),
            0,
            None,
        ),
{
    let ghost m = manifest.deep_view();
    let lines: Vec<PlacedLine> = collect_lines(manifest);
    let ghost model = lines.deep_view();
    let ghost whole = line_cards_from(document@, m, model, 0, None);
    let mut prior: Option<String> = None;
    let mut place: usize = 0;
    while place < lines.len()
        invariant
            place <= lines.len(),
            m == manifest.deep_view(),
            model == lines.deep_view(),
            model == performed_lines(m),
            whole == line_cards_from(old(document)@, m, model, 0, None),
            whole == line_cards_from(document@, m, model, place as int, prior.deep_view()),
            line_cards_fault_from(m, model, 0, None) == line_cards_fault_from(
                m,
                model,
                place as int,
                prior.deep_view(),
            ),
        decreases lines.len() - place,
    {
        let line: &PlacedLine = &lines[place];
        assert(model[place as int] == line.deep_view());
        let repeated: bool = match &prior {
            Some(last) => text_eq(last.as_str(), line.character_id.as_str()),
            None => false,
        };
        if !repeated {
            let name: &str = match find_last_named(&manifest.cast, line.character_id.as_str()) {
                Some(member) => member.display_name.as_str().trim(),
                None => line.character_id.as_str().trim(),
            };
            if chars_in(name) > 0 {
                let limit: Microseconds = line.start_us.checked_add(Microseconds(1_800_000))?;
                let over: Microseconds = line.start_us.checked_add(line.duration_us)?;
                let end: Microseconds = limit.earlier(over);
                if end.0 > line.start_us.0 {
                    let card: String = write_card(line.start_us, end, name);
                    document.append(card.as_str());
                    prior = Some(line.character_id.clone());
                }
            }
        }
        place += 1;
    }
    Ok(())
}

// ---------------------------------------------------------------------------------------------
// The document
// ---------------------------------------------------------------------------------------------
/// The lines of a document before its styles.
pub open spec fn document_head(size: (u32, u32)) -> Seq<char> {
    "[Script Info]"@
        + "\n"@
        + "ScriptType: v4.00+"@
        + "\n"@
        + "PlayResX: "@
        + decimal(size.0 as nat)
        + "\n"@
        + "PlayResY: "@
        + decimal(size.1 as nat)
        + "\n"@
        + "ScaledBorderAndShadow: yes"@
        + "\n"@
        + "WrapStyle: 0"@
        + "\n"@
        + "; CaptionTiming: canonical timeline clock; exact source words or bounded in-cue fallback"@
        + "\n"@
        + "\n"@
        + "[V4+ Styles]"@
        + "\n"@
        + "Format: Name, Fontname, Fontsize, PrimaryColour, SecondaryColour, OutlineColour, BackColour, Bold, Italic, Underline, StrikeOut, ScaleX, ScaleY, Spacing, Angle, BorderStyle, Outline, Shadow, Alignment, MarginL, MarginR, MarginV, Encoding"@
        + "\n"@
}

/// A document with the styles of the first looks declared.
pub open spec fn with_styles(document: Seq<char>, size: (u32, u32), count: int) -> Seq<char>
    decreases count,
{
    if count <= 0 {
        document
    } else {
        with_styles(document, size, count - 1) + style_line(
            preset_of(CaptionPresetId::in_order()[count - 1]),
            size.0 as int,
            size.1 as int,
        )
    }
}

/// The styles of the cards, and where the events begin.
pub open spec fn card_styles(size: (u32, u32)) -> Seq<char> {
    let clean = font_size(preset_of(CaptionPresetId::CleanWhite), size.1 as int);
    "Style: Title,Inter,"@ + decimal(scaled(clean, 1_080) as nat)
        + ",&H00FFFFFF,&H00FFFFFF,&H90000000,&H50000000,-1,0,0,0,100,100,0,0,1,3,0,8,90,90,"@ + decimal(
        scaled(size.1 as int, 70) as nat,
    ) + ",1"@ + "\n"@ + "Style: Speaker,Inter,"@ + decimal(scaled(clean, 680) as nat)
        + ",&H00FFFFFF,&H00FFFFFF,&H80000000,&H50000000,-1,0,0,0,100,100,0,0,3,1,0,7,70,70,70,1"@ + "\n"@ + "\n"@
        + "[Events]"@ + "\n"@
        + "Format: Layer, Start, End, Style, Name, MarginL, MarginR, MarginV, Effect, Text"@ + "\n"@
}

/// The document up to its captions.
pub open spec fn captioned(m: VideoProjectManifestModel, options: AssemblyOptions, default: NormalizedRect) -> Seq<char> {
    let size = dimensions(options.profile, m.layout);
    let cues = shown_cues(m.captions);
    with_styles(document_head(size), size, 8) + card_styles(size) + captions_to(
        m,
        cues,
        default,
        size,
        cues.len() as int,
    )
}

/// The document up to its titles.
pub open spec fn titled(m: VideoProjectManifestModel, options: AssemblyOptions, default: NormalizedRect) -> Seq<char> {
    if options.include_title_cards {
        captioned(m, options, default) + titles_to(m.reviewed_scenes, m.reviewed_scenes.len() as int)
    } else {
        captioned(m, options, default)
    }
}

/// The subtitle document of a project. A performed script knows who is speaking from its own takes,
/// which is a better source than captions that may not exist for it.
pub open spec fn document_of(m: VideoProjectManifestModel, options: AssemblyOptions, default: NormalizedRect) -> Seq<char> {
    if !options.include_speaker_cards {
        titled(m, options, default)
    } else if m.dialogue.len() == 0 {
        cue_cards_from(titled(m, options, default), shown_cues(m.captions), 0, None)
    } else {
        line_cards_from(titled(m, options, default), m, performed_lines(m), 0, None)
    }
}

/// Why a project has no subtitle document.
pub open spec fn document_fault(m: VideoProjectManifestModel, options: AssemblyOptions) -> Option<Fault> {
    or_else(
        VideoProjectManifest::fault_of(m),
        or_else(
            cue_faults_from(m, shown_cues(m.captions), 0),
            or_else(
                if options.include_title_cards {
                    title_faults_from(m.reviewed_scenes, 0)
                } else {
                    None
                },
                if !options.include_speaker_cards {
                    None
                } else if m.dialogue.len() == 0 {
                    cue_cards_fault_from(shown_cues(m.captions), 0, None)
                } else {
                    line_cards_fault_from(m, performed_lines(m), 0, None)
                },
            ),
        ),
    )
}

proof fn lemma_preset_sizes(id: CaptionPresetId)
    ensures
        32 <= preset_of(id).relative_size_milli <= 0x1000,
        32 <= preset_of(id).margin_vertical_milli <= 0x1000,
{
}

fn write_head(size: (u32, u32)) -> (document: String)
    requires
        size.0 <= 16_384,
        size.1 <= 16_384,
    ensures
        document@ == with_styles(document_head(size), size, 8) + card_styles(size),
{
    let width: String = decimal_text(size.0 as u64);
    let height: String = decimal_text(size.1 as u64);
    let mut document: String = String::from_str("[Script Info]");
    document.append("\n");
    document.append("ScriptType: v4.00+");
    document.append("\n");
    document.append("PlayResX: ");
    document.append(width.as_str());
    document.append("\n");
    document.append("PlayResY: ");
    document.append(height.as_str());
    document.append("\n");
    document.append("ScaledBorderAndShadow: yes");
    document.append("\n");
    document.append("WrapStyle: 0");
    document.append("\n");
    document.append(
        "; CaptionTiming: canonical timeline clock; exact source words or bounded in-cue fallback",
    );
    document.append("\n");
    document.append("\n");
    document.append("[V4+ Styles]");
    document.append("\n");
    document.append(
        "Format: Name, Fontname, Fontsize, PrimaryColour, SecondaryColour, OutlineColour, BackColour, Bold, Italic, Underline, StrikeOut, ScaleX, ScaleY, Spacing, Angle, BorderStyle, Outline, Shadow, Alignment, MarginL, MarginR, MarginV, Encoding",
    );
    document.append("\n");
    let ids: Vec<CaptionPresetId> = CaptionPresetId::all();
    let mut place: usize = 0;
    while place < ids.len()
        invariant
            place <= ids.len(),
            ids@ == CaptionPresetId::in_order(),
            size.0 <= 16_384,
            size.1 <= 16_384,
            document@ == with_styles(document_head(size), size, place as int),
        decreases ids.len() - place,
    {
        proof {
            lemma_preset_sizes(ids[place as int]);
        }
        let preset: AssCaptionPreset = caption_preset(ids[place]);
        let line: String = ass_caption_style(&preset, size.0, size.1);
        document.append(line.as_str());
        place += 1;
    }
    let clean: u32 = caption_font_size(&caption_preset(CaptionPresetId::CleanWhite), size.1);
    let title_size: String = decimal_text(scale(clean, 1_080));
    let title_margin: String = decimal_text(scale(size.1, 70));
    let speaker_size: String = decimal_text(scale(clean, 680));
    let mut cards: String = String::from_str("Style: Title,Inter,");
    cards.append(title_size.as_str());
    cards.append(",&H00FFFFFF,&H00FFFFFF,&H90000000,&H50000000,-1,0,0,0,100,100,0,0,1,3,0,8,90,90,");
    cards.append(title_margin.as_str());
    cards.append(",1");
    cards.append("\n");
    cards.append("Style: Speaker,Inter,");
    cards.append(speaker_size.as_str());
    cards.append(",&H00FFFFFF,&H00FFFFFF,&H80000000,&H50000000,-1,0,0,0,100,100,0,0,3,1,0,7,70,70,70,1");
    cards.append("\n");
    cards.append("\n");
    cards.append("[Events]");
    cards.append("\n");
    cards.append("Format: Layer, Start, End, Style, Name, MarginL, MarginR, MarginV, Effect, Text");
    cards.append("\n");
    document.append(cards.as_str());
    document
}

/// Generates the caption, title and speaker overlay document from timeline-clock cues. The document is
/// deterministic for a manifest revision and can be content-addressed independently of video.
///
/// Captions that the layout does not place stand in the default bounds. A cue's own style decides how
/// it looks, so one timeline can show different looks; the options' theme is not consulted.
pub fn build_ass_document(manifest: &VideoProjectManifest, options: &AssemblyOptions, default_bounds: NormalizedRect) -> (
result: VideoResult<String>)
    ensures
        refusal(result) == document_fault(manifest.deep_view(), *options),
        result matches Ok(document) ==> document@ == document_of(manifest.deep_view(), *options, default_bounds),
{
    let ghost m = manifest.deep_view();
    manifest.validate_strict()?;
    proof {
        lemma_canvas(m);
    }
    let size: (u32, u32) = profile_dimensions(options.profile, &manifest.layout);
    let cues: Vec<ShownCue> = order_cues(&manifest.captions);
    let mut document: String = write_head(size);
    let captions: String = write_captions(manifest, &cues, default_bounds, size)?;
    assert(cues.deep_view().len() == cues.len());
    document.append(captions.as_str());
    assert(document@ == captioned(m, *options, default_bounds));
    if options.include_title_cards {
        let titles: String = write_titles(&manifest.reviewed_scenes)?;
        assert(manifest.reviewed_scenes.deep_view().len() == manifest.reviewed_scenes.len());
        document.append(titles.as_str());
    }
    assert(document@ == titled(m, *options, default_bounds));
    if options.include_speaker_cards {
        assert(m.dialogue.len() == manifest.dialogue.len());
        if manifest.dialogue.len() == 0 {
            append_speaker_cards(&mut document, &cues)?;
        } else {
            append_dialogue_speaker_cards(&mut document, manifest)?;
        }
    }
    Ok(document)
}

/// A page emphasises what is being said: the first word that is said at an instant, where the look follows the words;
/// the words that have begun, where it sings along or types. Where it does neither, every word is shown alike.
pub proof fn what_is_being_said_is_emphasised(tokens: Seq<TimedCaptionTokenModel>, reveal: CaptionRevealMode, instant: int)
    ensures
        ({
            let emphasis = emphasis_at(tokens, reveal, instant);
            &&& reveal == CaptionRevealMode::ActiveWord ==> match emphasis.active {
                Some(at) => {
                    &&& 0 <= at < tokens.len()
                    &&& tokens[at].start_us.0 <= instant < tokens[at].end_us.0
                    &&& forall|i: int|
                        0 <= i < at ==> !((#[trigger] tokens[i]).start_us.0 <= instant < tokens[i].end_us.0)
                },
                None => forall|i: int|
                    0 <= i < tokens.len() ==> !((#[trigger] tokens[i]).start_us.0 <= instant < tokens[i].end_us.0),
            }
            &&& reveal != CaptionRevealMode::ActiveWord ==> emphasis.active is None
            &&& reveal == CaptionRevealMode::Karaoke ==> is_begun(tokens, instant, emphasis.spoken)
            &&& reveal != CaptionRevealMode::Karaoke ==> emphasis.spoken == 0
            &&& reveal == CaptionRevealMode::Typewriter ==> is_begun(tokens, instant, emphasis.visible)
            &&& reveal != CaptionRevealMode::Typewriter ==> emphasis.visible == tokens.len()
        }),
{
    lemma_said(tokens, instant, 0);
    lemma_begun(tokens, instant, 0);
}

/// Whether so many of the first words have begun at an instant, and the next has not.
pub open spec fn is_begun(tokens: Seq<TimedCaptionTokenModel>, instant: int, count: int) -> bool {
    &&& 0 <= count <= tokens.len()
    &&& forall|i: int| 0 <= i < count ==> (#[trigger] tokens[i]).start_us.0 <= instant
    &&& count < tokens.len() ==> tokens[count].start_us.0 > instant
}

proof fn lemma_said(tokens: Seq<TimedCaptionTokenModel>, instant: int, from: int)
    requires
        0 <= from <= tokens.len(),
    ensures
        match said_from(tokens, instant, from) {
            Some(at) => {
                &&& from <= at < tokens.len()
                &&& tokens[at].start_us.0 <= instant < tokens[at].end_us.0
                &&& forall|i: int|
                    from <= i < at ==> !((#[trigger] tokens[i]).start_us.0 <= instant < tokens[i].end_us.0)
            },
            None => forall|i: int|
                from <= i < tokens.len() ==> !((#[trigger] tokens[i]).start_us.0 <= instant < tokens[i].end_us.0),
        },
    decreases tokens.len() - from,
{
    if from < tokens.len() && !(tokens[from].start_us.0 <= instant < tokens[from].end_us.0) {
        lemma_said(tokens, instant, from + 1);
    }
}

proof fn lemma_begun(tokens: Seq<TimedCaptionTokenModel>, instant: int, from: int)
    requires
        0 <= from <= tokens.len(),
    ensures
        ({
            let count = begun_from(tokens, instant, from);
            &&& from <= count <= tokens.len()
            &&& forall|i: int| from <= i < count ==> (#[trigger] tokens[i]).start_us.0 <= instant
            &&& count < tokens.len() ==> tokens[count].start_us.0 > instant
        }),
    decreases tokens.len() - from,
{
    if from < tokens.len() && tokens[from].start_us.0 <= instant {
        lemma_begun(tokens, instant, from + 1);
    }
}

/// A page that follows its words changes with each of them: its marks are in order, none is there twice, and among
/// them are the ends of the page and the start of every word, and the end of every word where that is asked for.
pub proof fn a_page_changes_with_its_words(page: CaptionPageModel, with_ends: bool, count: int)
    requires
        page.start_us.0 < page.end_us.0,
        0 <= count <= page.tokens.len(),
        forall|i: int|
            0 <= i < page.tokens.len() ==> page.start_us.0 <= (#[trigger] page.tokens[i]).start_us.0
                <= page.tokens[i].end_us.0 <= page.end_us.0,
    ensures
        ({
            let marks = marks_to(page, with_ends, count);
            &&& forall|i: int, j: int| 0 <= i < j < marks.len() ==> marks[i] < marks[j]
            &&& marks.len() >= 2
            &&& marks[0] == page.start_us.0
            &&& marks.last() == page.end_us.0
            &&& forall|i: int| 0 <= i < count ==> marks.contains((#[trigger] page.tokens[i]).start_us.0)
            &&& with_ends ==> forall|i: int| 0 <= i < count ==> marks.contains((#[trigger] page.tokens[i]).end_us.0)
        }),
    decreases count,
{
    if count <= 0 {
        let start = seq![page.start_us.0];
        lemma_one_more_instant(start, page.end_us.0);
        let marks = marks_to(page, with_ends, count);
        assert(marks =~= start.push(page.end_us.0));
    } else {
        a_page_changes_with_its_words(page, with_ends, count - 1);
        let before = marks_to(page, with_ends, count - 1);
        let token = page.tokens[count - 1];
        let begun = with_instant(before, token.start_us.0);
        lemma_one_more_instant(before, token.start_us.0);
        lemma_one_more_instant(begun, token.end_us.0);
        let marks = marks_to(page, with_ends, count);
        assert(before.contains(before[0]) && before.contains(before.last()));
        assert(begun.contains(page.start_us.0) && begun.contains(page.end_us.0));
        assert(marks.contains(page.start_us.0) && marks.contains(page.end_us.0));
        lemma_ends_of_instants(before, begun, token.start_us.0);
        lemma_ends_of_instants(begun, with_instant(begun, token.end_us.0), token.end_us.0);
        assert forall|i: int| 0 <= i < count implies marks.contains((#[trigger] page.tokens[i]).start_us.0) by {
            if i < count - 1 {
                assert(before.contains(page.tokens[i].start_us.0));
                assert(begun.contains(page.tokens[i].start_us.0));
            }
        }
        if with_ends {
            assert forall|i: int| 0 <= i < count implies marks.contains((#[trigger] page.tokens[i]).end_us.0) by {
                if i < count - 1 {
                    assert(before.contains(page.tokens[i].end_us.0));
                    assert(begun.contains(page.tokens[i].end_us.0));
                }
            }
        }
    }
}

proof fn lemma_one_more_instant(instants: Seq<i64>, instant: i64)
    requires
        forall|i: int, j: int| 0 <= i < j < instants.len() ==> instants[i] < instants[j],
    ensures
        ({
            let more = with_instant(instants, instant);
            &&& forall|i: int, j: int| 0 <= i < j < more.len() ==> more[i] < more[j]
            &&& forall|x: i64| #[trigger] more.contains(x) <==> instants.contains(x) || x == instant
            &&& more.len() >= instants.len()
            &&& more.len() > 0
        }),
    decreases instants.len(),
{
    let more = with_instant(instants, instant);
    if instants.len() == 0 || instants.last() < instant {
        assert forall|x: i64| #[trigger] more.contains(x) <==> instants.contains(x) || x == instant by {
            if instants.contains(x) {
                let i = choose|i: int| 0 <= i < instants.len() && instants[i] == x;
                assert(more[i] == x);
            }
            assert(more[instants.len() as int] == instant);
        }
    } else if instants.last() == instant {
        assert(instants[instants.len() - 1] == instant);
    } else {
        let rest = instants.drop_last();
        let less = with_instant(rest, instant);
        let last = instants.last();
        lemma_one_more_instant(rest, instant);
        assert forall|x: i64| #[trigger] more.contains(x) <==> instants.contains(x) || x == instant by {
            if more.contains(x) {
                let i = choose|i: int| 0 <= i < more.len() && more[i] == x;
                if i < less.len() {
                    assert(less[i] == x);
                    assert(less.contains(x));
                    if rest.contains(x) {
                        let k = choose|k: int| 0 <= k < rest.len() && rest[k] == x;
                        assert(instants[k] == x);
                    }
                } else {
                    assert(instants[instants.len() - 1] == x);
                }
            }
            if instants.contains(x) {
                let k = choose|k: int| 0 <= k < instants.len() && instants[k] == x;
                if k < rest.len() {
                    assert(rest[k] == x);
                    assert(less.contains(x));
                    let i = choose|i: int| 0 <= i < less.len() && less[i] == x;
                    assert(more[i] == x);
                } else {
                    assert(more[less.len() as int] == x);
                }
            }
            if x == instant {
                assert(less.contains(x));
                let i = choose|i: int| 0 <= i < less.len() && less[i] == x;
                assert(more[i] == x);
            }
        }
        assert forall|i: int, j: int| 0 <= i < j < more.len() implies more[i] < more[j] by {
            if j == less.len() {
                assert(less.contains(less[i]));
                if rest.contains(less[i]) {
                    let k = choose|k: int| 0 <= k < rest.len() && rest[k] == less[i];
                    assert(instants[k] < instants[instants.len() - 1]);
                }
            }
        }
    }
}

proof fn lemma_ends_of_instants(instants: Seq<i64>, more: Seq<i64>, instant: i64)
    requires
        forall|i: int, j: int| 0 <= i < j < instants.len() ==> instants[i] < instants[j],
        forall|i: int, j: int| 0 <= i < j < more.len() ==> more[i] < more[j],
        forall|x: i64| #[trigger] more.contains(x) <==> instants.contains(x) || x == instant,
        instants.len() > 0,
        more.len() > 0,
        instants[0] <= instant <= instants.last(),
    ensures
        more[0] == instants[0],
        more.last() == instants.last(),
{
    assert(instants.contains(instants[0]) && instants.contains(instants.last()));
    assert(more.contains(instants[0]) && more.contains(instants.last()));
    assert(more.contains(more[0]) && more.contains(more.last()));
    let a = choose|i: int| 0 <= i < more.len() && more[i] == instants[0];
    let b = choose|i: int| 0 <= i < more.len() && more[i] == instants.last();
    if instants.contains(more[0]) {
        let i = choose|i: int| 0 <= i < instants.len() && instants[i] == more[0];
    }
    if instants.contains(more.last()) {
        let i = choose|i: int| 0 <= i < instants.len() && instants[i] == more.last();
    }
}

/// A title stands from the start of its scene, for the whole of a short scene and 1.8 seconds of a longer one.
pub proof fn a_title_stands_within_its_scene(scene: ReviewedSceneModel)
    requires
        scene.timeline_duration_us.0 >= 0,
    ensures
        title_end(scene) - scene.timeline_start_us.0 == min(scene.timeline_duration_us.0 as int, 1_800_000),
        scene.timeline_start_us.0 <= title_end(scene) <= scene.timeline_start_us.0 + scene.timeline_duration_us.0,
{
}

/// A speaker's card ends with the line, or after 1.8 seconds where the line goes on; it comes where another character
/// speaks than on the last card, under a name that shows.
pub proof fn a_card_names_a_new_speaker(m: VideoProjectManifestModel, line: PlacedLineModel, prior: Option<Seq<char>>) -> (member: int)
    ensures
        card_end(line) - line.start_us.0 == min(line.duration_us.0 as int, 1_800_000),
        introduces(m, line, prior) ==> prior != Some(line.character_id),
        !introduces(m, line, prior) ==> prior == Some(line.character_id) || shown_name(m, line.character_id).len() == 0,
        shown_name(m, line.character_id) == if 0 <= member < m.cast.len() {
            trimmed(m.cast[member].display_name)
        } else {
            trimmed(line.character_id)
        },
        0 <= member < m.cast.len() ==> m.cast[member].id == line.character_id,
        forall|i: int|
            0 <= i < m.cast.len() && (member < 0 || i > member) ==> (#[trigger] m.cast[i]).id != line.character_id,
{
    let place = what_is_found_last_bears_the_name::<CastMember>(m.cast, line.character_id);
    assert forall|i: int| 0 <= i < m.cast.len() && CastMember::name_of(m.cast[i]) != line.character_id implies (
    #[trigger] m.cast[i]).id != line.character_id by {
    }
    if find_last::<CastMember>(m.cast, line.character_id) is Some {
        place
    } else {
        -1
    }
}

/// Cues are shown in the order in which they start; each is shown, and none twice.
pub proof fn cues_are_shown_in_order(cues: Seq<CaptionCueModel>)
    ensures
        shown_cues(cues).to_multiset() == cues.to_multiset(),
        shown_cues(cues).len() == cues.len(),
        forall|i: int, j: int|
            0 <= i < j < shown_cues(cues).len() ==> (#[trigger] shown_cues(cues)[i]).range.start_us.0 <= (
            #[trigger] shown_cues(cues)[j]).range.start_us.0,
{
    broadcast use vstd::seq_lib::group_to_multiset_ensures;

    ranked_is_a_sorted_permutation::<ShownCue>(cues);
    assert forall|i: int, j: int| 0 <= i < j < shown_cues(cues).len() implies (#[trigger] shown_cues(
        cues,
    )[i]).range.start_us.0 <= (#[trigger] shown_cues(cues)[j]).range.start_us.0 by {
        assert(!ShownCue::before(shown_cues(cues)[j], shown_cues(cues)[i]));
    }
}

} // verus!
