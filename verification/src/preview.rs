//! The caption pages that a live preview shows: the same pages that are burned in.

use crate::caption_layout::{caption_geometry_for_page, plain_caption_page_text, plain_text, CaptionRenderGeometry};
use crate::caption_pages::{cue_fault, cue_pages, cue_preset, planned_caption_pages_for_cue};
use crate::caption_presets::AssCaptionPreset;
use crate::captions::{
    clocked_from, exact_ranges, heard, heard_from, larger, said_at, shown_words, smaller, CaptionPage, CaptionPageModel,
    TimedCaptionToken, TimedCaptionTokenModel,
};
use crate::error::{or_else, refusal, VideoResult};
use crate::manifest::{
    CaptionCue, CaptionCueModel, LayoutPlanModel, NormalizedRect, TrackKind, TranscriptSegment, TranscriptWord,
    VideoProjectManifest, VideoProjectManifestModel,
};
use crate::model::{find, find_last, Model};
use crate::order::{lemma_text_ranks, rank, ranked, text_before, text_less, Ranked};
use crate::subtitles::{canvas_fits, cue_faults_from, cue_geometry, lemma_canvas, lemma_cue_page_measured};
use crate::text::{padded, padded_text, text_concat};
use crate::time::{Microseconds, TimeRange, Validate};
use vstd::math::{max, min};
use vstd::prelude::*;

verus! {

/// A word of a page and when it is said.
#[derive(Clone, Debug, PartialEq, Eq)]
pub struct CaptionPreviewWord {
    pub text: String,
    pub start_us: Microseconds,
    pub end_us: Microseconds,
}

/// What a [`CaptionPreviewWord`] holds, as mathematical values.
pub struct CaptionPreviewWordModel {
    pub text: Seq<char>,
    pub start_us: Microseconds,
    pub end_us: Microseconds,
}

impl DeepView for CaptionPreviewWord {
    type V = CaptionPreviewWordModel;

    open spec fn deep_view(&self) -> CaptionPreviewWordModel {
        CaptionPreviewWordModel { text: self.text@, start_us: self.start_us, end_us: self.end_us }
    }
}

/// A page of a caption for a live preview, which renders these pages rather than paging anew: the same
/// plan feeds the preview and the export.
#[derive(Clone, Debug, PartialEq, Eq)]
pub struct CaptionPreviewPage {
    pub id: String,
    pub cue_id: String,
    pub scene_id: Option<String>,
    pub start_us: Microseconds,
    pub end_us: Microseconds,
    pub text: String,
    pub style_id: String,
    pub bounds: NormalizedRect,
    /// Font size normalized to canvas height (10_000 == full canvas height).
    pub font_size_bp: u16,
    pub words: Vec<CaptionPreviewWord>,
}

/// What a [`CaptionPreviewPage`] holds, as mathematical values.
pub struct CaptionPreviewPageModel {
    pub id: Seq<char>,
    pub cue_id: Seq<char>,
    pub scene_id: Option<Seq<char>>,
    pub start_us: Microseconds,
    pub end_us: Microseconds,
    pub text: Seq<char>,
    pub style_id: Seq<char>,
    pub bounds: NormalizedRect,
    pub font_size_bp: u16,
    pub words: Seq<CaptionPreviewWordModel>,
}

impl DeepView for CaptionPreviewPage {
    type V = CaptionPreviewPageModel;

    open spec fn deep_view(&self) -> CaptionPreviewPageModel {
        CaptionPreviewPageModel {
            id: self.id@,
            cue_id: self.cue_id@,
            scene_id: self.scene_id.deep_view(),
            start_us: self.start_us,
            end_us: self.end_us,
            text: self.text@,
            style_id: self.style_id@,
            bounds: self.bounds,
            font_size_bp: self.font_size_bp,
            words: self.words.deep_view(),
        }
    }
}

/// Pages are ranked by where they start, then by where they end, then by their cue, then by
/// identifier.
impl Ranked for CaptionPreviewPage {
    open spec fn before(left: CaptionPreviewPageModel, right: CaptionPreviewPageModel) -> bool {
        left.start_us.0 < right.start_us.0 || (left.start_us.0 == right.start_us.0 && (left.end_us.0
            < right.end_us.0 || (left.end_us.0 == right.end_us.0 && (text_less(left.cue_id, right.cue_id) || (
        left.cue_id == right.cue_id && text_less(left.id, right.id))))))
    }

    fn comes_before(&self, other: &Self) -> (result: bool) {
        if self.start_us.0 != other.start_us.0 {
            self.start_us.0 < other.start_us.0
        } else if self.end_us.0 != other.end_us.0 {
            self.end_us.0 < other.end_us.0
        } else {
            proof {
                lemma_text_ranks(self.cue_id@, other.cue_id@, self.cue_id@);
            }
            if text_before(self.cue_id.as_str(), other.cue_id.as_str()) {
                true
            } else if text_before(other.cue_id.as_str(), self.cue_id.as_str()) {
                false
            } else {
                text_before(self.id.as_str(), other.id.as_str())
            }
        }
    }

    proof fn before_is_an_order(a: CaptionPreviewPageModel, b: CaptionPreviewPageModel, c: CaptionPreviewPageModel) {
        lemma_text_ranks(a.cue_id, b.cue_id, c.cue_id);
        lemma_text_ranks(a.id, b.id, c.id);
    }
}

/// The part of a token that lies on its page.
pub open spec fn word_start(page: CaptionPageModel, token: TimedCaptionTokenModel) -> int {
    larger(token.start_us.0 as int, page.start_us.0 as int)
}

pub open spec fn word_end(page: CaptionPageModel, token: TimedCaptionTokenModel) -> int {
    smaller(token.end_us.0 as int, page.end_us.0 as int)
}

/// The words of a page, from one on, that are said on it.
pub open spec fn words_from(page: CaptionPageModel, place: int) -> Seq<CaptionPreviewWordModel>
    decreases page.tokens.len() - place,
{
    if place < 0 || place >= page.tokens.len() {
        Seq::empty()
    } else {
        let token = page.tokens[place];
        if word_start(page, token) < word_end(page, token) {
            seq![
                CaptionPreviewWordModel {
                    text: token.text,
                    start_us: Microseconds(word_start(page, token) as i64),
                    end_us: Microseconds(word_end(page, token) as i64),
                },
            ] + words_from(page, place + 1)
        } else {
            words_from(page, place + 1)
        }
    }
}

/// A page of a cue as a preview shows it.
pub open spec fn preview_of(
    m: VideoProjectManifestModel,
    cue: CaptionCueModel,
    default: NormalizedRect,
    place: int,
) -> CaptionPreviewPageModel {
    let page = cue_pages(m, cue)[place];
    let preset = cue_preset(cue);
    CaptionPreviewPageModel {
        id: cue.id + "-page-"@ + padded((place + 1) as nat, 3),
        cue_id: cue.id,
        scene_id: cue.scene_id,
        start_us: page.start_us,
        end_us: page.end_us,
        text: plain_text(page.tokens, preset),
        style_id: preset.id.public_text(),
        bounds: cue_geometry(m, cue, default, page).bounds,
        font_size_bp: cue_geometry(m, cue, default, page).font_size_bp,
        words: words_from(page, 0),
    }
}

/// The pages of a cue as a preview shows them.
pub open spec fn cue_previews(m: VideoProjectManifestModel, cue: CaptionCueModel, default: NormalizedRect) -> Seq<
    CaptionPreviewPageModel,
> {
    Seq::new(cue_pages(m, cue).len(), |i: int| preview_of(m, cue, default, i))
}

/// The pages of the first cues.
pub open spec fn previews_to(m: VideoProjectManifestModel, default: NormalizedRect, count: int) -> Seq<
    CaptionPreviewPageModel,
>
    decreases count,
{
    if count <= 0 {
        Seq::empty()
    } else {
        previews_to(m, default, count - 1) + cue_previews(m, m.captions[count - 1], default)
    }
}

fn find_words(page: &CaptionPage) -> (words: Vec<CaptionPreviewWord>)
    ensures
        words.deep_view() == words_from(page.deep_view(), 0),
{
    let ghost model = page.deep_view();
    let ghost whole = words_from(model, 0);
    let mut words: Vec<CaptionPreviewWord> = Vec::new();
    let mut place: usize = 0;
    assert(words.deep_view() + whole =~= whole);
    while place < page.tokens.len()
        invariant
            place <= page.tokens.len(),
            model == page.deep_view(),
            words.deep_view() + words_from(model, place as int) == whole,
        decreases page.tokens.len() - place,
    {
        let token: &TimedCaptionToken = &page.tokens[place];
        assert(model.tokens[place as int] == token.deep_view());
        let start: Microseconds = token.start_us.later(page.start_us);
        let end: Microseconds = token.end_us.earlier(page.end_us);
        if end.0 > start.0 {
            let ghost before = words.deep_view();
            let word = CaptionPreviewWord { text: token.text.clone(), start_us: start, end_us: end };
            let ghost own = word.deep_view();
            let ghost rest = words_from(model, place + 1);
            words.push(word);
            assert(words.deep_view() =~= before.push(own));
            assert(words.deep_view() + rest =~= before + (seq![own] + rest));
        }
        place += 1;
    }
    assert(words.deep_view() =~= whole);
    words
}

fn preview_cue(manifest: &VideoProjectManifest, caption: &CaptionCue, default: NormalizedRect) -> (result: VideoResult<
    Vec<CaptionPreviewPage>,
>)
    requires
        canvas_fits(manifest.deep_view()),
    ensures
        refusal(result) == cue_fault(manifest.deep_view(), caption.deep_view()),
        result matches Ok(previews) ==> previews.deep_view() == cue_previews(
            manifest.deep_view(),
            caption.deep_view(),
            default,
        ),
{
    let ghost m = manifest.deep_view();
    let ghost cue = caption.deep_view();
    let planned: (AssCaptionPreset, Vec<CaptionPage>) = planned_caption_pages_for_cue(manifest, caption)?;
    let preset: AssCaptionPreset = planned.0;
    let pages: Vec<CaptionPage> = planned.1;
    assert(pages.deep_view().len() == pages.len());
    let mut previews: Vec<CaptionPreviewPage> = Vec::new();
    let mut place: usize = 0;
    while place < pages.len()
        invariant
            place <= pages.len(),
            m == manifest.deep_view(),
            cue == caption.deep_view(),
            canvas_fits(m),
            cue_fault(m, cue) is None,
            preset == cue_preset(cue),
            pages.deep_view() == cue_pages(m, cue),
            pages.deep_view().len() == pages.len(),
            previews.len() == place,
            forall|i: int| 0 <= i < place ==> (#[trigger] previews[i]).deep_view() == preview_of(m, cue, default, i),
        decreases pages.len() - place,
    {
        let page: &CaptionPage = &pages[place];
        proof {
            assert(pages.deep_view()[place as int] == page.deep_view());
            lemma_cue_page_measured(m, cue, place as int);
        }
        let geometry: CaptionRenderGeometry = caption_geometry_for_page(
            &manifest.layout,
            &caption.scene_id,
            default,
            &preset,
            page,
        );
        let number: String = padded_text(place as u64 + 1, 3);
        let mut id: String = text_concat(caption.id.as_str(), "-page-");
        id.append(number.as_str());
        previews.push(
            CaptionPreviewPage {
                id,
                cue_id: caption.id.clone(),
                scene_id: caption.scene_id.duplicate(),
                start_us: page.start_us,
                end_us: page.end_us,
                text: plain_caption_page_text(page, &preset),
                style_id: String::from_str(preset.id.public_id()),
                bounds: geometry.bounds,
                font_size_bp: geometry.font_size_bp,
                words: find_words(page),
            },
        );
        place += 1;
    }
    assert(previews.deep_view() =~= cue_previews(m, cue, default));
    Ok(previews)
}

fn preview_cues(manifest: &VideoProjectManifest, default: NormalizedRect) -> (result: VideoResult<
    Vec<CaptionPreviewPage>,
>)
    requires
        canvas_fits(manifest.deep_view()),
    ensures
        refusal(result) == cue_faults_from(manifest.deep_view(), manifest.deep_view().captions, 0),
        result matches Ok(previews) ==> previews.deep_view() == previews_to(
            manifest.deep_view(),
            default,
            manifest.deep_view().captions.len() as int,
        ),
{
    let ghost m = manifest.deep_view();
    let mut previews: Vec<CaptionPreviewPage> = Vec::new();
    let mut place: usize = 0;
    assert(previews.deep_view() =~= Seq::empty());
    assert(m.captions.len() == manifest.captions.len());
    while place < manifest.captions.len()
        invariant
            place <= manifest.captions.len(),
            m == manifest.deep_view(),
            m.captions.len() == manifest.captions.len(),
            canvas_fits(m),
            previews.deep_view() == previews_to(m, default, place as int),
            cue_faults_from(m, m.captions, 0) == cue_faults_from(m, m.captions, place as int),
        decreases manifest.captions.len() - place,
    {
        assert(m.captions[place as int] == manifest.captions[place as int].deep_view());
        let mut more: Vec<CaptionPreviewPage> = preview_cue(manifest, &manifest.captions[place], default)?;
        let ghost before = previews.deep_view();
        let ghost own = more.deep_view();
        previews.append(&mut more);
        assert(previews.deep_view() =~= before + own);
        place += 1;
    }
    Ok(previews)
}

/// Plans the caption pages that a live preview shows. Captions that the layout does not place stand in
/// the default bounds.
pub fn plan_caption_preview_pages(manifest: &VideoProjectManifest, default_bounds: NormalizedRect) -> (result: VideoResult<
    Vec<CaptionPreviewPage>,
>)
    ensures
        refusal(result) == or_else(
            VideoProjectManifest::fault_of(manifest.deep_view()),
            cue_faults_from(manifest.deep_view(), manifest.deep_view().captions, 0),
        ),
        result matches Ok(previews) ==> previews.deep_view() == ranked::<CaptionPreviewPage>(
            previews_to(
                manifest.deep_view(),
                default_bounds,
                manifest.deep_view().captions.len() as int,
            ),
        ),
{
    manifest.validate_strict()?;
    proof {
        lemma_canvas(manifest.deep_view());
    }
    let previews: Vec<CaptionPreviewPage> = preview_cues(manifest, default_bounds)?;
    Ok(rank(previews))
}

// ---------------------------------------------------------------------------------------------
// What a layout leaves alone
// ---------------------------------------------------------------------------------------------
/// A project with another layout.
pub open spec fn with_layout(m: VideoProjectManifestModel, layout: LayoutPlanModel) -> VideoProjectManifestModel {
    VideoProjectManifestModel { layout, ..m }
}

proof fn lemma_heard_alike(
    m: VideoProjectManifestModel,
    layout: LayoutPlanModel,
    scene_id: Seq<char>,
    source_id: Seq<char>,
    word: TimeRange,
    cue: TimeRange,
    track: int,
    clip: int,
    known: Option<(int, int)>,
)
    requires
        0 <= track <= m.tracks.len(),
        0 <= clip,
    ensures
        heard_from(with_layout(m, layout), scene_id, source_id, word, cue, track, clip, known) == heard_from(
            m,
            scene_id,
            source_id,
            word,
            cue,
            track,
            clip,
            known,
        ),
    decreases m.tracks.len() - track, m.tracks[track].clips.len() - clip,
{
    if track < m.tracks.len() {
        if clip >= m.tracks[track].clips.len() || !(m.tracks[track].kind == TrackKind::Audio || m.tracks[track].kind
            == TrackKind::Video) {
            lemma_heard_alike(m, layout, scene_id, source_id, word, cue, track + 1, 0, known);
        } else {
            let said = said_at(m.tracks[track].clips[clip], word, cue);
            lemma_heard_alike(m, layout, scene_id, source_id, word, cue, track, clip + 1, known);
            lemma_heard_alike(m, layout, scene_id, source_id, word, cue, track, clip + 1, Some(said));
        }
    }
}

proof fn lemma_clocked_alike(
    m: VideoProjectManifestModel,
    layout: LayoutPlanModel,
    scene_id: Seq<char>,
    word_ids: Seq<Seq<char>>,
    cue: TimeRange,
    place: int,
    previous: int,
)
    requires
        0 <= place,
    ensures
        clocked_from(with_layout(m, layout), scene_id, word_ids, cue, place, previous) == clocked_from(
            m,
            scene_id,
            word_ids,
            cue,
            place,
            previous,
        ),
    decreases word_ids.len() - place,
{
    if place < word_ids.len() {
        if let Some(word) = find_last::<TranscriptWord>(m.transcript->0.words, word_ids[place]) {
            lemma_heard_alike(
                m,
                layout,
                scene_id,
                m.transcript->0.source_asset_id,
                word.range,
                cue,
                0,
                0,
                None,
            );
            if let Some(said) = heard(m, scene_id, m.transcript->0.source_asset_id, word.range, cue) {
                lemma_clocked_alike(m, layout, scene_id, word_ids, cue, place + 1, said.1);
            }
        }
    }
}

/// Where captions stand does not change when they are shown: under another layout a cue has the same
/// pages, with the same words at the same times.
pub proof fn a_layout_does_not_move_clocks(m: VideoProjectManifestModel, layout: LayoutPlanModel, cue: CaptionCueModel)
    ensures
        cue_pages(with_layout(m, layout), cue) == cue_pages(m, cue),
        cue_fault(with_layout(m, layout), cue) == cue_fault(m, cue),
{
    let words = shown_words(cue.text, cue_preset(cue));
    if m.transcript is Some && cue.transcript_segment_id is Some && cue.scene_id is Some {
        if let Some(segment) = find::<TranscriptSegment>(m.transcript->0.segments, cue.transcript_segment_id->0) {
            lemma_clocked_alike(
                m,
                layout,
                cue.scene_id->0,
                segment.word_ids,
                cue.range,
                0,
                cue.range.start(),
            );
        }
    }
    assert(exact_ranges(with_layout(m, layout), cue, words.len() as int) == exact_ranges(
        m,
        cue,
        words.len() as int,
    ));
}

/// A preview shows each word of a page while it is said there, in the order of the words: from where it starts, or the
/// page does, to where it ends, or the page does. A word that is not said on the page is not shown.
pub proof fn a_preview_shows_words_while_they_are_said(page: CaptionPageModel, from: int) -> (places: Seq<int>)
    requires
        0 <= from <= page.tokens.len(),
    ensures
        places.len() == words_from(page, from).len(),
        forall|k: int|
            0 <= k < places.len() ==> {
                let token = page.tokens[places[k]];
                let word = words_from(page, from)[k];
                &&& from <= #[trigger] places[k] < page.tokens.len()
                &&& word.text == token.text
                &&& word.start_us.0 == max(token.start_us.0 as int, page.start_us.0 as int)
                &&& word.end_us.0 == min(token.end_us.0 as int, page.end_us.0 as int)
                &&& word.start_us.0 < word.end_us.0
            },
        forall|j: int, k: int| 0 <= j < k < places.len() ==> places[j] < places[k],
        forall|i: int|
            from <= i < page.tokens.len() && max(
                (#[trigger] page.tokens[i]).start_us.0 as int,
                page.start_us.0 as int,
            ) < min(page.tokens[i].end_us.0 as int, page.end_us.0 as int) ==> places.contains(i),
    decreases page.tokens.len() - from,
{
    if from == page.tokens.len() {
        Seq::empty()
    } else {
        let rest = a_preview_shows_words_while_they_are_said(page, from + 1);
        let token = page.tokens[from];
        let after = words_from(page, from + 1);
        let all = words_from(page, from);
        if word_start(page, token) < word_end(page, token) {
            let places = seq![from] + rest;
            assert forall|k: int| 1 <= k < places.len() implies #[trigger] places[k] == rest[k - 1] && all[k]
                == after[k - 1] by {
            }
            assert forall|i: int|
                from <= i < page.tokens.len() && max(
                    (#[trigger] page.tokens[i]).start_us.0 as int,
                    page.start_us.0 as int,
                ) < min(page.tokens[i].end_us.0 as int, page.end_us.0 as int) implies places.contains(i) by {
                if i == from {
                    assert(places[0] == i);
                } else {
                    let k = choose|k: int| 0 <= k < rest.len() && rest[k] == i;
                    assert(places[k + 1] == i);
                }
            }
            places
        } else {
            rest
        }
    }
}

} // verus!
