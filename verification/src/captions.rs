//! Captions on the timeline's clock: the words of a cue, when each is said, and the pages they make.

use crate::caption_presets::AssCaptionPreset;
use crate::error::{fault, fault_at, or_else, refusal, refuse, unless, Fault, VideoError, VideoErrorCode, VideoResult};
use crate::manifest::{
    CaptionCue, CaptionCueModel, TimelineClip, TimelineClipModel, TrackKind, TranscriptSegment, TranscriptWord,
    VideoProjectManifest, VideoProjectManifestModel,
};
use crate::manifest_rules::is_text;
use crate::model::{find, find_last, find_last_named, find_named};
use crate::text::{chars_in, chars_of, lowercase, text_of, uppercase};
use crate::time::{on_clock, range_between, range_fault, Microseconds, TimeRange};
use crate::timeline::{map_source_endpoint_to_timeline, timeline_instant, to_timeline_fault, QuantizeMode};
use crate::words::{split_words, words_of};
use vstd::math::{max, min};
use vstd::prelude::*;

verus! {

/// The shortest page that a subtitle can show.
pub const MIN_ASS_PAGE_DURATION_US: i64 = 20_000;

/// A word of a caption, or a part of one, and when it is said.
#[derive(Clone, Debug, PartialEq, Eq)]
pub struct TimedCaptionToken {
    pub text: String,
    pub space_before: bool,
    pub start_us: Microseconds,
    pub end_us: Microseconds,
}

/// What a [`TimedCaptionToken`] holds, as mathematical values.
pub struct TimedCaptionTokenModel {
    pub text: Seq<char>,
    pub space_before: bool,
    pub start_us: Microseconds,
    pub end_us: Microseconds,
}

impl DeepView for TimedCaptionToken {
    type V = TimedCaptionTokenModel;

    open spec fn deep_view(&self) -> TimedCaptionTokenModel {
        TimedCaptionTokenModel {
            text: self.text@,
            space_before: self.space_before,
            start_us: self.start_us,
            end_us: self.end_us,
        }
    }
}

/// What is shown of a caption at one time.
#[derive(Clone, Debug, PartialEq, Eq)]
pub struct CaptionPage {
    pub tokens: Vec<TimedCaptionToken>,
    pub start_us: Microseconds,
    pub end_us: Microseconds,
}

/// What a [`CaptionPage`] holds, as mathematical values.
pub struct CaptionPageModel {
    pub tokens: Seq<TimedCaptionTokenModel>,
    pub start_us: Microseconds,
    pub end_us: Microseconds,
}

impl DeepView for CaptionPage {
    type V = CaptionPageModel;

    open spec fn deep_view(&self) -> CaptionPageModel {
        CaptionPageModel { tokens: self.tokens.deep_view(), start_us: self.start_us, end_us: self.end_us }
    }
}

// ---------------------------------------------------------------------------------------------
// Pacing by weight
// ---------------------------------------------------------------------------------------------
/// The sum of the first weights.
pub open spec fn weight_of(weights: Seq<usize>, count: int) -> int
    decreases count,
{
    if count <= 0 {
        0
    } else {
        weight_of(weights, count - 1) + weights[count - 1]
    }
}

pub open spec fn total_weight(weights: Seq<usize>) -> int {
    weight_of(weights, weights.len() as int)
}

/// Where the range is cut before the item at a place: in proportion to the weights before it.
pub open spec fn cut_at(range: TimeRange, weights: Seq<usize>, place: int) -> int {
    if place <= 0 {
        range.start()
    } else if place >= weights.len() {
        range.end()
    } else {
        range.start() + (range.length() * weight_of(weights, place)) / total_weight(weights)
    }
}

/// A range divided in proportion to some weights.
pub open spec fn divided(range: TimeRange, weights: Seq<usize>) -> Seq<TimeRange> {
    Seq::new(
        weights.len(),
        |i: int| range_between(cut_at(range, weights, i), cut_at(range, weights, i + 1)),
    )
}

pub open spec fn weighting_fault() -> Fault {
    fault(VideoErrorCode::ArithmeticOverflow, "caption token weighting overflowed"@)
}

/// Why the part at a place cannot be cut.
pub open spec fn part_fault(range: TimeRange, weights: Seq<usize>, place: int) -> Option<Fault> {
    or_else(
        unless(
            place + 1 >= weights.len() || range.length() * weight_of(weights, place + 1) <= i128::MAX,
            fault(VideoErrorCode::ArithmeticOverflow, "caption token timing overflowed"@),
        ),
        or_else(
            unless(
                cut_at(range, weights, place) < cut_at(range, weights, place + 1),
                fault_at(
                    VideoErrorCode::InvalidCaption,
                    "caption duration is too short for positive token timing"@,
                    "captions.range"@,
                ),
            ),
            range_fault(cut_at(range, weights, place), cut_at(range, weights, place + 1)),
        ),
    )
}

pub open spec fn parts_fault_from(range: TimeRange, weights: Seq<usize>, place: int) -> Option<Fault>
    decreases weights.len() - place,
{
    if place < 0 || place >= weights.len() {
        None
    } else {
        or_else(part_fault(range, weights, place), parts_fault_from(range, weights, place + 1))
    }
}

/// Why a range cannot be divided in proportion to some weights.
pub open spec fn division_fault(range: TimeRange, weights: Seq<usize>) -> Option<Fault> {
    if weights.len() == 0 {
        None
    } else {
        or_else(
            unless(
                on_clock(range.length()),
                fault(VideoErrorCode::ArithmeticOverflow, "time range duration overflowed"@),
            ),
            or_else(
                unless(
                    range.length() >= if weights.len() <= i64::MAX {
                        weights.len() as int
                    } else {
                        i64::MAX as int
                    },
                    fault_at(
                        VideoErrorCode::InvalidCaption,
                        "caption duration is too short for deterministic token pacing"@,
                        "captions.range"@,
                    ),
                ),
                or_else(
                    unless(total_weight(weights) <= i128::MAX, weighting_fault()),
                    parts_fault_from(range, weights, 0),
                ),
            ),
        )
    }
}

/// Whether a range can be divided in proportion to some weights: where it is cut, they weigh something.
pub open spec fn divisible(weights: Seq<usize>) -> bool {
    weights.len() >= 2 ==> total_weight(weights) > 0
}

/// Weights above zero can be divided by.
pub proof fn positive_weights_are_divisible(weights: Seq<usize>)
    requires
        all_positive(weights),
    ensures
        divisible(weights),
{
    if weights.len() > 0 {
        lemma_weight_grows(weights, 0, weights.len() - 1);
        assert(weights[weights.len() - 1] > 0);
    }
}

pub open spec fn all_positive(weights: Seq<usize>) -> bool {
    forall|i: int| 0 <= i < weights.len() ==> #[trigger] weights[i] > 0
}

proof fn lemma_weight_grows(weights: Seq<usize>, from: int, to: int)
    requires
        0 <= from <= to <= weights.len(),
    ensures
        0 <= weight_of(weights, from) <= weight_of(weights, to),
    decreases to,
{
    if to > 0 {
        if from < to {
            lemma_weight_grows(weights, from, to - 1);
        } else {
            lemma_weight_grows(weights, from - 1, to - 1);
        }
    }
}

proof fn lemma_share(length: int, part: int, total: int)
    requires
        0 <= length,
        0 <= part <= total,
        0 < total,
    ensures
        0 <= (length * part) / total <= length,
        0 <= length * part,
{
    assert(0 <= length * part <= length * total) by (nonlinear_arith)
        requires
            0 <= length,
            0 <= part <= total,
    ;
    vstd::arithmetic::div_mod::lemma_div_pos_is_pos(length * part, total);
    vstd::arithmetic::div_mod::lemma_div_is_ordered(length * part, length * total, total);
    vstd::arithmetic::div_mod::lemma_div_multiples_vanish(length, total);
    assert(total * length == length * total) by (nonlinear_arith);
}

fn sum_weights(weights: &Vec<usize>) -> (result: VideoResult<i128>)
    ensures
        refusal(result) == unless(total_weight(weights@) <= i128::MAX, weighting_fault()),
        result matches Ok(total) ==> total == total_weight(weights@),
{
    let mut total: i128 = 0;
    let mut index: usize = 0;
    while index < weights.len()
        invariant
            index <= weights.len(),
            0 <= total,
            total == weight_of(weights@, index as int),
        decreases weights.len() - index,
    {
        let weight: i128 = weights[index] as i128;
        if total > i128::MAX - weight {
            proof {
                lemma_weight_grows(weights@, index + 1, weights@.len() as int);
            }
            return Err(
                VideoError::new(
                    VideoErrorCode::ArithmeticOverflow,
                    "caption token weighting overflowed",
                ),
            );
        }
        total = total + weight;
        index += 1;
    }
    Ok(total)
}

/// Divides a range in proportion to some weights: the parts follow one another and fill the range.
pub fn weighted_ranges(range: TimeRange, weights: &Vec<usize>) -> (result: VideoResult<Vec<TimeRange>>)
    requires
        divisible(weights@),
    ensures
        refusal(result) == division_fault(range, weights@),
        result matches Ok(parts) ==> parts@ == divided(range, weights@),
{
    let mut parts: Vec<TimeRange> = Vec::new();
    if weights.len() == 0 {
        assert(parts@ =~= divided(range, weights@));
        return Ok(parts);
    }
    let duration: i64 = range.duration()?.0;
    let least: i64 = if weights.len() as u64 > i64::MAX as u64 {
        i64::MAX
    } else {
        weights.len() as i64
    };
    if duration < least {
        return Err(
            refuse(
                VideoErrorCode::InvalidCaption,
                "caption duration is too short for deterministic token pacing",
                "captions.range",
            ),
        );
    }
    let total: i128 = sum_weights(weights)?;
    let ghost w = weights@;
    let ghost count = w.len() as int;
    let mut before: i128 = 0;
    let mut cursor: i64 = range.start_us.0;
    let mut index: usize = 0;
    while index < weights.len()
        invariant
            index <= weights.len(),
            w == weights@,
            count == w.len(),
            divisible(w),
            duration == range.length(),
            duration > 0,
            total == total_weight(w),
            before == weight_of(w, index as int),
            0 <= before,
            cursor == cut_at(range, w, index as int),
            parts.len() == index,
            forall|i: int|
                0 <= i < index ==> #[trigger] parts[i] == range_between(
                    cut_at(range, w, i),
                    cut_at(range, w, i + 1),
                ),
            division_fault(range, w) == parts_fault_from(range, w, index as int),
        decreases weights.len() - index,
    {
        proof {
            lemma_weight_grows(w, index + 1, count);
            lemma_weight_grows(w, 0, index + 1);
            if index + 1 < count {
                lemma_share(duration as int, weight_of(w, index + 1), total_weight(w));
            }
        }
        before = before + weights[index] as i128;
        let end: i64 = if index + 1 == weights.len() {
            range.end_us.0
        } else {
            match (duration as i128).checked_mul(before) {
                Some(product) => range.start_us.0 + (product / total) as i64,
                None => {
                    return Err(
                        VideoError::new(
                            VideoErrorCode::ArithmeticOverflow,
                            "caption token timing overflowed",
                        ),
                    );
                },
            }
        };
        assert(end == cut_at(range, w, index + 1));
        if end <= cursor {
            return Err(
                refuse(
                    VideoErrorCode::InvalidCaption,
                    "caption duration is too short for positive token timing",
                    "captions.range",
                ),
            );
        }
        parts.push(TimeRange::new(cursor, end)?);
        cursor = end;
        index += 1;
    }
    assert(parts@ =~= divided(range, w));
    Ok(parts)
}

/// The parts of a divided range start where it starts, meet end to start, and end where it ends.
pub proof fn parts_fill_the_range(range: TimeRange, weights: Seq<usize>, place: int)
    requires
        divisible(weights),
        division_fault(range, weights) is None,
        0 <= place < weights.len(),
    ensures
        divided(range, weights)[place].valid(),
        place == 0 ==> divided(range, weights)[place].start() == range.start(),
        place + 1 < weights.len() ==> divided(range, weights)[place].end() == divided(
            range,
            weights,
        )[place + 1].start(),
        place + 1 == weights.len() ==> divided(range, weights)[place].end() == range.end(),
{
    lemma_parts(range, weights, 0, place);
    lemma_cut_within(range, weights, place);
    lemma_cut_within(range, weights, place + 1);
    if place + 1 < weights.len() {
        lemma_cut_within(range, weights, place + 2);
        lemma_parts(range, weights, 0, place + 1);
    }
}

/// Every cut of a range lies on it.
pub proof fn lemma_cut_within(range: TimeRange, weights: Seq<usize>, place: int)
    requires
        divisible(weights),
        range.length() >= 0,
        0 <= place <= weights.len(),
    ensures
        range.start() <= cut_at(range, weights, place) <= range.end(),
{
    if 0 < place < weights.len() {
        lemma_weight_grows(weights, place, weights.len() as int);
        lemma_weight_grows(weights, 0, place);
        lemma_share(range.length(), weight_of(weights, place), total_weight(weights));
    }
}

proof fn lemma_parts(range: TimeRange, weights: Seq<usize>, from: int, place: int)
    requires
        parts_fault_from(range, weights, from) is None,
        0 <= from <= place < weights.len(),
    ensures
        part_fault(range, weights, place) is None,
    decreases place - from,
{
    if from < place {
        lemma_parts(range, weights, from + 1, place);
    }
}

// ---------------------------------------------------------------------------------------------
// Words on the source clock
// ---------------------------------------------------------------------------------------------
pub open spec fn larger(a: int, b: int) -> int {
    if a >= b {
        a
    } else {
        b
    }
}

pub open spec fn smaller(a: int, b: int) -> int {
    if a <= b {
        a
    } else {
        b
    }
}

/// Whether a clip plays a stretch of a source in a scene.
pub open spec fn carries(clip: TimelineClipModel, scene_id: Seq<char>, source_id: Seq<char>, word: TimeRange) -> bool {
    &&& clip.scene_id == Some(scene_id)
    &&& clip.media.source_asset_id == Some(source_id)
    &&& clip.source_range.start() <= word.start() <= clip.source_range.end()
    &&& clip.source_range.start() <= word.end() <= clip.source_range.end()
}

/// When a clip says a word, within a cue.
pub open spec fn said_at(clip: TimelineClipModel, word: TimeRange, cue: TimeRange) -> (int, int) {
    (
        larger(timeline_instant(clip, word.start(), QuantizeMode::Nearest), cue.start()),
        smaller(timeline_instant(clip, word.end(), QuantizeMode::Nearest), cue.end()),
    )
}

/// When the clips from a place on say a word, given when those before did. It is `None` where a clip
/// cannot map the word or two clips disagree.
pub open spec fn heard_from(
    m: VideoProjectManifestModel,
    scene_id: Seq<char>,
    source_id: Seq<char>,
    word: TimeRange,
    cue: TimeRange,
    track: int,
    clip: int,
    known: Option<(int, int)>,
) -> Option<Option<(int, int)>>
    decreases m.tracks.len() - track, m.tracks[track].clips.len() - clip,
{
    if track < 0 || clip < 0 || track >= m.tracks.len() {
        Some(known)
    } else if clip >= m.tracks[track].clips.len() || !(m.tracks[track].kind == TrackKind::Audio || m.tracks[track].kind
        == TrackKind::Video) {
        heard_from(m, scene_id, source_id, word, cue, track + 1, 0, known)
    } else {
        let here = m.tracks[track].clips[clip];
        let said = said_at(here, word, cue);
        if !carries(here, scene_id, source_id, word) {
            heard_from(m, scene_id, source_id, word, cue, track, clip + 1, known)
        } else if to_timeline_fault(here, word.start(), QuantizeMode::Nearest) is Some || to_timeline_fault(
            here,
            word.end(),
            QuantizeMode::Nearest,
        ) is Some {
            None
        } else if said.1 <= said.0 {
            heard_from(m, scene_id, source_id, word, cue, track, clip + 1, known)
        } else if known is Some && known != Some(said) {
            None
        } else {
            heard_from(m, scene_id, source_id, word, cue, track, clip + 1, Some(said))
        }
    }
}

/// The one stretch of a cue in which a word is said, where there is one.
pub open spec fn heard(
    m: VideoProjectManifestModel,
    scene_id: Seq<char>,
    source_id: Seq<char>,
    word: TimeRange,
    cue: TimeRange,
) -> Option<(int, int)> {
    match heard_from(m, scene_id, source_id, word, cue, 0, 0, None) {
        Some(known) => known,
        None => None,
    }
}

/// When the words from a place on are said: each in one stretch of the cue, one after the other.
pub open spec fn clocked_from(
    m: VideoProjectManifestModel,
    scene_id: Seq<char>,
    word_ids: Seq<Seq<char>>,
    cue: TimeRange,
    place: int,
    previous: int,
) -> Option<Seq<TimeRange>>
    decreases word_ids.len() - place,
{
    if place < 0 || place >= word_ids.len() {
        Some(Seq::empty())
    } else {
        match find_last::<TranscriptWord>(m.transcript->0.words, word_ids[place]) {
            Some(word) => match heard(m, scene_id, m.transcript->0.source_asset_id, word.range, cue) {
                Some(said) => if range_fault(said.0, said.1) is Some || said.0 < previous {
                    None
                } else {
                    match clocked_from(m, scene_id, word_ids, cue, place + 1, said.1) {
                        Some(rest) => Some(seq![range_between(said.0, said.1)] + rest),
                        None => None,
                    }
                },
                None => None,
            },
            None => None,
        }
    }
}

/// When the words of a cue are said, where the transcript shows it of as many words as the cue has.
pub open spec fn exact_ranges(m: VideoProjectManifestModel, cue: CaptionCueModel, count: int) -> Option<Seq<TimeRange>> {
    if m.transcript is Some && cue.transcript_segment_id is Some && cue.scene_id is Some {
        match find::<TranscriptSegment>(m.transcript->0.segments, cue.transcript_segment_id->0) {
            Some(segment) => if segment.word_ids.len() != count || segment.word_ids.len() == 0 {
                None
            } else {
                clocked_from(m, cue.scene_id->0, segment.word_ids, cue.range, 0, cue.range.start())
            },
            None => None,
        }
    } else {
        None
    }
}

fn hear_word(
    manifest: &VideoProjectManifest,
    scene_id: &str,
    source_id: &str,
    word: TimeRange,
    cue: TimeRange,
) -> (result: Option<(i64, i64)>)
    ensures
        match result {
            Some(said) => heard(manifest.deep_view(), scene_id@, source_id@, word, cue) == Some(
                (said.0 as int, said.1 as int),
            ),
            None => heard(manifest.deep_view(), scene_id@, source_id@, word, cue) is None,
        },
{
    let ghost m = manifest.deep_view();
    let ghost whole = heard_from(m, scene_id@, source_id@, word, cue, 0, 0, None);
    let mut known: Option<(i64, i64)> = None;
    let ghost mut view: Option<(int, int)> = None;
    let mut track: usize = 0;
    while track < manifest.tracks.len()
        invariant
            track <= manifest.tracks.len(),
            m == manifest.deep_view(),
            whole == heard_from(m, scene_id@, source_id@, word, cue, 0, 0, None),
            known is Some <==> view is Some,
            known matches Some(said) ==> view == Some((said.0 as int, said.1 as int)),
            whole == heard_from(m, scene_id@, source_id@, word, cue, track as int, 0, view),
        decreases manifest.tracks.len() - track,
    {
        assert(m.tracks[track as int] == manifest.tracks[track as int].deep_view());
        if manifest.tracks[track].kind == TrackKind::Audio || manifest.tracks[track].kind == TrackKind::Video {
            let clips: &Vec<TimelineClip> = &manifest.tracks[track].clips;
            let mut clip: usize = 0;
            while clip < clips.len()
                invariant
                    clip <= clips.len(),
                    track < manifest.tracks.len(),
                    m == manifest.deep_view(),
                    m.tracks.len() == manifest.tracks.len(),
                    m.tracks[track as int].clips == clips.deep_view(),
                    m.tracks[track as int].kind == TrackKind::Audio || m.tracks[track as int].kind
                        == TrackKind::Video,
                    whole == heard_from(m, scene_id@, source_id@, word, cue, 0, 0, None),
                    known is Some <==> view is Some,
                    known matches Some(said) ==> view == Some((said.0 as int, said.1 as int)),
                    whole == heard_from(m, scene_id@, source_id@, word, cue, track as int, clip as int, view),
                decreases clips.len() - clip,
            {
                let here: &TimelineClip = &clips[clip];
                assert(m.tracks[track as int].clips[clip as int] == here.deep_view());
                if is_text(&here.scene_id, scene_id) && is_text(&here.media.source_asset_id, source_id)
                    && here.source_range.contains_endpoint(word.start_us) && here.source_range.contains_endpoint(
                    word.end_us,
                ) {
                    match (
                        map_source_endpoint_to_timeline(here, word.start_us, QuantizeMode::Nearest),
                        map_source_endpoint_to_timeline(here, word.end_us, QuantizeMode::Nearest),
                    ) {
                        (Ok(from), Ok(to)) => {
                            let start: i64 = from.later(cue.start_us).0;
                            let end: i64 = to.earlier(cue.end_us).0;
                            if end > start {
                                if let Some(said) = known {
                                    if said.0 != start || said.1 != end {
                                        return None;
                                    }
                                }
                                known = Some((start, end));
                                proof {
                                    view = Some((start as int, end as int));
                                }
                            }
                        },
                        _ => {
                            return None;
                        },
                    }
                }
                clip += 1;
            }
        }
        track += 1;
    }
    known
}

/// The ranges in which the words of a cue are said, mapped through the same clips that play them.
/// Overlapping or reordered evidence, or clips that disagree, leave the cue without any.
pub fn exact_caption_word_ranges(
    manifest: &VideoProjectManifest,
    caption: &CaptionCue,
    display_token_count: usize,
) -> (result: Option<Vec<TimeRange>>)
    ensures
        match result {
            Some(ranges) => exact_ranges(
                manifest.deep_view(),
                caption.deep_view(),
                display_token_count as int,
            ) == Some(ranges@),
            None => exact_ranges(manifest.deep_view(), caption.deep_view(), display_token_count as int) is None,
        },
{
    let ghost m = manifest.deep_view();
    match (&manifest.transcript, &caption.transcript_segment_id, &caption.scene_id) {
        (Some(transcript), Some(segment_id), Some(scene_id)) => {
            match find_named(&transcript.segments, segment_id.as_str()) {
                Some(segment) => {
                    let ids: &Vec<String> = &segment.word_ids;
                    let ghost model = ids.deep_view();
                    assert(model.len() == ids.len());
                    if ids.len() != display_token_count || ids.len() == 0 {
                        return None;
                    }
                    let ghost whole = clocked_from(
                        m,
                        scene_id@,
                        model,
                        caption.range,
                        0,
                        caption.range.start(),
                    );
                    let mut ranges: Vec<TimeRange> = Vec::new();
                    let mut previous: i64 = caption.range.start_us.0;
                    let mut place: usize = 0;
                    assert(whole matches Some(all) ==> ranges@ + all =~= all);
                    while place < ids.len()
                        invariant
                            place <= ids.len(),
                            m == manifest.deep_view(),
                            manifest.transcript == Some(*transcript),
                            model == ids.deep_view(),
                            whole == (match clocked_from(
                                m,
                                scene_id@,
                                model,
                                caption.range,
                                place as int,
                                previous as int,
                            ) {
                                Some(rest) => Some(ranges@ + rest),
                                None => None,
                            }),
                            exact_ranges(m, caption.deep_view(), display_token_count as int) == whole,
                        decreases ids.len() - place,
                    {
                        assert(model[place as int] == ids[place as int]@);
                        match find_last_named(&transcript.words, ids[place].as_str()) {
                            Some(word) => {
                                match hear_word(
                                    manifest,
                                    scene_id.as_str(),
                                    transcript.source_asset_id.as_str(),
                                    word.range,
                                    caption.range,
                                ) {
                                    Some(said) => {
                                        match TimeRange::new(said.0, said.1) {
                                            Ok(range) => {
                                                if said.0 < previous {
                                                    return None;
                                                }
                                                let ghost before = ranges@;
                                                ranges.push(range);
                                                proof {
                                                    let rest = clocked_from(
                                                        m,
                                                        scene_id@,
                                                        model,
                                                        caption.range,
                                                        place + 1,
                                                        said.1 as int,
                                                    );
                                                    if rest is Some {
                                                        assert(ranges@ + rest->0 =~= before + (seq![range] + rest->0));
                                                    }
                                                }
                                                previous = said.1;
                                            },
                                            Err(_) => {
                                                return None;
                                            },
                                        }
                                    },
                                    None => {
                                        return None;
                                    },
                                }
                            },
                            None => {
                                return None;
                            },
                        }
                        place += 1;
                    }
                    assert(ranges@ + Seq::<TimeRange>::empty() =~= ranges@);
                    Some(ranges)
                },
                None => None,
            }
        },
        _ => None,
    }
}

// ---------------------------------------------------------------------------------------------
// The tokens of a cue
// ---------------------------------------------------------------------------------------------
/// A word in the case that a look asks for.
pub open spec fn cased(word: Seq<char>, preset: AssCaptionPreset) -> Seq<char> {
    if preset.uppercase {
        uppercase(word)
    } else if preset.lowercase {
        lowercase(word)
    } else {
        word
    }
}

/// The words from a place on as a look shows them.
pub open spec fn cased_from(words: Seq<Seq<char>>, preset: AssCaptionPreset, place: int) -> Seq<Seq<char>>
    decreases words.len() - place,
{
    if place < 0 || place >= words.len() {
        Seq::empty()
    } else if cased(words[place], preset).len() > 0 {
        seq![cased(words[place], preset)] + cased_from(words, preset, place + 1)
    } else {
        cased_from(words, preset, place + 1)
    }
}

/// The words of a text as a look shows them.
pub open spec fn shown_words(text: Seq<char>, preset: AssCaptionPreset) -> Seq<Seq<char>> {
    cased_from(words_of(text), preset, 0)
}

/// A text weighs as much as it has characters, and never nothing.
pub open spec fn text_weight(text: Seq<char>) -> usize {
    if text.len() == 0 {
        1
    } else {
        text.len() as usize
    }
}

pub open spec fn weights_of(texts: Seq<Seq<char>>) -> Seq<usize> {
    Seq::new(texts.len(), |i: int| text_weight(texts[i]))
}

/// Texts with the ranges in which they are said.
pub open spec fn timed(texts: Seq<Seq<char>>, ranges: Seq<TimeRange>, spaced: bool, apart: bool) -> Seq<
    TimedCaptionTokenModel,
> {
    Seq::new(
        texts.len(),
        |i: int|
            TimedCaptionTokenModel {
                text: texts[i],
                space_before: if i == 0 {
                    spaced
                } else {
                    apart
                },
                start_us: ranges[i].start_us,
                end_us: ranges[i].end_us,
            },
    )
}

/// A text in pieces of so many characters, from a place on.
pub open spec fn chunks_from(text: Seq<char>, size: int, from: int) -> Seq<Seq<char>>
    decreases text.len() - from,
{
    if from < 0 || size <= 0 || from >= text.len() {
        Seq::empty()
    } else {
        let to = smaller(from + size, text.len() as int);
        seq![text.subrange(from, to)] + chunks_from(text, size, to)
    }
}

pub open spec fn token_range(token: TimedCaptionTokenModel) -> TimeRange {
    TimeRange { start_us: token.start_us, end_us: token.end_us }
}

/// A token as it fits on lines: whole, or in pieces that share its time.
pub open spec fn pieces(token: TimedCaptionTokenModel, size: int) -> Seq<TimedCaptionTokenModel> {
    if token.text.len() <= size {
        seq![token]
    } else {
        let texts = chunks_from(token.text, size, 0);
        timed(texts, divided(token_range(token), weights_of(texts)), token.space_before, false)
    }
}

pub open spec fn pieces_fault(token: TimedCaptionTokenModel, size: int) -> Option<Fault> {
    if token.text.len() <= size {
        None
    } else {
        or_else(
            range_fault(token.start_us.0 as int, token.end_us.0 as int),
            division_fault(token_range(token), weights_of(chunks_from(token.text, size, 0))),
        )
    }
}

pub open spec fn split_from(tokens: Seq<TimedCaptionTokenModel>, size: int, place: int) -> Seq<TimedCaptionTokenModel>
    decreases tokens.len() - place,
{
    if place < 0 || place >= tokens.len() {
        Seq::empty()
    } else {
        pieces(tokens[place], size) + split_from(tokens, size, place + 1)
    }
}

pub open spec fn split_fault_from(tokens: Seq<TimedCaptionTokenModel>, size: int, place: int) -> Option<Fault>
    decreases tokens.len() - place,
{
    if place < 0 || place >= tokens.len() {
        None
    } else {
        or_else(pieces_fault(tokens[place], size), split_fault_from(tokens, size, place + 1))
    }
}

/// The words of a cue and when each is said: where the transcript shows it, or in proportion to their
/// lengths within the cue.
pub open spec fn spoken_tokens(m: VideoProjectManifestModel, cue: CaptionCueModel, preset: AssCaptionPreset) -> Seq<
    TimedCaptionTokenModel,
> {
    let words = shown_words(cue.text, preset);
    match exact_ranges(m, cue, words.len() as int) {
        Some(ranges) => timed(words, ranges, false, true),
        None => timed(words, divided(cue.range, weights_of(words)), false, true),
    }
}

/// The tokens of a cue.
pub open spec fn tokens_of(m: VideoProjectManifestModel, cue: CaptionCueModel, preset: AssCaptionPreset) -> Seq<
    TimedCaptionTokenModel,
> {
    split_from(spoken_tokens(m, cue, preset), preset.paging.max_chars_per_line as int, 0)
}

/// Why a cue has no tokens. Even where the transcript shows when its words are said, the cue has to be
/// long enough to pace them.
pub open spec fn tokens_fault(m: VideoProjectManifestModel, cue: CaptionCueModel, preset: AssCaptionPreset) -> Option<Fault> {
    let words = shown_words(cue.text, preset);
    or_else(
        unless(
            words.len() > 0,
            fault_at(
                VideoErrorCode::InvalidCaption,
                "caption contains no renderable words"@,
                "captions.text"@,
            ),
        ),
        or_else(
            division_fault(cue.range, weights_of(words)),
            split_fault_from(
                spoken_tokens(m, cue, preset),
                preset.paging.max_chars_per_line as int,
                0,
            ),
        ),
    )
}

fn apply_caption_casing(value: &str, preset: &AssCaptionPreset) -> (result: String)
    ensures
        result@ == cased(value@, *preset),
{
    if preset.uppercase {
        value.to_uppercase()
    } else if preset.lowercase {
        value.to_lowercase()
    } else {
        value.to_owned()
    }
}

fn show_words(text: &str, preset: &AssCaptionPreset) -> (result: Vec<String>)
    ensures
        result.deep_view() == shown_words(text@, *preset),
{
    let words: Vec<String> = split_words(text);
    let ghost model = words.deep_view();
    let ghost whole = cased_from(model, *preset, 0);
    let mut result: Vec<String> = Vec::new();
    let mut place: usize = 0;
    assert(result.deep_view() + whole =~= whole);
    while place < words.len()
        invariant
            place <= words.len(),
            model == words.deep_view(),
            result.deep_view() + cased_from(model, *preset, place as int) == whole,
        decreases words.len() - place,
    {
        assert(model[place as int] == words[place as int]@);
        let word: String = apply_caption_casing(words[place].as_str(), preset);
        if chars_in(word.as_str()) > 0 {
            let ghost before = result.deep_view();
            let ghost own = word@;
            let ghost rest = cased_from(model, *preset, place + 1);
            result.push(word);
            assert(result.deep_view() =~= before.push(own));
            assert(result.deep_view() + rest =~= before + (seq![own] + rest));
        }
        place += 1;
    }
    assert(result.deep_view() =~= whole);
    result
}

pub(crate) fn weigh(texts: &Vec<String>) -> (weights: Vec<usize>)
    ensures
        weights@ == weights_of(texts.deep_view()),
        divisible(weights@),
{
    let ghost model = texts.deep_view();
    let mut weights: Vec<usize> = Vec::new();
    let mut place: usize = 0;
    while place < texts.len()
        invariant
            place <= texts.len(),
            model == texts.deep_view(),
            weights.len() == place,
            forall|i: int| 0 <= i < place ==> #[trigger] weights[i] == text_weight(model[i]) && weights[i] > 0,
        decreases texts.len() - place,
    {
        assert(model[place as int] == texts[place as int]@);
        let length: usize = chars_in(texts[place].as_str());
        weights.push(if length == 0 {
            1
        } else {
            length
        });
        place += 1;
    }
    assert(weights@ =~= weights_of(model));
    proof {
        positive_weights_are_divisible(weights@);
    }
    weights
}

fn time_texts(texts: &Vec<String>, ranges: &Vec<TimeRange>, spaced: bool, apart: bool) -> (tokens: Vec<
    TimedCaptionToken,
>)
    requires
        texts.len() == ranges.len(),
    ensures
        tokens.deep_view() == timed(texts.deep_view(), ranges@, spaced, apart),
{
    let ghost model = texts.deep_view();
    let ghost whole = timed(model, ranges@, spaced, apart);
    let mut tokens: Vec<TimedCaptionToken> = Vec::new();
    let mut place: usize = 0;
    while place < texts.len()
        invariant
            place <= texts.len(),
            texts.len() == ranges.len(),
            model == texts.deep_view(),
            whole == timed(model, ranges@, spaced, apart),
            tokens.len() == place,
            forall|i: int| 0 <= i < place ==> (#[trigger] tokens[i]).deep_view() == whole[i],
        decreases texts.len() - place,
    {
        assert(model[place as int] == texts[place as int]@);
        tokens.push(
            TimedCaptionToken {
                text: texts[place].clone(),
                space_before: if place == 0 {
                    spaced
                } else {
                    apart
                },
                start_us: ranges[place].start_us,
                end_us: ranges[place].end_us,
            },
        );
        place += 1;
    }
    assert(tokens.deep_view() =~= whole);
    tokens
}

fn chunk(text: &str, size: usize) -> (result: Vec<String>)
    requires
        size > 0,
    ensures
        result.deep_view() == chunks_from(text@, size as int, 0),
{
    let chars: Vec<char> = chars_of(text);
    let ghost whole = chunks_from(text@, size as int, 0);
    let mut result: Vec<String> = Vec::new();
    let mut from: usize = 0;
    assert(result.deep_view() + whole =~= whole);
    while from < chars.len()
        invariant
            from <= chars.len(),
            size > 0,
            chars@ == text@,
            result.deep_view() + chunks_from(text@, size as int, from as int) == whole,
        decreases chars.len() - from,
    {
        let to: usize = if chars.len() - from > size {
            from + size
        } else {
            chars.len()
        };
        let part: String = text_of(&chars, from, to);
        let ghost before = result.deep_view();
        let ghost own = part@;
        let ghost rest = chunks_from(text@, size as int, to as int);
        result.push(part);
        assert(result.deep_view() =~= before.push(own));
        assert(result.deep_view() + rest =~= before + (seq![own] + rest));
        from = to;
    }
    assert(result.deep_view() =~= whole);
    result
}

pub(crate) fn copy_token(token: &TimedCaptionToken) -> (copy: TimedCaptionToken)
    ensures
        copy.deep_view() == token.deep_view(),
{
    TimedCaptionToken {
        text: token.text.clone(),
        space_before: token.space_before,
        start_us: token.start_us,
        end_us: token.end_us,
    }
}

fn cut_token(token: &TimedCaptionToken, size: usize) -> (result: VideoResult<Vec<TimedCaptionToken>>)
    requires
        size > 0,
    ensures
        refusal(result) == pieces_fault(token.deep_view(), size as int),
        result matches Ok(parts) ==> parts.deep_view() == pieces(token.deep_view(), size as int),
{
    if chars_in(token.text.as_str()) <= size {
        let mut parts: Vec<TimedCaptionToken> = Vec::new();
        parts.push(copy_token(token));
        assert(parts.deep_view() =~= seq![token.deep_view()]);
        return Ok(parts);
    }
    let range: TimeRange = TimeRange::new(token.start_us.0, token.end_us.0)?;
    let texts: Vec<String> = chunk(token.text.as_str(), size);
    let weights: Vec<usize> = weigh(&texts);
    let ranges: Vec<TimeRange> = weighted_ranges(range, &weights)?;
    assert(texts.deep_view().len() == texts.len());
    Ok(time_texts(&texts, &ranges, token.space_before, false))
}

/// Splits the tokens that are longer than a line.
pub fn split_oversize_caption_tokens(tokens: &Vec<TimedCaptionToken>, max_chars: usize) -> (result: VideoResult<
    Vec<TimedCaptionToken>,
>)
    requires
        max_chars > 0,
    ensures
        refusal(result) == split_fault_from(tokens.deep_view(), max_chars as int, 0),
        result matches Ok(parts) ==> parts.deep_view() == split_from(tokens.deep_view(), max_chars as int, 0),
{
    let ghost model = tokens.deep_view();
    let ghost size = max_chars as int;
    let ghost whole = split_from(model, size, 0);
    let mut result: Vec<TimedCaptionToken> = Vec::new();
    let mut place: usize = 0;
    assert(result.deep_view() + whole =~= whole);
    while place < tokens.len()
        invariant
            place <= tokens.len(),
            max_chars > 0,
            size == max_chars,
            model == tokens.deep_view(),
            result.deep_view() + split_from(model, size, place as int) == whole,
            split_fault_from(model, size, 0) == split_fault_from(model, size, place as int),
        decreases tokens.len() - place,
    {
        assert(model[place as int] == tokens[place as int].deep_view());
        let mut parts: Vec<TimedCaptionToken> = cut_token(&tokens[place], max_chars)?;
        let ghost before = result.deep_view();
        let ghost own = parts.deep_view();
        let ghost rest = split_from(model, size, place + 1);
        result.append(&mut parts);
        assert(result.deep_view() =~= before + own);
        assert(result.deep_view() + rest =~= before + (own + rest));
        place += 1;
    }
    assert(result.deep_view() =~= whole);
    Ok(result)
}

proof fn lemma_clocked_length(
    m: VideoProjectManifestModel,
    scene_id: Seq<char>,
    word_ids: Seq<Seq<char>>,
    cue: TimeRange,
    place: int,
    previous: int,
)
    requires
        0 <= place <= word_ids.len(),
    ensures
        clocked_from(m, scene_id, word_ids, cue, place, previous) matches Some(ranges) ==> ranges.len()
            == word_ids.len() - place,
    decreases word_ids.len() - place,
{
    if place < word_ids.len() {
        if let Some(word) = find_last::<TranscriptWord>(m.transcript->0.words, word_ids[place]) {
            if let Some(said) = heard(m, scene_id, m.transcript->0.source_asset_id, word.range, cue) {
                lemma_clocked_length(m, scene_id, word_ids, cue, place + 1, said.1);
            }
        }
    }
}

/// The tokens of a cue. The words prefer the ranges mapped through the same clips that play them;
/// where words cannot be matched safely, pacing falls back deterministically across the cue, whose
/// start and end never change.
pub fn timed_caption_tokens(manifest: &VideoProjectManifest, caption: &CaptionCue, preset: &AssCaptionPreset) -> (result:
    VideoResult<Vec<TimedCaptionToken>>)
    requires
        preset.paging.max_chars_per_line > 0,
    ensures
        refusal(result) == tokens_fault(manifest.deep_view(), caption.deep_view(), *preset),
        result matches Ok(tokens) ==> tokens.deep_view() == tokens_of(
            manifest.deep_view(),
            caption.deep_view(),
            *preset,
        ),
{
    let ghost m = manifest.deep_view();
    let ghost cue = caption.deep_view();
    let words: Vec<String> = show_words(caption.text.as_str(), preset);
    assert(words.deep_view().len() == words.len());
    if words.len() == 0 {
        return Err(
            refuse(
                VideoErrorCode::InvalidCaption,
                "caption contains no renderable words",
                "captions.text",
            ),
        );
    }
    let exact: Option<Vec<TimeRange>> = exact_caption_word_ranges(manifest, caption, words.len());
    let weights: Vec<usize> = weigh(&words);
    let paced: Vec<TimeRange> = weighted_ranges(caption.range, &weights)?;
    let tokens: Vec<TimedCaptionToken> = match exact {
        Some(ranges) => {
            proof {
                let segment = find::<TranscriptSegment>(
                    m.transcript->0.segments,
                    cue.transcript_segment_id->0,
                )->0;
                lemma_clocked_length(
                    m,
                    cue.scene_id->0,
                    segment.word_ids,
                    cue.range,
                    0,
                    cue.range.start(),
                );
            }
            time_texts(&words, &ranges, false, true)
        },
        None => time_texts(&words, &paced, false, true),
    };
    split_oversize_caption_tokens(&tokens, preset.paging.max_chars_per_line)
}

/// A range is cut in proportion: what stands before a cut is, to a microsecond, the part of the range that the
/// weights before it are of all weights.
pub proof fn a_range_is_cut_in_proportion(range: TimeRange, weights: Seq<usize>, place: int)
    requires
        0 < place < weights.len(),
        total_weight(weights) > 0,
    ensures
        ({
            let before = cut_at(range, weights, place) - range.start_us.0;
            let part = (range.end_us.0 - range.start_us.0) * weight_of(weights, place);
            before * total_weight(weights) <= part < (before + 1) * total_weight(weights)
        }),
{
    let part = range.length() * weight_of(weights, place);
    let total = total_weight(weights);
    vstd::arithmetic::div_mod::lemma_fundamental_div_mod(part, total);
    vstd::arithmetic::div_mod::lemma_mod_bound(part, total);
    let share = part / total;
    assert(share * total == total * share && (share + 1) * total == total * share + total) by (nonlinear_arith);
}

/// The pieces of a text say it: none is empty, none is longer than asked, all but the last are as long, and one
/// behind the other they are the text.
pub proof fn chunks_say_the_text(text: Seq<char>, size: int, from: int)
    requires
        0 <= from <= text.len(),
        size > 0,
    ensures
        ({
            let chunks = chunks_from(text, size, from);
            &&& chunks.flatten() == text.skip(from)
            &&& forall|i: int| 0 <= i < chunks.len() ==> 0 < (#[trigger] chunks[i]).len() <= size
            &&& forall|i: int| 0 <= i < chunks.len() - 1 ==> (#[trigger] chunks[i]).len() == size
        }),
    decreases text.len() - from,
{
    if from < text.len() {
        let to = smaller(from + size, text.len() as int);
        let rest = chunks_from(text, size, to);
        let chunks = chunks_from(text, size, from);
        chunks_say_the_text(text, size, to);
        assert(chunks == seq![text.subrange(from, to)] + rest);
        assert(chunks.drop_first() =~= rest);
        assert(chunks.first() == text.subrange(from, to));
        assert(chunks.flatten() == chunks.first() + chunks.drop_first().flatten());
        assert(text.subrange(from, to) + text.skip(to) =~= text.skip(from));
        assert forall|i: int| 0 <= i < chunks.len() implies 0 < (#[trigger] chunks[i]).len() <= size by {
            if i > 0 {
                assert(chunks[i] == rest[i - 1]);
            }
        }
        assert forall|i: int| 0 <= i < chunks.len() - 1 implies (#[trigger] chunks[i]).len() == size by {
            if i > 0 {
                assert(chunks[i] == rest[i - 1]);
            }
        }
    } else {
        assert(chunks_from(text, size, from) =~= Seq::empty());
        assert(text.skip(from) =~= Seq::empty());
    }
}

/// Where the transcript shows when the words of a cue are said, each is shown then: within the cue, one behind the
/// other, from where a clip of the cue's scene plays the start of the word to where it plays the end, as far as the
/// cue shows.
pub proof fn words_are_shown_when_they_are_said(
    m: VideoProjectManifestModel,
    scene_id: Seq<char>,
    word_ids: Seq<Seq<char>>,
    cue: TimeRange,
    place: int,
    previous: int,
    index: int,
) -> (stand: (int, int))
    requires
        0 <= place <= index < word_ids.len(),
        clocked_from(m, scene_id, word_ids, cue, place, previous) is Some,
    ensures
        ({
            let ranges = clocked_from(m, scene_id, word_ids, cue, place, previous)->0;
            let shown = ranges[index - place];
            let word = find_last::<TranscriptWord>(m.transcript->0.words, word_ids[index])->0.range;
            let clip = m.tracks[stand.0].clips[stand.1];
            &&& ranges.len() == word_ids.len() - place
            &&& find_last::<TranscriptWord>(m.transcript->0.words, word_ids[index]) is Some
            &&& 0 <= stand.0 < m.tracks.len()
            &&& m.tracks[stand.0].kind == TrackKind::Audio || m.tracks[stand.0].kind == TrackKind::Video
            &&& 0 <= stand.1 < m.tracks[stand.0].clips.len()
            &&& clip.scene_id == Some(scene_id)
            &&& clip.media.source_asset_id == Some(m.transcript->0.source_asset_id)
            &&& clip.source_range.encloses(word)
            &&& shown.start_us.0 == max(
                timeline_instant(clip, word.start_us.0 as int, QuantizeMode::Nearest),
                cue.start_us.0 as int,
            )
            &&& shown.end_us.0 == min(
                timeline_instant(clip, word.end_us.0 as int, QuantizeMode::Nearest),
                cue.end_us.0 as int,
            )
            &&& shown.start_us.0 < shown.end_us.0
            &&& shown.start_us.0 >= previous
            &&& index > place ==> shown.start_us.0 >= ranges[index - place - 1].end_us.0
        }),
    decreases index - place,
{
    let word = find_last::<TranscriptWord>(m.transcript->0.words, word_ids[place])->0.range;
    let source_id = m.transcript->0.source_asset_id;
    let said = heard(m, scene_id, source_id, word, cue)->0;
    let stand = lemma_heard(m, scene_id, source_id, word, cue, 0, 0, None);
    let all = clocked_from(m, scene_id, word_ids, cue, place, previous)->0;
    let rest = clocked_from(m, scene_id, word_ids, cue, place + 1, said.1)->0;
    assert(all == seq![range_between(said.0, said.1)] + rest);
    if index > place {
        let further = words_are_shown_when_they_are_said(m, scene_id, word_ids, cue, place + 1, said.1, index);
        assert(all[index - place] == rest[index - place - 1]);
        if index > place + 1 {
            assert(all[index - place - 1] == rest[index - place - 2]);
        } else {
            assert(all[0] == range_between(said.0, said.1));
        }
        further
    } else {
        lemma_clocked_len(m, scene_id, word_ids, cue, place + 1, said.1);
        stand
    }
}

proof fn lemma_clocked_len(
    m: VideoProjectManifestModel,
    scene_id: Seq<char>,
    word_ids: Seq<Seq<char>>,
    cue: TimeRange,
    place: int,
    previous: int,
)
    requires
        0 <= place <= word_ids.len(),
        clocked_from(m, scene_id, word_ids, cue, place, previous) is Some,
    ensures
        clocked_from(m, scene_id, word_ids, cue, place, previous)->0.len() == word_ids.len() - place,
    decreases word_ids.len() - place,
{
    if place < word_ids.len() {
        let word = find_last::<TranscriptWord>(m.transcript->0.words, word_ids[place])->0.range;
        let said = heard(m, scene_id, m.transcript->0.source_asset_id, word, cue)->0;
        lemma_clocked_len(m, scene_id, word_ids, cue, place + 1, said.1);
    }
}

proof fn lemma_heard(
    m: VideoProjectManifestModel,
    scene_id: Seq<char>,
    source_id: Seq<char>,
    word: TimeRange,
    cue: TimeRange,
    track: int,
    clip: int,
    known: Option<(int, int)>,
) -> (stand: (int, int))
    requires
        0 <= track,
        0 <= clip,
    ensures
        heard_from(m, scene_id, source_id, word, cue, track, clip, known) matches Some(Some(said)) ==> known == Some(
            said,
        ) || {
            let here = m.tracks[stand.0].clips[stand.1];
            &&& 0 <= stand.0 < m.tracks.len()
            &&& m.tracks[stand.0].kind == TrackKind::Audio || m.tracks[stand.0].kind == TrackKind::Video
            &&& 0 <= stand.1 < m.tracks[stand.0].clips.len()
            &&& carries(here, scene_id, source_id, word)
            &&& said == said_at(here, word, cue)
            &&& said.0 < said.1
            &&& to_timeline_fault(here, word.start(), QuantizeMode::Nearest) is None
            &&& to_timeline_fault(here, word.end(), QuantizeMode::Nearest) is None
        },
    decreases m.tracks.len() - track, m.tracks[track].clips.len() - clip,
{
    if track >= m.tracks.len() {
        (0, 0)
    } else if clip >= m.tracks[track].clips.len() || !(m.tracks[track].kind == TrackKind::Audio || m.tracks[track].kind
        == TrackKind::Video) {
        lemma_heard(m, scene_id, source_id, word, cue, track + 1, 0, known)
    } else {
        let here = m.tracks[track].clips[clip];
        let said = said_at(here, word, cue);
        let next = if carries(here, scene_id, source_id, word) && said.0 < said.1 {
            Some(said)
        } else {
            known
        };
        let stand = lemma_heard(m, scene_id, source_id, word, cue, track, clip + 1, next);
        if heard_from(m, scene_id, source_id, word, cue, track, clip, known) == Some(next) {
            (track, clip)
        } else {
            stand
        }
    }
}

/// A word weighs as much as it has characters, and never nothing; what stands before a word weighs as much as the words
/// there do together.
pub proof fn words_weigh_as_much_as_they_are_long(texts: Seq<Seq<char>>, index: int)
    requires
        0 <= index < texts.len(),
        texts[index].len() <= usize::MAX,
    ensures
        weights_of(texts).len() == texts.len(),
        weights_of(texts)[index] == max(texts[index].len() as int, 1),
        weight_of(weights_of(texts), index + 1) - weight_of(weights_of(texts), index) == max(
            texts[index].len() as int,
            1,
        ),
{
}

} // verus!
