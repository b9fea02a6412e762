//! What a track plays from the start of the timeline to its end: clips, and silence between them.

use crate::error::{fault_at, or_else, refusal, refuse, Fault, VideoErrorCode, VideoResult};
use crate::manifest::{TimelineClipModel, TimelineGap, TimelineGapModel, TimelineTrack, TimelineTrackModel};
use crate::manifest_rules::spans_fault_from;
use crate::order::{insert_ranked, rank, ranked, ranked_is_a_sorted_permutation, Ranked};
use crate::text::text_eq;
use crate::time::{on_clock, range_between, Microseconds, TimeRange};
use vstd::prelude::*;

verus! {

/// A stretch of a track: the clip at a place in it, or nothing.
#[derive(Clone, Copy, Debug, PartialEq, Eq, Structural)]
pub struct TrackSpan {
    pub range: TimeRange,
    pub clip: Option<usize>,
}

impl DeepView for TrackSpan {
    type V = TrackSpan;

    open spec fn deep_view(&self) -> TrackSpan {
        *self
    }
}

/// Spans are ranked by where they start, then by where they end; a clip stands before a gap.
impl Ranked for TrackSpan {
    open spec fn before(left: TrackSpan, right: TrackSpan) -> bool {
        left.range.start() < right.range.start() || (left.range.start() == right.range.start() && (left.range.end()
            < right.range.end() || (left.range.end() == right.range.end() && left.clip is Some && right.clip is None)))
    }

    fn comes_before(&self, other: &Self) -> (result: bool) {
        self.range.start_us.0 < other.range.start_us.0 || (self.range.start_us.0 == other.range.start_us.0 && (
        self.range.end_us.0 < other.range.end_us.0 || (self.range.end_us.0 == other.range.end_us.0
            && self.clip.is_some() && other.clip.is_none())))
    }

    proof fn before_is_an_order(a: TrackSpan, b: TrackSpan, c: TrackSpan) {
    }
}

/// The spans of a track's clips.
pub open spec fn clips_played(clips: Seq<TimelineClipModel>) -> Seq<TrackSpan> {
    Seq::new(clips.len(), |i: int| TrackSpan { range: clips[i].span(), clip: Some(i as usize) })
}

/// The spans of a track's gaps, from a place in the list on.
pub open spec fn gaps_left_from(gaps: Seq<TimelineGapModel>, track_id: Seq<char>, place: int) -> Seq<TrackSpan>
    decreases gaps.len() - place,
{
    if place < 0 || place >= gaps.len() {
        Seq::empty()
    } else if gaps[place].track_id == track_id {
        seq![TrackSpan { range: gaps[place].range, clip: None }] + gaps_left_from(gaps, track_id, place + 1)
    } else {
        gaps_left_from(gaps, track_id, place + 1)
    }
}

/// The clips and the gaps of a track, in the order of the timeline.
pub open spec fn partition(track: TimelineTrackModel, gaps: Seq<TimelineGapModel>) -> Seq<TrackSpan> {
    ranked::<TrackSpan>(clips_played(track.clips) + gaps_left_from(gaps, track.id, 0))
}

/// The refusal of the first span that begins before the one before it has ended.
pub open spec fn clash_fault_from(spans: Seq<TrackSpan>, place: int) -> Option<Fault>
    decreases spans.len() - place,
{
    if place < 0 || place + 1 >= spans.len() {
        None
    } else if spans[place].range.end() > spans[place + 1].range.start() {
        Some(
            fault_at(VideoErrorCode::TimelineOverlap, "timeline clips and gaps overlap"@, "gaps"@),
        )
    } else {
        clash_fault_from(spans, place + 1)
    }
}

pub open spec fn silence(start: int, end: int) -> TrackSpan {
    TrackSpan { range: range_between(start, end), clip: None }
}

/// What stands from an instant up to a span: nothing, or silence.
pub open spec fn hole(from: int, to: int) -> Seq<TrackSpan> {
    if from < to {
        seq![silence(from, to)]
    } else {
        Seq::empty()
    }
}

/// The spans from a place on, with silence in the holes from an instant up to the end.
pub open spec fn filled_from(spans: Seq<TrackSpan>, place: int, from: int, duration: int) -> Seq<TrackSpan>
    decreases spans.len() - place,
{
    if place < 0 || place >= spans.len() {
        hole(from, duration)
    } else {
        hole(from, spans[place].range.start()) + (seq![spans[place]] + filled_from(
            spans,
            place + 1,
            spans[place].range.end(),
            duration,
        ))
    }
}

/// What a track plays from the start of the timeline to its end.
pub open spec fn complete_spans(track: TimelineTrackModel, gaps: Seq<TimelineGapModel>, duration: int) -> Seq<TrackSpan> {
    filled_from(partition(track, gaps), 0, 0, duration)
}

pub open spec fn complete_fault(track: TimelineTrackModel, gaps: Seq<TimelineGapModel>) -> Option<Fault> {
    or_else(spans_fault_from(track.clips, 0), clash_fault_from(partition(track, gaps), 0))
}

fn collect_spans(track: &TimelineTrack, gaps: &Vec<TimelineGap>) -> (result: VideoResult<Vec<TrackSpan>>)
    ensures
        refusal(result) == spans_fault_from(track.deep_view().clips, 0),
        result matches Ok(spans) ==> spans@ == clips_played(track.deep_view().clips) + gaps_left_from(
            gaps.deep_view(),
            track.deep_view().id,
            0,
        ),
{
    let ghost clips = track.deep_view().clips;
    let ghost all = gaps.deep_view();
    let mut spans: Vec<TrackSpan> = Vec::new();
    let mut place: usize = 0;
    while place < track.clips.len()
        invariant
            place <= track.clips.len(),
            clips == track.clips.deep_view(),
            spans.len() == place,
            forall|i: int| 0 <= i < place ==> #[trigger] spans[i] == clips_played(clips)[i],
            spans_fault_from(clips, 0) == spans_fault_from(clips, place as int),
        decreases track.clips.len() - place,
    {
        assert(clips[place as int] == track.clips[place as int].deep_view());
        let range: TimeRange = track.clips[place].timeline_range()?;
        spans.push(TrackSpan { range, clip: Some(place) });
        place += 1;
    }
    assert(spans@ =~= clips_played(clips));
    let ghost played = clips_played(clips);
    let ghost whole = played + gaps_left_from(all, track.id@, 0);
    let mut gap: usize = 0;
    while gap < gaps.len()
        invariant
            gap <= gaps.len(),
            all == gaps.deep_view(),
            spans_fault_from(clips, 0) is None,
            spans@ + gaps_left_from(all, track.id@, gap as int) == whole,
        decreases gaps.len() - gap,
    {
        assert(all[gap as int] == gaps[gap as int].deep_view());
        if text_eq(gaps[gap].track_id.as_str(), track.id.as_str()) {
            let ghost before = spans@;
            let span = TrackSpan { range: gaps[gap].range, clip: None };
            let ghost rest = gaps_left_from(all, track.id@, gap + 1);
            spans.push(span);
            assert(spans@ + rest =~= before + (seq![span] + rest));
        }
        gap += 1;
    }
    assert(spans@ =~= whole);
    Ok(spans)
}

/// The clips and the gaps of a track, in the order of the timeline.
fn partition_track(track: &TimelineTrack, gaps: &Vec<TimelineGap>) -> (result: VideoResult<Vec<TrackSpan>>)
    ensures
        refusal(result) == complete_fault(track.deep_view(), gaps.deep_view()),
        result matches Ok(spans) ==> spans@ == partition(track.deep_view(), gaps.deep_view()),
{
    let spans: Vec<TrackSpan> = collect_spans(track, gaps)?;
    assert(spans.deep_view() =~= spans@);
    let ordered: Vec<TrackSpan> = rank(spans);
    assert(ordered.deep_view() =~= ordered@);
    let mut place: usize = 1;
    while place < ordered.len()
        invariant
            1 <= place,
            clash_fault_from(ordered@, 0) == clash_fault_from(ordered@, place - 1),
            complete_fault(track.deep_view(), gaps.deep_view()) == clash_fault_from(ordered@, 0),
        decreases ordered.len() - place,
    {
        if ordered[place - 1].range.end_us.0 > ordered[place].range.start_us.0 {
            return Err(refuse(VideoErrorCode::TimelineOverlap, "timeline clips and gaps overlap", "gaps"));
        }
        place += 1;
    }
    Ok(ordered)
}

fn push_hole(spans: &mut Vec<TrackSpan>, from: i64, to: i64)
    ensures
        final(spans)@ == old(spans)@ + hole(from as int, to as int),
{
    if from < to {
        spans.push(
            TrackSpan {
                range: TimeRange { start_us: Microseconds(from), end_us: Microseconds(to) },
                clip: None,
            },
        );
    }
    assert(spans@ =~= old(spans)@ + hole(from as int, to as int));
}

/// What a track plays from the start of the timeline to its end. Deliberate holes become explicit
/// silence.
pub fn complete_track_spans(track: &TimelineTrack, gaps: &Vec<TimelineGap>, duration: Microseconds) -> (result: VideoResult<
    Vec<TrackSpan>,
>)
    ensures
        refusal(result) == complete_fault(track.deep_view(), gaps.deep_view()),
        result matches Ok(spans) ==> spans@ == complete_spans(
            track.deep_view(),
            gaps.deep_view(),
            duration.0 as int,
        ),
{
    let ordered: Vec<TrackSpan> = partition_track(track, gaps)?;
    let ghost model = ordered@;
    let ghost whole = filled_from(model, 0, 0, duration.0 as int);
    let mut spans: Vec<TrackSpan> = Vec::new();
    let mut cursor: i64 = 0;
    let mut place: usize = 0;
    assert(spans@ + whole =~= whole);
    while place < ordered.len()
        invariant
            place <= ordered.len(),
            model == ordered@,
            spans@ + filled_from(model, place as int, cursor as int, duration.0 as int) == whole,
        decreases ordered.len() - place,
    {
        let span: TrackSpan = ordered[place];
        let ghost before = spans@;
        let ghost gap = hole(cursor as int, span.range.start());
        let ghost rest = filled_from(model, place + 1, span.range.end(), duration.0 as int);
        push_hole(&mut spans, cursor, span.range.start_us.0);
        spans.push(span);
        assert(spans@ + rest =~= before + (gap + (seq![span] + rest)));
        cursor = span.range.end_us.0;
        place += 1;
    }
    push_hole(&mut spans, cursor, duration.0);
    assert(spans@ =~= whole);
    Ok(spans)
}

proof fn lemma_places(items: Seq<TrackSpan>, count: int)
    requires
        forall|i: int| 0 <= i < items.len() ==> ((#[trigger] items[i]).clip matches Some(place) ==> place < count),
    ensures
        forall|i: int|
            0 <= i < ranked::<TrackSpan>(items).len() ==> ((#[trigger] ranked::<TrackSpan>(items)[i]).clip matches Some(
                place,
            ) ==> place < count),
    decreases items.len(),
{
    if items.len() > 0 {
        let fewer = items.drop_last();
        assert forall|i: int| 0 <= i < fewer.len() implies ((#[trigger] fewer[i]).clip matches Some(place) ==> place
            < count) by {
            assert(fewer[i] == items[i]);
        }
        lemma_places(fewer, count);
        lemma_place_put(ranked::<TrackSpan>(fewer), items.last(), count);
    }
}

proof fn lemma_place_put(items: Seq<TrackSpan>, item: TrackSpan, count: int)
    requires
        forall|i: int| 0 <= i < items.len() ==> ((#[trigger] items[i]).clip matches Some(place) ==> place < count),
        item.clip matches Some(place) ==> place < count,
    ensures
        forall|i: int|
            0 <= i < insert_ranked::<TrackSpan>(items, item).len() ==> ((#[trigger] insert_ranked::<TrackSpan>(
                items,
                item,
            )[i]).clip matches Some(place) ==> place < count),
    decreases items.len(),
{
    if items.len() > 0 && TrackSpan::before(item, items.last()) {
        let fewer = items.drop_last();
        assert forall|i: int| 0 <= i < fewer.len() implies ((#[trigger] fewer[i]).clip matches Some(place) ==> place
            < count) by {
            assert(fewer[i] == items[i]);
        }
        lemma_place_put(fewer, item, count);
        assert(items.last() == items[items.len() - 1]);
    }
}

proof fn lemma_filled_places(spans: Seq<TrackSpan>, place: int, from: int, duration: int, count: int)
    requires
        0 <= place,
        forall|i: int| 0 <= i < spans.len() ==> ((#[trigger] spans[i]).clip matches Some(at) ==> at < count),
    ensures
        forall|i: int|
            0 <= i < filled_from(spans, place, from, duration).len() ==> ((#[trigger] filled_from(
                spans,
                place,
                from,
                duration,
            )[i]).clip matches Some(at) ==> at < count),
    decreases spans.len() - place,
{
    if place < spans.len() {
        lemma_filled_places(spans, place + 1, spans[place].range.end(), duration, count);
        let gap = hole(from, spans[place].range.start());
        let rest = filled_from(spans, place + 1, spans[place].range.end(), duration);
        let whole = filled_from(spans, place, from, duration);
        assert(whole == gap + (seq![spans[place]] + rest));
        assert forall|i: int| 0 <= i < whole.len() implies ((#[trigger] whole[i]).clip matches Some(at) ==> at < count) by {
            if i < gap.len() {
                assert(whole[i] == gap[i]);
            } else if i == gap.len() {
                assert(whole[i] == spans[place]);
            } else {
                assert(whole[i] == rest[i - gap.len() - 1]);
            }
        }
    }
}

/// Every clip that a track plays is one of its own.
pub proof fn spans_play_the_tracks_clips(track: TimelineTrackModel, gaps: Seq<TimelineGapModel>, duration: int, index: int)
    requires
        track.clips.len() <= usize::MAX,
        0 <= index < complete_spans(track, gaps, duration).len(),
    ensures
        complete_spans(track, gaps, duration)[index].clip matches Some(place) ==> place < track.clips.len(),
{
    let count = track.clips.len() as int;
    let played = clips_played(track.clips);
    let left = gaps_left_from(gaps, track.id, 0);
    lemma_gaps_silent(gaps, track.id, 0);
    let items = played + left;
    assert forall|i: int| 0 <= i < items.len() implies ((#[trigger] items[i]).clip matches Some(place) ==> place
        < count) by {
        if i >= played.len() {
            assert(items[i] == left[i - played.len()]);
        }
    }
    lemma_places(items, count);
    lemma_filled_places(partition(track, gaps), 0, 0, duration, count);
}

proof fn lemma_gaps_silent(gaps: Seq<TimelineGapModel>, track_id: Seq<char>, place: int)
    requires
        0 <= place,
    ensures
        forall|i: int|
            0 <= i < gaps_left_from(gaps, track_id, place).len() ==> (#[trigger] gaps_left_from(
                gaps,
                track_id,
                place,
            )[i]).clip is None,
    decreases gaps.len() - place,
{
    if place < gaps.len() {
        lemma_gaps_silent(gaps, track_id, place + 1);
        let rest = gaps_left_from(gaps, track_id, place + 1);
        let whole = gaps_left_from(gaps, track_id, place);
        if gaps[place].track_id == track_id {
            assert forall|i: int| 0 <= i < whole.len() implies (#[trigger] whole[i]).clip is None by {
                if i > 0 {
                    assert(whole[i] == rest[i - 1]);
                }
            }
        }
    }
}

/// Whether a span ends where the next begins.
pub open spec fn meets(spans: Seq<TrackSpan>, place: int) -> bool {
    spans[place].range.end() == spans[place + 1].range.start()
}

/// Whether spans lead from one instant to another without a hole or an overlap.
pub open spec fn leads(spans: Seq<TrackSpan>, from: int, to: int) -> bool {
    &&& spans.len() == 0 ==> from == to
    &&& spans.len() > 0 ==> spans[0].range.start() == from && spans.last().range.end() == to
    &&& forall|i: int| 0 <= i < spans.len() - 1 ==> #[trigger] meets(spans, i)
}

proof fn lemma_leads_on(first: TrackSpan, rest: Seq<TrackSpan>, to: int)
    requires
        leads(rest, first.range.end(), to),
    ensures
        leads(seq![first] + rest, first.range.start(), to),
{
    let whole = seq![first] + rest;
    assert forall|i: int| 0 <= i < whole.len() - 1 implies #[trigger] meets(whole, i) by {
        if i > 0 {
            assert(meets(rest, i - 1));
            assert(whole[i] == rest[i - 1] && whole[i + 1] == rest[i]);
        }
    }
    if rest.len() > 0 {
        assert(whole.last() == rest.last());
    }
}

proof fn lemma_filled_leads(spans: Seq<TrackSpan>, place: int, from: int, duration: int)
    requires
        0 <= place <= spans.len(),
        on_clock(from),
        on_clock(duration),
        from <= duration,
        place < spans.len() ==> from <= spans[place].range.start(),
        forall|i: int|
            0 <= i < spans.len() ==> (#[trigger] spans[i]).range.valid() && spans[i].range.end() <= duration,
        clash_fault_from(spans, place) is None,
    ensures
        leads(filled_from(spans, place, from, duration), from, duration),
    decreases spans.len() - place,
{
    if place < spans.len() {
        let span = spans[place];
        assert(span.range.valid() && span.range.end() <= duration);
        lemma_filled_leads(spans, place + 1, span.range.end(), duration);
        let rest = filled_from(spans, place + 1, span.range.end(), duration);
        lemma_leads_on(span, rest, duration);
        if from < span.range.start() {
            let gap = silence(from, span.range.start());
            lemma_leads_on(gap, seq![span] + rest, duration);
            assert(filled_from(spans, place, from, duration) == seq![gap] + (seq![span] + rest));
        } else {
            assert(filled_from(spans, place, from, duration) =~= seq![span] + rest);
        }
    }
}

/// A track is played from the start of the timeline to its end, without a hole or an overlap, wherever
/// its clips and gaps lie on the timeline and apart from each other.
pub proof fn tracks_play_to_the_end(track: TimelineTrackModel, gaps: Seq<TimelineGapModel>, duration: int)
    requires
        0 <= duration,
        on_clock(duration),
        complete_fault(track, gaps) is None,
        forall|i: int|
            0 <= i < partition(track, gaps).len() ==> (#[trigger] partition(track, gaps)[i]).range.valid() && partition(
                track,
                gaps,
            )[i].range.end() <= duration,
    ensures
        leads(complete_spans(track, gaps, duration), 0, duration),
{
    let spans = partition(track, gaps);
    if spans.len() > 0 {
        assert(spans[0].range.valid());
    }
    lemma_filled_leads(spans, 0, 0, duration);
}

/// Every clip of a track is played, over its own time on the timeline.
pub proof fn every_clip_is_played_in_its_time(track: TimelineTrackModel, gaps: Seq<TimelineGapModel>, duration: int, index: int)
    requires
        track.clips.len() <= usize::MAX,
        0 <= index < track.clips.len(),
        track.clips[index].span_refusal() is None,
    ensures
        exists|k: int|
            0 <= k < complete_spans(track, gaps, duration).len() && {
                let span = #[trigger] complete_spans(track, gaps, duration)[k];
                &&& span.clip == Some(index as usize)
                &&& span.range.start_us == track.clips[index].timeline_start_us
                &&& span.range.end_us.0 == track.clips[index].timeline_start_us.0
                    + track.clips[index].timeline_duration_us.0
            },
{
    broadcast use vstd::seq_lib::group_to_multiset_ensures;

    let items = clips_played(track.clips) + gaps_left_from(gaps, track.id, 0);
    let own = items[index];
    assert(own == clips_played(track.clips)[index]);
    ranked_is_a_sorted_permutation::<TrackSpan>(items);
    let spans = partition(track, gaps);
    assert(items.contains(own));
    assert(spans.to_multiset().count(own) > 0);
    assert(spans.contains(own));
    let at = choose|at: int| 0 <= at < spans.len() && spans[at] == own;
    lemma_filled_holds(spans, 0, 0, duration, at);
    let all = complete_spans(track, gaps, duration);
    let k = choose|k: int| 0 <= k < all.len() && all[k] == own;
    assert(all[k].clip == Some(index as usize));
}

proof fn lemma_filled_holds(spans: Seq<TrackSpan>, place: int, from: int, duration: int, at: int)
    requires
        0 <= place <= at < spans.len(),
    ensures
        filled_from(spans, place, from, duration).contains(spans[at]),
    decreases spans.len() - place,
{
    let gap = hole(from, spans[place].range.start());
    let rest = filled_from(spans, place + 1, spans[place].range.end(), duration);
    let all = filled_from(spans, place, from, duration);
    assert(all == gap + (seq![spans[place]] + rest));
    if place == at {
        assert(all[gap.len() as int] == spans[at]);
    } else {
        lemma_filled_holds(spans, place + 1, spans[place].range.end(), duration, at);
        let k = choose|k: int| 0 <= k < rest.len() && rest[k] == spans[at];
        assert(all[gap.len() + 1 + k] == spans[at]);
    }
}

} // verus!
