//! What the episode actually turned out to be.
//!
//! This module reports the episode as rendered - which lines were performed, how long each one
//! actually runs, how the speaking time divides between characters, and where the silences fall -
//! so a revision is a response to something measured.
//!
//! Every number here comes from a published artifact with a measured duration. A value that was
//! never measured is absent rather than approximated.

use crate::error::{or_else, refusal, unless, Fault, VideoResult};
use crate::manifest::{
    CastMember, CastMemberModel, DialogueTurn, DialogueTurnModel, MusicCue, MusicCueModel, PublicationState, RenderArtifact,
    RenderArtifactModel, TimelineClip, TimelineClipModel, TrackKind, VideoProjectManifest, VideoProjectManifestModel,
};
use crate::manifest_rules::is_text;
use crate::operations::{draft_turns_from, is_wanted};
use crate::order::{rank, ranked, ranked_is_a_sorted_permutation, text_before, text_less, text_order, Ranked};
use crate::text::text_eq;
use crate::time::{addition_fault, on_clock, Microseconds};
use vstd::prelude::*;

verus! {

/// Basis points, so a share is exact without carrying a float through the contract.
pub const SHARE_BASIS_POINTS: i64 = 10_000;

/// How loud the master was measured to be.
#[derive(Clone, Copy, Debug, PartialEq, Eq, Structural)]
pub struct LoudnessMeasurement {
    pub integrated_lufs_milli: i32,
    pub true_peak_db_milli: i32,
}

/// One performed line, as it actually sits in the episode.
#[derive(Clone, Debug, PartialEq, Eq)]
pub struct ListenedLine {
    pub turn_id: String,
    pub character_id: String,
    pub text: String,
    pub start_us: Microseconds,
    pub duration_us: Microseconds,
    /// Silence between the previous line and this one, as rendered.
    pub lead_in_us: Microseconds,
}

/// What a [`ListenedLine`] holds, as mathematical values.
pub struct ListenedLineModel {
    pub turn_id: Seq<char>,
    pub character_id: Seq<char>,
    pub text: Seq<char>,
    pub start_us: Microseconds,
    pub duration_us: Microseconds,
    pub lead_in_us: Microseconds,
}

impl DeepView for ListenedLine {
    type V = ListenedLineModel;

    open spec fn deep_view(&self) -> ListenedLineModel {
        ListenedLineModel {
            turn_id: self.turn_id@,
            character_id: self.character_id@,
            text: self.text@,
            start_us: self.start_us,
            duration_us: self.duration_us,
            lead_in_us: self.lead_in_us,
        }
    }
}

/// Lines are ranked by where they start, then by how long they run.
impl Ranked for ListenedLine {
    open spec fn before(left: ListenedLineModel, right: ListenedLineModel) -> bool {
        left.start_us.0 < right.start_us.0 || (left.start_us.0 == right.start_us.0 && left.duration_us.0
            < right.duration_us.0)
    }

    fn comes_before(&self, other: &Self) -> (result: bool) {
        self.start_us.0 < other.start_us.0 || (self.start_us.0 == other.start_us.0 && self.duration_us.0
            < other.duration_us.0)
    }

    proof fn before_is_an_order(a: ListenedLineModel, b: ListenedLineModel, c: ListenedLineModel) {
    }
}

/// Lengths are ranked from the shortest to the longest.
impl Ranked for Microseconds {
    open spec fn before(left: Microseconds, right: Microseconds) -> bool {
        left.0 < right.0
    }

    fn comes_before(&self, other: &Self) -> (result: bool) {
        self.0 < other.0
    }

    proof fn before_is_an_order(a: Microseconds, b: Microseconds, c: Microseconds) {
    }
}

// ---------------------------------------------------------------------------------------------
// The lines that were performed
// ---------------------------------------------------------------------------------------------
/// A turn of an identifier; of several the last.
pub open spec fn turn_named(dialogue: Seq<DialogueTurnModel>, id: Seq<char>, count: int) -> Option<DialogueTurnModel>
    decreases count,
{
    if count <= 0 {
        None
    } else if dialogue[count - 1].id == id {
        Some(dialogue[count - 1])
    } else {
        turn_named(dialogue, id, count - 1)
    }
}

/// Whether an artifact is published and has a measured duration.
pub open spec fn is_take(artifact: RenderArtifactModel) -> bool {
    artifact.duration_us is Some && artifact.publication_state == PublicationState::Published
}

/// Whether an artifact of the identifier is published and has a measured duration.
pub open spec fn is_measured(artifacts: Seq<RenderArtifactModel>, id: Option<Seq<char>>) -> bool {
    exists|i: int| 0 <= i < artifacts.len() && is_take(#[trigger] artifacts[i]) && id == Some(artifacts[i].id)
}

/// The line that a clip performs: it names a turn of the script and plays a published, measured take.
pub open spec fn heard_line(m: VideoProjectManifestModel, clip: TimelineClipModel) -> Option<ListenedLineModel> {
    match clip.turn_id {
        Some(turn_id) => match turn_named(m.dialogue, turn_id, m.dialogue.len() as int) {
            Some(turn) => if is_measured(m.render_artifacts, clip.media.render_artifact_id) {
                Some(
                    ListenedLineModel {
                        turn_id,
                        character_id: turn.character_id,
                        text: turn.text,
                        start_us: clip.timeline_start_us,
                        duration_us: clip.timeline_duration_us,
                        lead_in_us: Microseconds(0),
                    },
                )
            } else {
                None
            },
            None => None,
        },
        None => None,
    }
}

/// The lines that the clips from a place on perform.
pub open spec fn lines_in(m: VideoProjectManifestModel, clips: Seq<TimelineClipModel>, index: int) -> Seq<ListenedLineModel>
    decreases clips.len() - index,
{
    if index < 0 || index >= clips.len() {
        Seq::empty()
    } else {
        match heard_line(m, clips[index]) {
            Some(line) => seq![line] + lines_in(m, clips, index + 1),
            None => lines_in(m, clips, index + 1),
        }
    }
}

/// The lines that the audio tracks from a place on perform.
pub open spec fn lines_from(m: VideoProjectManifestModel, index: int) -> Seq<ListenedLineModel>
    decreases m.tracks.len() - index,
{
    if index < 0 || index >= m.tracks.len() {
        Seq::empty()
    } else if m.tracks[index].kind == TrackKind::Audio {
        lines_in(m, m.tracks[index].clips, 0) + lines_from(m, index + 1)
    } else {
        lines_from(m, index + 1)
    }
}

/// The performed lines in timeline order.
pub open spec fn performed(m: VideoProjectManifestModel) -> Seq<ListenedLineModel> {
    ranked::<ListenedLine>(lines_from(m, 0))
}

/// Whether every clip starts at or after the start of the timeline and runs forward.
pub open spec fn clips_run_forward(m: VideoProjectManifestModel) -> bool {
    forall|t: int, c: int|
        0 <= t < m.tracks.len() && 0 <= c < m.tracks[t].clips.len() ==> (
        #[trigger] m.tracks[t].clips[c]).timeline_start_us.0 >= 0 && m.tracks[t].clips[c].timeline_duration_us.0
            >= 0
}

/// Whether every line starts at or after the start of the timeline and runs forward.
pub open spec fn lines_run_forward(lines: Seq<ListenedLineModel>) -> bool {
    forall|i: int|
        0 <= i < lines.len() ==> (#[trigger] lines[i]).start_us.0 >= 0 && lines[i].duration_us.0 >= 0
}

fn find_turn<'a>(dialogue: &'a Vec<DialogueTurn>, id: &str) -> (result: Option<&'a DialogueTurn>)
    ensures
        match result {
            Some(turn) => turn_named(dialogue.deep_view(), id@, dialogue.len() as int) == Some(
                turn.deep_view(),
            ),
            None => turn_named(dialogue.deep_view(), id@, dialogue.len() as int) is None,
        },
{
    let ghost model = dialogue.deep_view();
    let mut index: usize = dialogue.len();
    while index > 0
        invariant
            index <= dialogue.len(),
            model == dialogue.deep_view(),
            turn_named(model, id@, dialogue.len() as int) == turn_named(model, id@, index as int),
        decreases index,
    {
        assert(model[index - 1] == dialogue[index - 1].deep_view());
        if text_eq(dialogue[index - 1].id.as_str(), id) {
            return Some(&dialogue[index - 1]);
        }
        index -= 1;
    }
    None
}

fn has_measurement(artifacts: &Vec<RenderArtifact>, id: &Option<String>) -> (result: bool)
    ensures
        result == is_measured(artifacts.deep_view(), id.deep_view()),
{
    let ghost model = artifacts.deep_view();
    let mut index: usize = 0;
    while index < artifacts.len()
        invariant
            index <= artifacts.len(),
            model == artifacts.deep_view(),
            forall|i: int|
                0 <= i < index ==> !(is_take(#[trigger] model[i]) && id.deep_view() == Some(model[i].id)),
        decreases artifacts.len() - index,
    {
        assert(model[index as int] == artifacts[index as int].deep_view());
        let published: bool = match artifacts[index].publication_state {
            PublicationState::Published => true,
            _ => false,
        };
        if published && artifacts[index].duration_us.is_some() && is_text(id, artifacts[index].id.as_str()) {
            return true;
        }
        index += 1;
    }
    false
}

fn hear_clip(manifest: &VideoProjectManifest, clip: &TimelineClip) -> (result: Option<ListenedLine>)
    ensures
        result.deep_view() == heard_line(manifest.deep_view(), clip.deep_view()),
{
    match &clip.turn_id {
        Some(turn_id) => match find_turn(&manifest.dialogue, turn_id.as_str()) {
            Some(turn) => if has_measurement(&manifest.render_artifacts, &clip.media.render_artifact_id) {
                Some(
                    ListenedLine {
                        turn_id: turn_id.clone(),
                        character_id: turn.character_id.clone(),
                        text: turn.text.clone(),
                        start_us: clip.timeline_start_us,
                        duration_us: clip.timeline_duration_us,
                        lead_in_us: Microseconds(0),
                    },
                )
            } else {
                None
            },
            None => None,
        },
        None => None,
    }
}

fn collect_lines(manifest: &VideoProjectManifest) -> (lines: Vec<ListenedLine>)
    ensures
        lines.deep_view() == lines_from(manifest.deep_view(), 0),
{
    let ghost m = manifest.deep_view();
    let ghost whole = lines_from(m, 0);
    let mut lines: Vec<ListenedLine> = Vec::new();
    let mut track: usize = 0;
    assert(lines.deep_view() + whole =~= whole);
    while track < manifest.tracks.len()
        invariant
            track <= manifest.tracks.len(),
            m == manifest.deep_view(),
            lines.deep_view() + lines_from(m, track as int) == whole,
        decreases manifest.tracks.len() - track,
    {
        assert(m.tracks[track as int] == manifest.tracks[track as int].deep_view());
        if manifest.tracks[track].kind == TrackKind::Audio {
            let clips: &Vec<TimelineClip> = &manifest.tracks[track].clips;
            let ghost model = clips.deep_view();
            let ghost rest = lines_from(m, track + 1);
            let mut clip: usize = 0;
            assert(lines.deep_view() + (lines_in(m, model, 0) + rest) =~= whole);
            while clip < clips.len()
                invariant
                    clip <= clips.len(),
                    m == manifest.deep_view(),
                    model == clips.deep_view(),
                    lines.deep_view() + (lines_in(m, model, clip as int) + rest) == whole,
                decreases clips.len() - clip,
            {
                assert(model[clip as int] == clips[clip as int].deep_view());
                let ghost before = lines.deep_view();
                let ghost after = lines_in(m, model, clip + 1);
                if let Some(line) = hear_clip(manifest, &clips[clip]) {
                    let ghost own = line.deep_view();
                    lines.push(line);
                    assert(lines.deep_view() =~= before.push(own));
                    assert(lines.deep_view() + (after + rest) =~= before + ((seq![own] + after) + rest));
                }
                clip += 1;
            }
            assert(lines.deep_view() + rest =~= whole);
        }
        track += 1;
    }
    assert(lines.deep_view() =~= whole);
    lines
}

proof fn lemma_clips_heard(m: VideoProjectManifestModel, track: int, index: int)
    requires
        clips_run_forward(m),
        0 <= track < m.tracks.len(),
        0 <= index <= m.tracks[track].clips.len(),
    ensures
        lines_run_forward(lines_in(m, m.tracks[track].clips, index)),
    decreases m.tracks[track].clips.len() - index,
{
    let clips = m.tracks[track].clips;
    if index < clips.len() {
        lemma_clips_heard(m, track, index + 1);
        let rest = lines_in(m, clips, index + 1);
        let all = lines_in(m, clips, index);
        assert(m.tracks[track].clips[index].timeline_start_us.0 >= 0);
        if heard_line(m, clips[index]) is Some {
            assert forall|i: int| 0 <= i < all.len() implies (#[trigger] all[i]).start_us.0 >= 0
                && all[i].duration_us.0 >= 0 by {
                if i > 0 {
                    assert(all[i] == rest[i - 1]);
                }
            }
        }
    }
}

proof fn lemma_lines_forward(m: VideoProjectManifestModel, index: int)
    requires
        clips_run_forward(m),
        0 <= index <= m.tracks.len(),
    ensures
        lines_run_forward(lines_from(m, index)),
    decreases m.tracks.len() - index,
{
    if index < m.tracks.len() {
        lemma_lines_forward(m, index + 1);
        lemma_clips_heard(m, index, 0);
        let head = lines_in(m, m.tracks[index].clips, 0);
        let rest = lines_from(m, index + 1);
        let all = lines_from(m, index);
        if m.tracks[index].kind == TrackKind::Audio {
            assert forall|i: int| 0 <= i < all.len() implies (#[trigger] all[i]).start_us.0 >= 0
                && all[i].duration_us.0 >= 0 by {
                if i < head.len() {
                    assert(all[i] == head[i]);
                } else {
                    assert(all[i] == rest[i - head.len()]);
                }
            }
        }
    }
}

/// Putting lines in order keeps them running forward.
proof fn lemma_performed_forward(lines: Seq<ListenedLineModel>)
    requires
        lines_run_forward(lines),
    ensures
        lines_run_forward(ranked::<ListenedLine>(lines)),
{
    broadcast use vstd::seq_lib::group_to_multiset_ensures;

    let sorted = ranked::<ListenedLine>(lines);
    ranked_is_a_sorted_permutation::<ListenedLine>(lines);
    assert forall|i: int| 0 <= i < sorted.len() implies (#[trigger] sorted[i]).start_us.0 >= 0
        && sorted[i].duration_us.0 >= 0 by {
        assert(sorted.contains(sorted[i]));
        assert(sorted.to_multiset().count(sorted[i]) > 0);
        assert(lines.contains(sorted[i]));
        let j = choose|j: int| 0 <= j < lines.len() && lines[j] == sorted[i];
        assert(lines[j].start_us.0 >= 0);
    }
}

// ---------------------------------------------------------------------------------------------
// Silences
// ---------------------------------------------------------------------------------------------
pub open spec fn line_end(line: ListenedLineModel) -> int {
    line.start_us.0 + line.duration_us.0
}

/// How far the speech has come after the first lines.
pub open spec fn heard_until(lines: Seq<ListenedLineModel>, count: int) -> int
    decreases count,
{
    if count <= 0 {
        0
    } else if line_end(lines[count - 1]) > heard_until(lines, count - 1) {
        line_end(lines[count - 1])
    } else {
        heard_until(lines, count - 1)
    }
}

/// The silence before a line, as rendered.
pub open spec fn silence_before(lines: Seq<ListenedLineModel>, index: int) -> int {
    if lines[index].start_us.0 > heard_until(lines, index) {
        lines[index].start_us.0 - heard_until(lines, index)
    } else {
        0
    }
}

/// The lines with the silence before each.
pub open spec fn with_lead_ins(lines: Seq<ListenedLineModel>) -> Seq<ListenedLineModel> {
    Seq::new(
        lines.len(),
        |i: int|
            (ListenedLineModel { lead_in_us: Microseconds(silence_before(lines, i) as i64), ..lines[i] }),
    )
}

/// The silences before the first lines.
pub open spec fn silences(lines: Seq<ListenedLineModel>, count: int) -> Seq<Microseconds>
    decreases count,
{
    if count <= 0 {
        Seq::empty()
    } else if silence_before(lines, count - 1) > 0 {
        silences(lines, count - 1).push(Microseconds(silence_before(lines, count - 1) as i64))
    } else {
        silences(lines, count - 1)
    }
}

/// How long the silences before the first lines are together.
pub open spec fn silence_total(lines: Seq<ListenedLineModel>, count: int) -> int
    decreases count,
{
    if count <= 0 {
        0
    } else {
        silence_total(lines, count - 1) + silence_before(lines, count - 1)
    }
}

/// How long the first lines are together.
pub open spec fn spoken_total(lines: Seq<ListenedLineModel>, count: int) -> int
    decreases count,
{
    if count <= 0 {
        0
    } else {
        spoken_total(lines, count - 1) + lines[count - 1].duration_us.0
    }
}

/// Where the silences fall.
#[derive(Clone, Copy, Debug, PartialEq, Eq, Structural)]
pub struct GapSummary {
    pub count: usize,
    pub total_us: Microseconds,
    pub longest_us: Microseconds,
    /// The middle gap. More useful than a mean, which one long pause distorts.
    pub median_us: Microseconds,
}

/// The last of some silences, or none.
pub open spec fn pick(sorted: Seq<Microseconds>, index: int) -> Microseconds {
    if 0 <= index < sorted.len() {
        sorted[index]
    } else {
        Microseconds(0)
    }
}

/// What the silences come to.
pub open spec fn summary_of(gaps: Seq<Microseconds>, total_us: Microseconds) -> GapSummary {
    let sorted = ranked::<Microseconds>(gaps);
    GapSummary {
        count: gaps.len() as usize,
        total_us,
        longest_us: pick(sorted, gaps.len() - 1),
        median_us: pick(sorted, gaps.len() as int / 2),
    }
}

pub open spec fn ends_fault_from(lines: Seq<ListenedLineModel>, index: int) -> Option<Fault>
    decreases lines.len() - index,
{
    if index < 0 || index >= lines.len() {
        None
    } else {
        or_else(
            unless(on_clock(line_end(lines[index])), addition_fault()),
            ends_fault_from(lines, index + 1),
        )
    }
}

pub open spec fn totals_fault_from(lines: Seq<ListenedLineModel>, index: int) -> Option<Fault>
    decreases lines.len() - index,
{
    if index < 0 || index >= lines.len() {
        None
    } else {
        or_else(
            unless(on_clock(spoken_total(lines, index + 1)), addition_fault()),
            totals_fault_from(lines, index + 1),
        )
    }
}

/// The lines with their lead-ins, the silences between them, and how long those are together.
struct Silences {
    lines: Vec<ListenedLine>,
    gaps: Vec<Microseconds>,
    total: i128,
}

fn measure_silences(lines: &Vec<ListenedLine>) -> (result: VideoResult<Silences>)
    ensures
        refusal(result) == ends_fault_from(lines.deep_view(), 0),
        result matches Ok(measured) ==> {
            &&& measured.lines.deep_view() == with_lead_ins(lines.deep_view())
            &&& measured.gaps.deep_view() == silences(lines.deep_view(), lines.len() as int)
            &&& measured.total == silence_total(lines.deep_view(), lines.len() as int)
            &&& measured.total >= 0
        },
{
    let ghost model = lines.deep_view();
    let mut led: Vec<ListenedLine> = Vec::new();
    let mut gaps: Vec<Microseconds> = Vec::new();
    let mut cursor: i64 = 0;
    let mut total: i128 = 0;
    assert(gaps.deep_view() =~= silences(model, 0));
    let mut index: usize = 0;
    while index < lines.len()
        invariant
            index <= lines.len(),
            model == lines.deep_view(),
            0 <= cursor,
            0 <= total <= index * i64::MAX,
            cursor == heard_until(model, index as int),
            total == silence_total(model, index as int),
            gaps.deep_view() == silences(model, index as int),
            led.len() == index,
            forall|i: int| 0 <= i < index ==> (#[trigger] led[i]).deep_view() == with_lead_ins(model)[i],
            ends_fault_from(model, 0) == ends_fault_from(model, index as int),
        decreases lines.len() - index,
    {
        let line: &ListenedLine = &lines[index];
        assert(model[index as int] == line.deep_view());
        let mut lead: i64 = 0;
        if line.start_us.0 > cursor {
            lead = line.start_us.0 - cursor;
            let ghost before = gaps.deep_view();
            gaps.push(Microseconds(lead));
            assert(gaps.deep_view() =~= before.push(Microseconds(lead)));
            total = total + lead as i128;
        }
        assert(lead == silence_before(model, index as int));
        let heard = ListenedLine {
            turn_id: line.turn_id.clone(),
            character_id: line.character_id.clone(),
            text: line.text.clone(),
            start_us: line.start_us,
            duration_us: line.duration_us,
            lead_in_us: Microseconds(lead),
        };
        assert(heard.deep_view() == with_lead_ins(model)[index as int]);
        led.push(heard);
        let end: Microseconds = line.start_us.checked_add(line.duration_us)?;
        if end.0 > cursor {
            cursor = end.0;
        }
        index += 1;
    }
    assert(led.deep_view() =~= with_lead_ins(model));
    Ok(Silences { lines: led, gaps, total })
}

fn summarize(gaps: Vec<Microseconds>, total_us: Microseconds) -> (summary: GapSummary)
    ensures
        summary == summary_of(gaps.deep_view(), total_us),
{
    let ghost model = gaps.deep_view();
    assert(gaps.deep_view().len() == gaps.len());
    let count: usize = gaps.len();
    let sorted: Vec<Microseconds> = rank(gaps);
    assert(sorted.deep_view() =~= sorted@);
    proof {
        ranked_is_a_sorted_permutation::<Microseconds>(model);
    }
    let longest_us: Microseconds = if count > 0 {
        sorted[count - 1]
    } else {
        Microseconds(0)
    };
    let median_us: Microseconds = if count > 0 {
        sorted[count / 2]
    } else {
        Microseconds(0)
    };
    GapSummary { count, total_us, longest_us, median_us }
}

// ---------------------------------------------------------------------------------------------
// Speakers
// ---------------------------------------------------------------------------------------------
/// How much of the episode one character actually speaks.
#[derive(Clone, Debug, PartialEq, Eq)]
pub struct SpeakerShare {
    pub character_id: String,
    pub display_name: String,
    pub narrated_turns: usize,
    /// Measured from the takes, not estimated from the words.
    pub spoken_us: Microseconds,
    /// Share of all spoken time, in basis points.
    pub share_bp: i64,
}

/// What a [`SpeakerShare`] holds, as mathematical values.
pub struct SpeakerShareModel {
    pub character_id: Seq<char>,
    pub display_name: Seq<char>,
    pub narrated_turns: int,
    pub spoken_us: Microseconds,
    pub share_bp: i64,
}

impl DeepView for SpeakerShare {
    type V = SpeakerShareModel;

    open spec fn deep_view(&self) -> SpeakerShareModel {
        SpeakerShareModel {
            character_id: self.character_id@,
            display_name: self.display_name@,
            narrated_turns: self.narrated_turns as int,
            spoken_us: self.spoken_us,
            share_bp: self.share_bp,
        }
    }
}

/// Loudest voice first: who dominates the episode is usually the first question asked of it.
impl Ranked for SpeakerShare {
    open spec fn before(left: SpeakerShareModel, right: SpeakerShareModel) -> bool {
        left.spoken_us.0 > right.spoken_us.0 || (left.spoken_us.0 == right.spoken_us.0 && text_less(
            left.character_id,
            right.character_id,
        ))
    }

    fn comes_before(&self, other: &Self) -> (result: bool) {
        self.spoken_us.0 > other.spoken_us.0 || (self.spoken_us.0 == other.spoken_us.0 && text_before(
            self.character_id.as_str(),
            other.character_id.as_str(),
        ))
    }

    proof fn before_is_an_order(a: SpeakerShareModel, b: SpeakerShareModel, c: SpeakerShareModel) {
        text_order(a.character_id, b.character_id, c.character_id);
        text_order(b.character_id, c.character_id, a.character_id);
        text_order(c.character_id, b.character_id, a.character_id);
        text_order(a.character_id, c.character_id, b.character_id);
    }
}

/// How many of the first lines a character speaks.
pub open spec fn lines_of(lines: Seq<ListenedLineModel>, character_id: Seq<char>, count: int) -> int
    decreases count,
{
    if count <= 0 {
        0
    } else if lines[count - 1].character_id == character_id {
        lines_of(lines, character_id, count - 1) + 1
    } else {
        lines_of(lines, character_id, count - 1)
    }
}

/// How long a character speaks in the first lines.
pub open spec fn spoken_by(lines: Seq<ListenedLineModel>, character_id: Seq<char>, count: int) -> int
    decreases count,
{
    if count <= 0 {
        0
    } else if lines[count - 1].character_id == character_id {
        spoken_by(lines, character_id, count - 1) + lines[count - 1].duration_us.0
    } else {
        spoken_by(lines, character_id, count - 1)
    }
}

/// Whether what each character speaks can be counted on the clock, line by line.
pub open spec fn shares_fit(lines: Seq<ListenedLineModel>) -> bool {
    forall|character_id: Seq<char>, count: int|
        0 <= count <= lines.len() ==> on_clock(#[trigger] spoken_by(lines, character_id, count))
}

/// Whether the silences and the shares of an episode can be counted on the clock, once its lines can
/// be. They always can where every clip runs forward.
pub open spec fn can_be_counted(lines: Seq<ListenedLineModel>) -> bool {
    ends_fault_from(lines, 0) is None && totals_fault_from(lines, 0) is None ==> on_clock(
        silence_total(lines, lines.len() as int),
    ) && shares_fit(lines)
}

/// Who speaks in the first lines, in the order in which they are first heard.
pub open spec fn voices(lines: Seq<ListenedLineModel>, count: int) -> Seq<Seq<char>>
    decreases count,
{
    if count <= 0 {
        Seq::empty()
    } else if voices(lines, count - 1).contains(lines[count - 1].character_id) {
        voices(lines, count - 1)
    } else {
        voices(lines, count - 1).push(lines[count - 1].character_id)
    }
}

/// What a character is called; of several members of an identifier the last counts.
pub open spec fn display_name(cast: Seq<CastMemberModel>, character_id: Seq<char>, count: int) -> Seq<char>
    decreases count,
{
    if count <= 0 {
        character_id
    } else if cast[count - 1].id == character_id {
        cast[count - 1].display_name
    } else {
        display_name(cast, character_id, count - 1)
    }
}

/// A number kept to sixty-three bits and a sign.
pub open spec fn saturated(value: int) -> int {
    if value > i64::MAX {
        i64::MAX as int
    } else if value < i64::MIN {
        i64::MIN as int
    } else {
        value
    }
}

/// A quotient without its fraction.
pub open spec fn truncated_quotient(value: int, divisor: int) -> int {
    if value < 0 {
        -(-value / divisor)
    } else {
        value / divisor
    }
}

/// A share in basis points. The product is kept to sixty-three bits and a sign.
pub open spec fn share_of(part: int, whole: int) -> int {
    if whole <= 0 {
        0
    } else {
        truncated_quotient(saturated(part * SHARE_BASIS_POINTS), whole)
    }
}

pub open spec fn speaker(cast: Seq<CastMemberModel>, lines: Seq<ListenedLineModel>, character_id: Seq<char>) -> SpeakerShareModel {
    let count = lines.len() as int;
    let part = spoken_by(lines, character_id, count);
    SpeakerShareModel {
        character_id,
        display_name: display_name(cast, character_id, cast.len() as int),
        narrated_turns: lines_of(lines, character_id, count),
        spoken_us: Microseconds(part as i64),
        share_bp: share_of(part, spoken_total(lines, count)) as i64,
    }
}

/// Everyone who speaks, the loudest voice first.
pub open spec fn speakers(cast: Seq<CastMemberModel>, lines: Seq<ListenedLineModel>) -> Seq<SpeakerShareModel> {
    let heard = voices(lines, lines.len() as int);
    ranked::<SpeakerShare>(Seq::new(heard.len(), |i: int| speaker(cast, lines, heard[i])))
}

/// Nobody speaks longer than everybody together.
pub proof fn a_part_is_no_more_than_the_whole(lines: Seq<ListenedLineModel>, character_id: Seq<char>, count: int)
    requires
        lines_run_forward(lines),
        0 <= count <= lines.len(),
    ensures
        0 <= spoken_by(lines, character_id, count) <= spoken_total(lines, count),
        0 <= lines_of(lines, character_id, count) <= count,
    decreases count,
{
    if count > 0 {
        a_part_is_no_more_than_the_whole(lines, character_id, count - 1);
    }
}

fn name_of_character(cast: &Vec<CastMember>, character_id: &str) -> (name: String)
    ensures
        name@ == display_name(cast.deep_view(), character_id@, cast.len() as int),
{
    let ghost model = cast.deep_view();
    let mut index: usize = cast.len();
    while index > 0
        invariant
            index <= cast.len(),
            model == cast.deep_view(),
            display_name(model, character_id@, cast.len() as int) == display_name(
                model,
                character_id@,
                index as int,
            ),
        decreases index,
    {
        assert(model[index - 1] == cast[index - 1].deep_view());
        if text_eq(cast[index - 1].id.as_str(), character_id) {
            return cast[index - 1].display_name.clone();
        }
        index -= 1;
    }
    character_id.to_owned()
}

fn total_spoken(lines: &Vec<ListenedLine>) -> (result: VideoResult<Microseconds>)
    ensures
        refusal(result) == totals_fault_from(lines.deep_view(), 0),
        result matches Ok(total) ==> total.0 == spoken_total(lines.deep_view(), lines.len() as int),
{
    let ghost model = lines.deep_view();
    let mut total = Microseconds(0);
    let mut index: usize = 0;
    while index < lines.len()
        invariant
            index <= lines.len(),
            model == lines.deep_view(),
            total.0 == spoken_total(model, index as int),
            totals_fault_from(model, 0) == totals_fault_from(model, index as int),
        decreases lines.len() - index,
    {
        assert(model[index as int] == lines[index as int].deep_view());
        let next: Microseconds = total.checked_add(lines[index].duration_us)?;
        total = next;
        index += 1;
    }
    Ok(total)
}

fn share_in_basis_points(part: i64, whole: i64) -> (share: i64)
    ensures
        share == share_of(part as int, whole as int),
{
    if whole <= 0 {
        return 0;
    }
    let product: i128 = part as i128 * 10_000;
    let bounded: i128 = if product > i64::MAX as i128 {
        i64::MAX as i128
    } else if product < i64::MIN as i128 {
        i64::MIN as i128
    } else {
        product
    };
    if bounded < 0 {
        let size: i128 = -bounded;
        let share: i128 = size / whole as i128;
        assert(0 <= share <= size) by (nonlinear_arith)
            requires
                size >= 0,
                whole > 0,
                share == (size as int) / (whole as int),
        ;
        (-share) as i64
    } else {
        let share: i128 = bounded / whole as i128;
        assert(0 <= share <= bounded) by (nonlinear_arith)
            requires
                bounded >= 0,
                whole > 0,
                share == (bounded as int) / (whole as int),
        ;
        share as i64
    }
}

fn measure_speaker(cast: &Vec<CastMember>, lines: &Vec<ListenedLine>, character_id: &str, total: i64) -> (share: SpeakerShare)
    requires
        shares_fit(lines.deep_view()),
        total == spoken_total(lines.deep_view(), lines.len() as int),
    ensures
        share.deep_view() == speaker(cast.deep_view(), lines.deep_view(), character_id@),
{
    let ghost model = lines.deep_view();
    let mut turns: usize = 0;
    let mut spoken: i64 = 0;
    let mut index: usize = 0;
    while index < lines.len()
        invariant
            index <= lines.len(),
            model == lines.deep_view(),
            shares_fit(model),
            turns == lines_of(model, character_id@, index as int),
            turns <= index,
            spoken == spoken_by(model, character_id@, index as int),
        decreases lines.len() - index,
    {
        assert(model[index as int] == lines[index as int].deep_view());
        assert(on_clock(spoken_by(model, character_id@, index + 1)));
        if text_eq(lines[index].character_id.as_str(), character_id) {
            turns += 1;
            spoken = spoken + lines[index].duration_us.0;
        }
        index += 1;
    }
    SpeakerShare {
        character_id: character_id.to_owned(),
        display_name: name_of_character(cast, character_id),
        narrated_turns: turns,
        spoken_us: Microseconds(spoken),
        share_bp: share_in_basis_points(spoken, total),
    }
}

fn measure_speakers(cast: &Vec<CastMember>, lines: &Vec<ListenedLine>, total: i64) -> (result: Vec<SpeakerShare>)
    requires
        shares_fit(lines.deep_view()),
        total == spoken_total(lines.deep_view(), lines.len() as int),
    ensures
        result.deep_view() == speakers(cast.deep_view(), lines.deep_view()),
{
    let ghost model = lines.deep_view();
    let ghost people = cast.deep_view();
    let mut heard: Vec<String> = Vec::new();
    let mut shares: Vec<SpeakerShare> = Vec::new();
    let mut index: usize = 0;
    assert(heard.deep_view() =~= voices(model, 0));
    while index < lines.len()
        invariant
            index <= lines.len(),
            model == lines.deep_view(),
            people == cast.deep_view(),
            shares_fit(model),
            total == spoken_total(model, model.len() as int),
            heard.deep_view() == voices(model, index as int),
            shares.len() == heard.len(),
            forall|i: int|
                0 <= i < shares.len() ==> (#[trigger] shares[i]).deep_view() == speaker(people, model, heard[i]@),
        decreases lines.len() - index,
    {
        assert(model[index as int] == lines[index as int].deep_view());
        if !is_wanted(&heard, lines[index].character_id.as_str()) {
            let ghost before = heard.deep_view();
            let id: String = lines[index].character_id.clone();
            let share: SpeakerShare = measure_speaker(cast, lines, id.as_str(), total);
            shares.push(share);
            heard.push(id);
            assert(heard.deep_view() =~= before.push(lines[index as int].character_id@));
        }
        index += 1;
    }
    let ghost names = voices(model, model.len() as int);
    assert(heard.deep_view().len() == heard.len());
    assert forall|i: int| 0 <= i < shares.len() implies shares.deep_view()[i] == speaker(people, model, names[i]) by {
        assert(heard.deep_view()[i] == heard[i]@);
        assert(shares[i].deep_view() == speaker(people, model, heard[i]@));
    }
    assert(shares.deep_view() =~= Seq::new(names.len(), |i: int| speaker(people, model, names[i])));
    rank(shares)
}

// ---------------------------------------------------------------------------------------------
// The report
// ---------------------------------------------------------------------------------------------
/// Whether a turn was performed.
pub open spec fn is_performed(lines: Seq<ListenedLineModel>, turn_id: Seq<char>) -> bool {
    exists|i: int| 0 <= i < lines.len() && (#[trigger] lines[i]).turn_id == turn_id
}

/// The turns from a place on that were written but not performed.
pub open spec fn unperformed_from(dialogue: Seq<DialogueTurnModel>, lines: Seq<ListenedLineModel>, index: int) -> Seq<
    Seq<char>,
>
    decreases dialogue.len() - index,
{
    if index < 0 || index >= dialogue.len() {
        Seq::empty()
    } else if is_performed(lines, dialogue[index].id) {
        unperformed_from(dialogue, lines, index + 1)
    } else {
        seq![dialogue[index].id] + unperformed_from(dialogue, lines, index + 1)
    }
}

/// How many of the first cues still wait for their music.
pub open spec fn cues_waiting(cues: Seq<MusicCueModel>, count: int) -> int
    decreases count,
{
    if count <= 0 {
        0
    } else if cues[count - 1].source_asset_id is None {
        cues_waiting(cues, count - 1) + 1
    } else {
        cues_waiting(cues, count - 1)
    }
}

/// The episode as rendered.
#[derive(Clone, Debug, PartialEq, Eq)]
pub struct EpisodeListening {
    pub project_id: String,
    pub timeline_duration_us: Microseconds,
    /// Total speaking time across every performed line.
    pub spoken_us: Microseconds,
    pub narrated_turns: usize,
    /// Lines that are written but not performed. These are why a summary may not describe the whole
    /// script.
    pub unnarrated_turns: Vec<String>,
    pub speakers: Vec<SpeakerShare>,
    pub gaps: GapSummary,
    /// Each performed line with its measured position and length, in timeline order.
    pub lines: Vec<ListenedLine>,
    pub music_cues_placed: usize,
    pub music_cues_planned: usize,
    pub sound_placements: usize,
    /// Lines still standing in with a draft take. An episode with any of these is unfinished.
    pub draft_turns: Vec<String>,
    /// Present only when it was measured. Absent means unmeasured, never "fine".
    pub loudness: Option<LoudnessMeasurement>,
}

/// Whether a report describes an episode.
pub open spec fn describes(heard: EpisodeListening, m: VideoProjectManifestModel, loudness: Option<LoudnessMeasurement>) -> bool {
    let lines = performed(m);
    &&& heard.project_id@ == m.project_id
    &&& heard.timeline_duration_us == m.timeline_duration_us
    &&& heard.spoken_us.0 == spoken_total(lines, lines.len() as int)
    &&& heard.narrated_turns == lines.len()
    &&& heard.unnarrated_turns.deep_view() == unperformed_from(m.dialogue, lines, 0)
    &&& heard.speakers.deep_view() == speakers(m.cast, lines)
    &&& heard.gaps == summary_of(
        silences(lines, lines.len() as int),
        Microseconds(silence_total(lines, lines.len() as int) as i64),
    )
    &&& heard.lines.deep_view() == with_lead_ins(lines)
    &&& heard.music_cues_planned == cues_waiting(m.music_cues, m.music_cues.len() as int)
    &&& heard.music_cues_placed == m.music_cues.len() - heard.music_cues_planned
    &&& heard.sound_placements == m.sound_layers.len()
    &&& heard.draft_turns.deep_view() == draft_turns_from(m.narration_bindings, 0)
    &&& heard.loudness == loudness
}

pub open spec fn listening_fault(m: VideoProjectManifestModel) -> Option<Fault> {
    or_else(ends_fault_from(performed(m), 0), totals_fault_from(performed(m), 0))
}

proof fn lemma_ends(lines: Seq<ListenedLineModel>, from: int, index: int)
    requires
        ends_fault_from(lines, from) is None,
        0 <= from <= index < lines.len(),
    ensures
        on_clock(line_end(lines[index])),
    decreases index - from,
{
    if from < index {
        lemma_ends(lines, from + 1, index);
    }
}

proof fn lemma_totals(lines: Seq<ListenedLineModel>, from: int, index: int)
    requires
        totals_fault_from(lines, from) is None,
        0 <= from <= index < lines.len(),
    ensures
        on_clock(spoken_total(lines, index + 1)),
    decreases index - from,
{
    if from < index {
        lemma_totals(lines, from + 1, index);
    }
}

proof fn lemma_silences_are_before_the_speech(lines: Seq<ListenedLineModel>, count: int)
    requires
        lines_run_forward(lines),
        ends_fault_from(lines, 0) is None,
        0 <= count <= lines.len(),
    ensures
        0 <= silence_total(lines, count) <= heard_until(lines, count) <= i64::MAX,
    decreases count,
{
    if count > 0 {
        lemma_silences_are_before_the_speech(lines, count - 1);
        lemma_ends(lines, 0, count - 1);
        assert(lines[count - 1].duration_us.0 >= 0);
    }
}

/// An episode whose clips start on the timeline and run forward can always be described.
pub proof fn an_episode_running_forward_can_be_counted(m: VideoProjectManifestModel)
    requires
        clips_run_forward(m),
    ensures
        can_be_counted(performed(m)),
{
    let lines = performed(m);
    lemma_lines_forward(m, 0);
    lemma_performed_forward(lines_from(m, 0));
    if ends_fault_from(lines, 0) is None && totals_fault_from(lines, 0) is None {
        lemma_silences_are_before_the_speech(lines, lines.len() as int);
        assert forall|character_id: Seq<char>, count: int| 0 <= count <= lines.len() implies on_clock(
            #[trigger] spoken_by(lines, character_id, count),
        ) by {
            a_part_is_no_more_than_the_whole(lines, character_id, count);
            if count > 0 {
                lemma_totals(lines, 0, count - 1);
            }
        }
    }
}

fn was_performed(lines: &Vec<ListenedLine>, turn_id: &str) -> (result: bool)
    ensures
        result == is_performed(lines.deep_view(), turn_id@),
{
    let ghost model = lines.deep_view();
    let mut index: usize = 0;
    while index < lines.len()
        invariant
            index <= lines.len(),
            model == lines.deep_view(),
            forall|i: int| 0 <= i < index ==> (#[trigger] model[i]).turn_id != turn_id@,
        decreases lines.len() - index,
    {
        assert(model[index as int] == lines[index as int].deep_view());
        if text_eq(lines[index].turn_id.as_str(), turn_id) {
            return true;
        }
        index += 1;
    }
    false
}

fn collect_unperformed(dialogue: &Vec<DialogueTurn>, lines: &Vec<ListenedLine>) -> (ids: Vec<String>)
    ensures
        ids.deep_view() == unperformed_from(dialogue.deep_view(), lines.deep_view(), 0),
{
    let ghost d = dialogue.deep_view();
    let ghost l = lines.deep_view();
    let ghost whole = unperformed_from(d, l, 0);
    let mut ids: Vec<String> = Vec::new();
    let mut index: usize = 0;
    assert(ids.deep_view() + whole =~= whole);
    while index < dialogue.len()
        invariant
            index <= dialogue.len(),
            d == dialogue.deep_view(),
            l == lines.deep_view(),
            ids.deep_view() + unperformed_from(d, l, index as int) == whole,
        decreases dialogue.len() - index,
    {
        assert(d[index as int] == dialogue[index as int].deep_view());
        if !was_performed(lines, dialogue[index].id.as_str()) {
            let ghost before = ids.deep_view();
            let ghost rest = unperformed_from(d, l, index + 1);
            ids.push(dialogue[index].id.clone());
            assert(ids.deep_view() =~= before.push(d[index as int].id));
            assert(ids.deep_view() + rest =~= before + (seq![d[index as int].id] + rest));
        }
        index += 1;
    }
    assert(ids.deep_view() =~= whole);
    ids
}

fn count_waiting(cues: &Vec<MusicCue>) -> (count: usize)
    ensures
        count == cues_waiting(cues.deep_view(), cues.len() as int),
        count <= cues.len(),
{
    let ghost model = cues.deep_view();
    let mut count: usize = 0;
    let mut index: usize = 0;
    while index < cues.len()
        invariant
            index <= cues.len(),
            count <= index,
            model == cues.deep_view(),
            count == cues_waiting(model, index as int),
        decreases cues.len() - index,
    {
        assert(model[index as int] == cues[index as int].deep_view());
        if cues[index].needs_generation() {
            count += 1;
        }
        index += 1;
    }
    count
}

/// Whether what a character speaks can be counted on the clock, line by line.
pub open spec fn share_fits(lines: Seq<ListenedLineModel>, character_id: Seq<char>) -> bool {
    forall|count: int| 0 <= count <= lines.len() ==> on_clock(#[trigger] spoken_by(lines, character_id, count))
}

fn check_share(lines: &Vec<ListenedLine>, character_id: &str) -> (fits: bool)
    ensures
        fits == share_fits(lines.deep_view(), character_id@),
{
    let ghost model = lines.deep_view();
    let mut spoken: i128 = 0;
    let mut index: usize = 0;
    while index < lines.len()
        invariant
            index <= lines.len(),
            model == lines.deep_view(),
            spoken == spoken_by(model, character_id@, index as int),
            forall|count: int| 0 <= count <= index ==> on_clock(#[trigger] spoken_by(model, character_id@, count)),
        decreases lines.len() - index,
    {
        assert(model[index as int] == lines[index as int].deep_view());
        if text_eq(lines[index].character_id.as_str(), character_id) {
            spoken = spoken + lines[index].duration_us.0 as i128;
        }
        assert(spoken == spoken_by(model, character_id@, index + 1));
        if spoken > i64::MAX as i128 || spoken < i64::MIN as i128 {
            return false;
        }
        index += 1;
    }
    true
}

proof fn lemma_unheard(lines: Seq<ListenedLineModel>, character_id: Seq<char>, count: int)
    requires
        0 <= count <= lines.len(),
        forall|i: int| 0 <= i < lines.len() ==> (#[trigger] lines[i]).character_id != character_id,
    ensures
        spoken_by(lines, character_id, count) == 0,
    decreases count,
{
    if count > 0 {
        lemma_unheard(lines, character_id, count - 1);
        assert(lines[count - 1].character_id != character_id);
    }
}

fn check_shares(lines: &Vec<ListenedLine>) -> (fits: bool)
    ensures
        fits == shares_fit(lines.deep_view()),
{
    let ghost model = lines.deep_view();
    let mut index: usize = 0;
    while index < lines.len()
        invariant
            index <= lines.len(),
            model == lines.deep_view(),
            forall|i: int| 0 <= i < index ==> share_fits(model, (#[trigger] model[i]).character_id),
        decreases lines.len() - index,
    {
        assert(model[index as int] == lines[index as int].deep_view());
        if !check_share(lines, lines[index].character_id.as_str()) {
            return false;
        }
        index += 1;
    }
    assert forall|character_id: Seq<char>, count: int| 0 <= count <= model.len() implies on_clock(
        #[trigger] spoken_by(model, character_id, count),
    ) by {
        if exists|i: int| 0 <= i < model.len() && (#[trigger] model[i]).character_id == character_id {
            let i = choose|i: int| 0 <= i < model.len() && (#[trigger] model[i]).character_id == character_id;
            assert(share_fits(model, model[i].character_id));
        } else {
            lemma_unheard(model, character_id, count);
        }
    }
    true
}

/// Whether an episode can be described: see [`can_be_counted`].
pub fn can_be_heard(manifest: &VideoProjectManifest) -> (result: bool)
    ensures
        result == can_be_counted(performed(manifest.deep_view())),
{
    let lines: Vec<ListenedLine> = rank(collect_lines(manifest));
    match (measure_silences(&lines), total_spoken(&lines)) {
        (Ok(measured), Ok(_)) => measured.total <= i64::MAX as i128 && check_shares(&lines),
        _ => true,
    }
}

/// Describes the episode as rendered.
///
/// A line is included only when it has a published take with a measured duration and a clip placing
/// it on the timeline. Everything else about it - that it exists, that it was written - is reported
/// through `unnarrated_turns` rather than folded into numbers that would then describe audio nobody
/// has.
pub fn listen_to_episode(manifest: &VideoProjectManifest, loudness: Option<LoudnessMeasurement>) -> (result: VideoResult<
    EpisodeListening,
>)
    requires
        can_be_counted(performed(manifest.deep_view())),
    ensures
        refusal(result) == listening_fault(manifest.deep_view()),
        result matches Ok(heard) ==> describes(heard, manifest.deep_view(), loudness),
{
    let ghost m = manifest.deep_view();
    let lines: Vec<ListenedLine> = rank(collect_lines(manifest));
    let ghost model = lines.deep_view();
    assert(model.len() == lines.len());
    let narrated_turns: usize = lines.len();
    let unnarrated_turns: Vec<String> = collect_unperformed(&manifest.dialogue, &lines);
    let measured: Silences = measure_silences(&lines)?;
    let spoken_us: Microseconds = total_spoken(&lines)?;
    let speakers: Vec<SpeakerShare> = measure_speakers(&manifest.cast, &lines, spoken_us.0);
    let gaps: GapSummary = summarize(measured.gaps, Microseconds(measured.total as i64));
    let planned: usize = count_waiting(&manifest.music_cues);
    assert(m.music_cues.len() == manifest.music_cues.len());
    assert(m.sound_layers.len() == manifest.sound_layers.len());
    Ok(
        EpisodeListening {
            project_id: manifest.project_id.clone(),
            timeline_duration_us: manifest.timeline_duration_us,
            spoken_us,
            narrated_turns,
            unnarrated_turns,
            speakers,
            gaps,
            lines: measured.lines,
            music_cues_placed: manifest.music_cues.len() - planned,
            music_cues_planned: planned,
            sound_placements: manifest.sound_layers.len(),
            draft_turns: manifest.draft_turn_ids(),
            loudness,
        },
    )
}

/// What some of the characters speak together.
pub open spec fn spoken_together(lines: Seq<ListenedLineModel>, characters: Seq<Seq<char>>, count: int) -> int
    decreases characters.len(),
{
    if characters.len() == 0 {
        0
    } else {
        spoken_together(lines, characters.drop_last(), count) + spoken_by(lines, characters.last(), count)
    }
}

proof fn lemma_next_line(lines: Seq<ListenedLineModel>, characters: Seq<Seq<char>>, count: int)
    requires
        0 < count <= lines.len(),
        characters.no_duplicates(),
    ensures
        spoken_together(lines, characters, count) == spoken_together(lines, characters, count - 1) + (
        if characters.contains(lines[count - 1].character_id) {
            lines[count - 1].duration_us.0 as int
        } else {
            0
        }),
    decreases characters.len(),
{
    let speaker = lines[count - 1].character_id;
    if characters.len() > 0 {
        let others = characters.drop_last();
        assert(others.no_duplicates());
        lemma_next_line(lines, others, count);
        if characters.contains(speaker) && characters.last() != speaker {
            let place = choose|place: int| 0 <= place < characters.len() && characters[place] == speaker;
            assert(others[place] == speaker);
        }
        if others.contains(speaker) {
            let place = choose|place: int| 0 <= place < others.len() && others[place] == speaker;
            assert(characters[place] == speaker);
            assert(characters.last() != speaker);
        }
        if characters.last() == speaker {
            assert(characters[characters.len() - 1] == speaker);
        }
    }
}

proof fn lemma_voices(lines: Seq<ListenedLineModel>, count: int)
    requires
        0 <= count <= lines.len(),
    ensures
        voices(lines, count).no_duplicates(),
        forall|i: int| 0 <= i < count ==> voices(lines, count).contains((#[trigger] lines[i]).character_id),
    decreases count,
{
    if count > 0 {
        lemma_voices(lines, count - 1);
        let before = voices(lines, count - 1);
        let after = voices(lines, count);
        let speaker = lines[count - 1].character_id;
        if !before.contains(speaker) {
            assert(after == before.push(speaker));
            assert(after[before.len() as int] == speaker);
            assert forall|i: int| 0 <= i < count implies after.contains((#[trigger] lines[i]).character_id) by {
                if i < count - 1 {
                    let place = choose|place: int|
                        0 <= place < before.len() && before[place] == lines[i].character_id;
                    assert(after[place] == lines[i].character_id);
                }
            }
        }
    }
}

proof fn lemma_silent(lines: Seq<ListenedLineModel>, characters: Seq<Seq<char>>)
    ensures
        spoken_together(lines, characters, 0) == 0,
    decreases characters.len(),
{
    if characters.len() > 0 {
        lemma_silent(lines, characters.drop_last());
    }
}

proof fn lemma_spoken_by_some(lines: Seq<ListenedLineModel>, characters: Seq<Seq<char>>, count: int)
    requires
        0 <= count <= lines.len(),
        characters.no_duplicates(),
        forall|i: int| 0 <= i < count ==> characters.contains((#[trigger] lines[i]).character_id),
    ensures
        spoken_together(lines, characters, count) == spoken_total(lines, count),
    decreases count,
{
    if count > 0 {
        lemma_spoken_by_some(lines, characters, count - 1);
        lemma_next_line(lines, characters, count);
        assert(characters.contains(lines[count - 1].character_id));
    } else {
        lemma_silent(lines, characters);
    }
}

/// The speaking time of an episode divides between its characters without a rest.
pub proof fn speaking_time_is_divided(lines: Seq<ListenedLineModel>)
    ensures
        voices(lines, lines.len() as int).no_duplicates(),
        spoken_together(lines, voices(lines, lines.len() as int), lines.len() as int) == spoken_total(
            lines,
            lines.len() as int,
        ),
{
    lemma_voices(lines, lines.len() as int);
    lemma_spoken_by_some(lines, voices(lines, lines.len() as int), lines.len() as int);
}

/// Whether a clip performs a turn of the script: it names the turn and plays a published take with a measured length.
pub open spec fn performs_turn(m: VideoProjectManifestModel, clip: TimelineClipModel, turn: int, artifact: int) -> bool {
    &&& 0 <= turn < m.dialogue.len()
    &&& clip.turn_id == Some(m.dialogue[turn].id)
    &&& 0 <= artifact < m.render_artifacts.len()
    &&& clip.media.render_artifact_id == Some(m.render_artifacts[artifact].id)
    &&& m.render_artifacts[artifact].duration_us is Some
    &&& m.render_artifacts[artifact].publication_state == PublicationState::Published
}

/// Every clip of an audio track that performs a turn is heard, where it stands and for as long as it plays, in the
/// words and the voice of a turn of that name; and lines are heard in the order in which they start.
pub proof fn every_performance_is_heard(m: VideoProjectManifestModel, track: int, clip: int, turn: int, artifact: int)
    requires
        0 <= track < m.tracks.len(),
        m.tracks[track].kind == TrackKind::Audio,
        0 <= clip < m.tracks[track].clips.len(),
        performs_turn(m, m.tracks[track].clips[clip], turn, artifact),
    ensures
        exists|k: int, t: int|
            0 <= k < performed(m).len() && 0 <= t < m.dialogue.len() && {
                let line = #[trigger] performed(m)[k];
                let own = #[trigger] m.dialogue[t];
                &&& own.id == m.dialogue[turn].id
                &&& line.turn_id == own.id
                &&& line.character_id == own.character_id
                &&& line.text == own.text
                &&& line.start_us == m.tracks[track].clips[clip].timeline_start_us
                &&& line.duration_us == m.tracks[track].clips[clip].timeline_duration_us
            },
        forall|i: int, j: int|
            0 <= i < j < performed(m).len() ==> (#[trigger] performed(m)[i]).start_us.0 <= (#[trigger] performed(
                m,
            )[j]).start_us.0,
{
    broadcast use vstd::seq_lib::group_to_multiset_ensures;

    let here = m.tracks[track].clips[clip];
    let t = lemma_turn_named(m.dialogue, m.dialogue[turn].id, m.dialogue.len() as int);
    assert(turn_named(m.dialogue, m.dialogue[turn].id, m.dialogue.len() as int) is Some);
    assert(is_take(m.render_artifacts[artifact]));
    assert(is_measured(m.render_artifacts, here.media.render_artifact_id));
    let line = heard_line(m, here)->0;
    lemma_line_in(m, m.tracks[track].clips, 0, clip);
    lemma_line_from(m, 0, track, line);
    let all = lines_from(m, 0);
    ranked_is_a_sorted_permutation::<ListenedLine>(all);
    assert(all.contains(line));
    assert(performed(m).to_multiset().count(line) > 0);
    assert(performed(m).contains(line));
    let k = choose|k: int| 0 <= k < performed(m).len() && performed(m)[k] == line;
    assert(performed(m)[k].turn_id == m.dialogue[t].id);
    assert forall|i: int, j: int| 0 <= i < j < performed(m).len() implies (#[trigger] performed(m)[i]).start_us.0 <= (
    #[trigger] performed(m)[j]).start_us.0 by {
        assert(!ListenedLine::before(performed(m)[j], performed(m)[i]));
    }
}

proof fn lemma_turn_named(dialogue: Seq<DialogueTurnModel>, id: Seq<char>, count: int) -> (place: int)
    requires
        0 <= count <= dialogue.len(),
    ensures
        match turn_named(dialogue, id, count) {
            Some(turn) => 0 <= place < count && dialogue[place] == turn && turn.id == id,
            None => forall|i: int| 0 <= i < count ==> (#[trigger] dialogue[i]).id != id,
        },
    decreases count,
{
    if count > 0 && dialogue[count - 1].id != id {
        lemma_turn_named(dialogue, id, count - 1)
    } else {
        count - 1
    }
}

proof fn lemma_line_in(m: VideoProjectManifestModel, clips: Seq<TimelineClipModel>, from: int, clip: int)
    requires
        0 <= from <= clip < clips.len(),
        heard_line(m, clips[clip]) is Some,
    ensures
        lines_in(m, clips, from).contains(heard_line(m, clips[clip])->0),
    decreases clip - from,
{
    let line = heard_line(m, clips[clip])->0;
    let all = lines_in(m, clips, from);
    let rest = lines_in(m, clips, from + 1);
    if from == clip {
        assert(all[0] == line);
    } else {
        lemma_line_in(m, clips, from + 1, clip);
        let k = choose|k: int| 0 <= k < rest.len() && rest[k] == line;
        let more = all.len() - rest.len();
        assert(all[k + more] == line);
    }
}

proof fn lemma_line_from(m: VideoProjectManifestModel, from: int, track: int, line: ListenedLineModel)
    requires
        0 <= from <= track < m.tracks.len(),
        m.tracks[track].kind == TrackKind::Audio,
        lines_in(m, m.tracks[track].clips, 0).contains(line),
    ensures
        lines_from(m, from).contains(line),
    decreases track - from,
{
    let all = lines_from(m, from);
    let own = lines_in(m, m.tracks[from].clips, 0);
    let rest = lines_from(m, from + 1);
    if from == track {
        let k = choose|k: int| 0 <= k < own.len() && own[k] == line;
        assert(all[k] == line);
    } else {
        lemma_line_from(m, from + 1, track, line);
        let k = choose|k: int| 0 <= k < rest.len() && rest[k] == line;
        if m.tracks[from].kind == TrackKind::Audio {
            assert(all[own.len() + k] == line);
        }
    }
}

/// The silence before a line reaches back to the last word before it: no earlier line still runs in it, and it
/// begins where one of them ends, or with the episode. There is none where an earlier line still runs.
pub proof fn a_silence_reaches_back_to_the_last_word(lines: Seq<ListenedLineModel>, index: int)
    requires
        0 <= index < lines.len(),
    ensures
        ({
            let line = lines[index];
            let silence = silence_before(lines, index);
            let begins = line.start_us.0 - silence;
            &&& silence >= 0
            &&& silence > 0 ==> begins == 0 || exists|i: int|
                0 <= i < index && begins == (#[trigger] lines[i]).start_us.0 + lines[i].duration_us.0
            &&& silence > 0 ==> begins >= 0 && forall|i: int|
                0 <= i < index ==> (#[trigger] lines[i]).start_us.0 + lines[i].duration_us.0 <= begins
            &&& silence == 0 ==> line.start_us.0 <= 0 || exists|i: int|
                0 <= i < index && line.start_us.0 <= (#[trigger] lines[i]).start_us.0 + lines[i].duration_us.0
        }),
{
    lemma_heard_until(lines, index);
}

proof fn lemma_heard_until(lines: Seq<ListenedLineModel>, count: int)
    requires
        0 <= count <= lines.len(),
    ensures
        heard_until(lines, count) >= 0,
        forall|i: int|
            0 <= i < count ==> (#[trigger] lines[i]).start_us.0 + lines[i].duration_us.0 <= heard_until(lines, count),
        heard_until(lines, count) == 0 || exists|i: int|
            0 <= i < count && heard_until(lines, count) == (#[trigger] lines[i]).start_us.0 + lines[i].duration_us.0,
    decreases count,
{
    if count > 0 {
        lemma_heard_until(lines, count - 1);
        if line_end(lines[count - 1]) > heard_until(lines, count - 1) {
            assert(heard_until(lines, count) == lines[count - 1].start_us.0 + lines[count - 1].duration_us.0);
        }
    }
}

/// Where no two lines overlap, the speech and the silences fill the episode up to the last word.
pub proof fn speech_and_silence_fill_the_episode(lines: Seq<ListenedLineModel>, count: int)
    requires
        0 <= count <= lines.len(),
        forall|i: int| 0 <= i < lines.len() ==> (#[trigger] lines[i]).start_us.0 >= 0 && lines[i].duration_us.0 >= 0,
        forall|i: int, j: int|
            0 <= i < j < lines.len() ==> (#[trigger] lines[i]).start_us.0 + lines[i].duration_us.0 <= (
            #[trigger] lines[j]).start_us.0,
    ensures
        silence_total(lines, count) + spoken_total(lines, count) == heard_until(lines, count),
        count > 0 ==> heard_until(lines, count) == lines[count - 1].start_us.0 + lines[count - 1].duration_us.0,
    decreases count,
{
    if count > 0 {
        speech_and_silence_fill_the_episode(lines, count - 1);
        lemma_heard_until(lines, count - 1);
        if count > 1 {
            assert(lines[count - 2].start_us.0 + lines[count - 2].duration_us.0 <= lines[count - 1].start_us.0);
        }
    }
}

/// The longest silence is a silence, and none is longer. The median is a silence too: in the order of their lengths
/// it stands in the middle, so as many are no longer as are no shorter, give or take one.
pub proof fn the_longest_and_the_median_are_silences(gaps: Seq<Microseconds>, total_us: Microseconds) -> (sorted: Seq<
    Microseconds,
>)
    requires
        0 < gaps.len() <= usize::MAX,
    ensures
        ({
            let summary = summary_of(gaps, total_us);
            &&& summary.count == gaps.len()
            &&& summary.total_us == total_us
            &&& gaps.contains(summary.longest_us)
            &&& forall|i: int| 0 <= i < gaps.len() ==> (#[trigger] gaps[i]).0 <= summary.longest_us.0
            &&& sorted.to_multiset() == gaps.to_multiset()
            &&& sorted.len() == gaps.len()
            &&& forall|i: int, j: int| 0 <= i <= j < sorted.len() ==> (#[trigger] sorted[i]).0 <= (#[trigger] sorted[j]).0
            &&& summary.median_us == sorted[gaps.len() as int / 2]
            &&& gaps.contains(summary.median_us)
        }),
{
    broadcast use vstd::seq_lib::group_to_multiset_ensures;

    let sorted = ranked::<Microseconds>(gaps);
    ranked_is_a_sorted_permutation::<Microseconds>(gaps);
    assert(sorted.len() == gaps.len());
    assert forall|i: int, j: int| 0 <= i <= j < sorted.len() implies (#[trigger] sorted[i]).0 <= (#[trigger] sorted[j]).0 by {
        if i < j {
            assert(!Microseconds::before(sorted[j], sorted[i]));
        }
    }
    let longest = sorted[gaps.len() - 1];
    assert(sorted.contains(longest));
    assert(gaps.to_multiset().count(longest) > 0);
    let median = sorted[gaps.len() as int / 2];
    assert(sorted.contains(median));
    assert(gaps.to_multiset().count(median) > 0);
    assert forall|i: int| 0 <= i < gaps.len() implies (#[trigger] gaps[i]).0 <= longest.0 by {
        assert(gaps.contains(gaps[i]));
        assert(sorted.to_multiset().count(gaps[i]) > 0);
        assert(sorted.contains(gaps[i]));
        let k = choose|k: int| 0 <= k < sorted.len() && sorted[k] == gaps[i];
        assert(sorted[k].0 <= sorted[gaps.len() - 1].0);
    }
    sorted
}

/// A share is the part of the whole in basis points, rounded down: all of it is ten thousand.
pub proof fn a_share_is_the_part_of_the_whole(part: int, whole: int)
    requires
        0 <= part <= whole,
        0 < whole,
        part * 10_000 <= i64::MAX,
    ensures
        share_of(part, whole) * whole <= part * 10_000 < (share_of(part, whole) + 1) * whole,
        0 <= share_of(part, whole) <= 10_000,
        part == whole ==> share_of(part, whole) == 10_000,
{
    let product = part * 10_000;
    vstd::arithmetic::div_mod::lemma_fundamental_div_mod(product, whole);
    vstd::arithmetic::div_mod::lemma_mod_bound(product, whole);
    let share = product / whole;
    assert(share_of(part, whole) == share);
    assert(share * whole == whole * share && (share + 1) * whole == whole * share + whole) by (nonlinear_arith);
    assert(0 <= share <= 10_000) by (nonlinear_arith)
        requires
            share * whole <= product < (share + 1) * whole,
            product == part * 10_000,
            0 <= part <= whole,
            0 < whole,
    ;
    if part == whole {
        assert(share == 10_000) by (nonlinear_arith)
            requires
                share * whole <= whole * 10_000 < (share + 1) * whole,
                0 < whole,
        ;
    }
}

/// Everyone who has a line is listed once, with the lines and the time that are theirs; who speaks longer is not
/// listed later.
pub proof fn everyone_who_speaks_is_listed(cast: Seq<CastMemberModel>, lines: Seq<ListenedLineModel>)
    ensures
        forall|i: int|
            0 <= i < lines.len() ==> exists|k: int|
                0 <= k < speakers(cast, lines).len() && (#[trigger] speakers(cast, lines)[k]).character_id == (
                #[trigger] lines[i]).character_id,
        speakers(cast, lines).len() == voices(lines, lines.len() as int).len(),
        voices(lines, lines.len() as int).no_duplicates(),
        forall|i: int, j: int|
            0 <= i < j < speakers(cast, lines).len() ==> (#[trigger] speakers(cast, lines)[i]).spoken_us.0 >= (
            #[trigger] speakers(cast, lines)[j]).spoken_us.0,
{
    broadcast use vstd::seq_lib::group_to_multiset_ensures;

    let heard = voices(lines, lines.len() as int);
    lemma_voices(lines, lines.len() as int);
    let all = Seq::new(heard.len(), |i: int| speaker(cast, lines, heard[i]));
    let listed = speakers(cast, lines);
    ranked_is_a_sorted_permutation::<SpeakerShare>(all);
    assert forall|i: int| 0 <= i < lines.len() implies exists|k: int|
        0 <= k < listed.len() && (#[trigger] listed[k]).character_id == (#[trigger] lines[i]).character_id by {
        assert(heard.contains(lines[i].character_id));
        let at = choose|at: int| 0 <= at < heard.len() && heard[at] == lines[i].character_id;
        assert(all.contains(all[at]));
        assert(listed.to_multiset().count(all[at]) > 0);
        assert(listed.contains(all[at]));
        let k = choose|k: int| 0 <= k < listed.len() && listed[k] == all[at];
        assert(listed[k].character_id == lines[i].character_id);
    }
    assert forall|i: int, j: int| 0 <= i < j < listed.len() implies (#[trigger] listed[i]).spoken_us.0 >= (
    #[trigger] listed[j]).spoken_us.0 by {
        assert(!SpeakerShare::before(listed[j], listed[i]));
    }
}

/// What was written and not performed is listed: a turn of the script is, unless a line performs it.
pub proof fn what_was_not_performed_is_listed(dialogue: Seq<DialogueTurnModel>, lines: Seq<ListenedLineModel>, from: int)
    requires
        0 <= from <= dialogue.len(),
    ensures
        forall|i: int|
            from <= i < dialogue.len() ==> (unperformed_from(dialogue, lines, from).contains((#[trigger] dialogue[i]).id)
                <==> forall|k: int| 0 <= k < lines.len() ==> (#[trigger] lines[k]).turn_id != dialogue[i].id),
        forall|k: int|
            0 <= k < unperformed_from(dialogue, lines, from).len() ==> !is_performed(
                lines,
                #[trigger] unperformed_from(dialogue, lines, from)[k],
            ),
    decreases dialogue.len() - from,
{
    if from < dialogue.len() {
        what_was_not_performed_is_listed(dialogue, lines, from + 1);
        let rest = unperformed_from(dialogue, lines, from + 1);
        let all = unperformed_from(dialogue, lines, from);
        assert forall|k: int| 0 <= k < all.len() implies !is_performed(lines, #[trigger] all[k]) by {
            if !is_performed(lines, dialogue[from].id) {
                if k > 0 {
                    assert(all[k] == rest[k - 1]);
                }
            } else {
                assert(all[k] == rest[k]);
            }
        }
        assert forall|i: int| from <= i < dialogue.len() implies (all.contains((#[trigger] dialogue[i]).id)
            <==> forall|k: int| 0 <= k < lines.len() ==> (#[trigger] lines[k]).turn_id != dialogue[i].id) by {
            let id = dialogue[i].id;
            if all.contains(id) {
                let k = choose|k: int| 0 <= k < all.len() && all[k] == id;
                assert(!is_performed(lines, all[k]));
            } else if !is_performed(lines, id) {
                if i == from {
                    assert(all[0] == id);
                } else {
                    assert(rest.contains(id));
                    let k = choose|k: int| 0 <= k < rest.len() && rest[k] == id;
                    let more = all.len() - rest.len();
                    assert(all[k + more] == id);
                }
            }
        }
    }
}

/// Nothing is heard that was not performed: every line that is heard is that of a clip on an audio track which names a
/// turn of the script and plays a published take with a measured length.
pub proof fn only_performances_are_heard(m: VideoProjectManifestModel, index: int) -> (place: (int, int, int, int))
    requires
        0 <= index < performed(m).len(),
    ensures
        ({
            let (track, clip, turn, artifact) = place;
            let line = performed(m)[index];
            let own = m.tracks[track].clips[clip];
            &&& 0 <= track < m.tracks.len()
            &&& m.tracks[track].kind == TrackKind::Audio
            &&& 0 <= clip < m.tracks[track].clips.len()
            &&& performs_turn(m, own, turn, artifact)
            &&& line.turn_id == m.dialogue[turn].id
            &&& line.text == m.dialogue[turn].text
            &&& line.character_id == m.dialogue[turn].character_id
            &&& line.start_us == own.timeline_start_us
            &&& line.duration_us == own.timeline_duration_us
        }),
{
    broadcast use vstd::seq_lib::group_to_multiset_ensures;

    let all = lines_from(m, 0);
    let line = performed(m)[index];
    ranked_is_a_sorted_permutation::<ListenedLine>(all);
    assert(performed(m).contains(line));
    assert(all.to_multiset().count(line) > 0);
    assert(all.contains(line));
    let k = choose|k: int| 0 <= k < all.len() && all[k] == line;
    let (track, clip) = lemma_clip_of_line(m, 0, k);
    let own = m.tracks[track].clips[clip];
    let turn = lemma_turn_named(m.dialogue, own.turn_id->0, m.dialogue.len() as int);
    let artifact = choose|i: int|
        0 <= i < m.render_artifacts.len() && is_take(#[trigger] m.render_artifacts[i])
            && own.media.render_artifact_id == Some(m.render_artifacts[i].id);
    (track, clip, turn, artifact)
}

proof fn lemma_clip_in(m: VideoProjectManifestModel, clips: Seq<TimelineClipModel>, from: int, k: int) -> (clip: int)
    requires
        0 <= from <= clips.len(),
        0 <= k < lines_in(m, clips, from).len(),
    ensures
        from <= clip < clips.len(),
        heard_line(m, clips[clip]) == Some(lines_in(m, clips, from)[k]),
    decreases clips.len() - from,
{
    let all = lines_in(m, clips, from);
    let rest = lines_in(m, clips, from + 1);
    let more = all.len() - rest.len();
    if k < more {
        from
    } else {
        assert(all[k] == rest[k - more]);
        lemma_clip_in(m, clips, from + 1, k - more)
    }
}

proof fn lemma_clip_of_line(m: VideoProjectManifestModel, from: int, k: int) -> (place: (int, int))
    requires
        0 <= from <= m.tracks.len(),
        0 <= k < lines_from(m, from).len(),
    ensures
        from <= place.0 < m.tracks.len(),
        m.tracks[place.0].kind == TrackKind::Audio,
        0 <= place.1 < m.tracks[place.0].clips.len(),
        heard_line(m, m.tracks[place.0].clips[place.1]) == Some(lines_from(m, from)[k]),
    decreases m.tracks.len() - from,
{
    let all = lines_from(m, from);
    let own = lines_in(m, m.tracks[from].clips, 0);
    let rest = lines_from(m, from + 1);
    if m.tracks[from].kind == TrackKind::Audio {
        if k < own.len() {
            assert(all[k] == own[k]);
            (from, lemma_clip_in(m, m.tracks[from].clips, 0, k))
        } else {
            assert(all[k] == rest[k - own.len()]);
            lemma_clip_of_line(m, from + 1, k - own.len())
        }
    } else {
        lemma_clip_of_line(m, from + 1, k)
    }
}

} // verus!
