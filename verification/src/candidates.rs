//! Suggestions of clips: runs of transcript segments that make an edit of the wanted length.

use crate::bytes::{big_endian_signed, push_byte, push_signed, push_text};
use crate::decimals::{fixed, fixed_text};
use crate::digest::{sha256_hex, sha256_hex_text};
use crate::error::{fault, or_else, refusal, unless, Fault, VideoError, VideoErrorCode, VideoResult};
use crate::manifest::{
    CandidateStatus, ClipCandidate, ClipCandidateModel, TranscriptSegment, TranscriptSegmentModel, TranscriptVersion,
    TranscriptVersionModel,
};
use crate::model::{find, lemma_place_from, place_of, put, put_named, Model, Named};
use crate::text::{
    chars_of, has_char, is_ascii_digit, text_concat, text_eq, text_of,
};
use crate::time::{range_between, Microseconds, TimeRange, Validate};
use crate::validate::{timed_fault_from, timed_item_fault};
use crate::words::{fit_bytes, fitting, join_first, joined, split_words, words_of};
use vstd::math::{max, min};
use vstd::prelude::*;
use vstd::utf8::encode_utf8;

verus! {

/// How long suggestions are, and how many are made.
#[derive(Clone, Copy, Debug, PartialEq, Eq, Structural)]
pub struct CandidatePolicy {
    pub minimum_duration_us: Microseconds,
    pub target_duration_us: Microseconds,
    pub maximum_duration_us: Microseconds,
    pub maximum_candidates: usize,
}

impl Default for CandidatePolicy {
    fn default() -> (policy: Self)
        ensures
            policy.minimum_duration_us.0 == 4_000_000,
            policy.target_duration_us.0 == 30_000_000,
            policy.maximum_duration_us.0 == 60_000_000,
            policy.maximum_candidates == 12,
            policy.sound(),
    {
        CandidatePolicy {
            minimum_duration_us: Microseconds(4_000_000),
            target_duration_us: Microseconds(30_000_000),
            maximum_duration_us: Microseconds(60_000_000),
            maximum_candidates: 12,
        }
    }
}

impl CandidatePolicy {
    /// Whether the lengths are in order and the counts in bounds.
    pub open spec fn sound(self) -> bool {
        &&& 0 < self.minimum_duration_us.0 <= self.target_duration_us.0
        &&& self.target_duration_us.0 <= self.maximum_duration_us.0 <= 600_000_000
        &&& 1 <= self.maximum_candidates <= 100
    }
}

impl DeepView for CandidatePolicy {
    type V = CandidatePolicy;

    open spec fn deep_view(&self) -> CandidatePolicy {
        *self
    }
}

impl Validate for CandidatePolicy {
    open spec fn fault_of(model: CandidatePolicy) -> Option<Fault> {
        unless(
            model.sound(),
            fault(
                VideoErrorCode::InvalidCandidate,
                "candidate durations must satisfy 0 < minimum <= target <= maximum <= 10 minutes, with 1..=100 results"@,
            ),
        )
    }

    fn validate(&self) -> (result: VideoResult<()>) {
        if self.minimum_duration_us.0 <= 0 || self.target_duration_us.0 < self.minimum_duration_us.0
            || self.maximum_duration_us.0 < self.target_duration_us.0 || self.maximum_duration_us.0 > 600_000_000
            || self.maximum_candidates == 0 || self.maximum_candidates > 100 {
            return Err(
                VideoError::new(
                    VideoErrorCode::InvalidCandidate,
                    "candidate durations must satisfy 0 < minimum <= target <= maximum <= 10 minutes, with 1..=100 results",
                ),
            );
        }
        Ok(())
    }
}

/// Which content a suggestion stands for.
#[derive(Clone, Debug, PartialEq, Eq)]
pub struct CandidateFingerprint {
    pub candidate_id: String,
    pub fingerprint: String,
}

/// What a [`CandidateFingerprint`] holds, as mathematical values.
pub struct CandidateFingerprintModel {
    pub candidate_id: Seq<char>,
    pub fingerprint: Seq<char>,
}

impl DeepView for CandidateFingerprint {
    type V = CandidateFingerprintModel;

    open spec fn deep_view(&self) -> CandidateFingerprintModel {
        CandidateFingerprintModel { candidate_id: self.candidate_id@, fingerprint: self.fingerprint@ }
    }
}

impl Model for CandidateFingerprint {
    fn duplicate(&self) -> (copy: Self) {
        CandidateFingerprint {
            candidate_id: self.candidate_id.duplicate(),
            fingerprint: self.fingerprint.duplicate(),
        }
    }

    fn same(&self, other: &Self) -> (equal: bool) {
        self.candidate_id.same(&other.candidate_id) && self.fingerprint.same(&other.fingerprint)
    }
}

impl Named for CandidateFingerprint {
    open spec fn name_of(model: CandidateFingerprintModel) -> Seq<char> {
        model.candidate_id
    }

    fn name(&self) -> (name: &String) {
        &self.candidate_id
    }
}

/// The suggestions made of a transcript.
#[derive(Clone, Debug, PartialEq, Eq)]
pub struct CandidateAnalysis {
    pub transcript_id: String,
    pub candidates: Vec<ClipCandidate>,
    /// Stable source-range fingerprints, one for each suggestion, make rejected suggestions stay
    /// rejected across analysis reruns without coupling that protection to transient candidate
    /// identifiers.
    pub source_range_fingerprints: Vec<CandidateFingerprint>,
}

// ---------------------------------------------------------------------------------------------
// Fingerprints
// ---------------------------------------------------------------------------------------------
/// Bytes followed by the first identifiers, each behind a zero byte.
pub open spec fn with_ids(bytes: Seq<u8>, ids: Seq<Seq<char>>, count: int) -> Seq<u8>
    decreases count,
{
    if count <= 0 {
        bytes
    } else {
        with_ids(bytes, ids, count - 1) + seq![0u8] + encode_utf8(ids[count - 1])
    }
}

/// What names a range of a source and the segments in it.
pub open spec fn range_bytes(source_asset_id: Seq<char>, range: TimeRange, segment_ids: Seq<Seq<char>>) -> Seq<u8> {
    with_ids(
        encode_utf8("soundar-video-source-range-v1"@) + seq![0u8] + encode_utf8(source_asset_id) + seq![0u8]
            + big_endian_signed(range.start()) + big_endian_signed(range.end()),
        segment_ids,
        segment_ids.len() as int,
    )
}

pub open spec fn range_fingerprint(source_asset_id: Seq<char>, range: TimeRange, segment_ids: Seq<Seq<char>>) -> Seq<char> {
    sha256_hex(range_bytes(source_asset_id, range, segment_ids))
}

/// The fingerprint of a range of a source and the segments in it.
pub fn source_range_fingerprint(source_asset_id: &str, range: TimeRange, segment_ids: &Vec<String>) -> (digest: String)
    ensures
        digest@ == range_fingerprint(source_asset_id@, range, segment_ids.deep_view()),
        digest@.len() == 64,
{
    let mut bytes: Vec<u8> = Vec::new();
    push_text(&mut bytes, "soundar-video-source-range-v1");
    assert(bytes@ =~= encode_utf8("soundar-video-source-range-v1"@));
    push_byte(&mut bytes, 0);
    push_text(&mut bytes, source_asset_id);
    push_byte(&mut bytes, 0);
    push_signed(&mut bytes, range.start_us.0);
    push_signed(&mut bytes, range.end_us.0);
    let ghost head = bytes@;
    let ghost model = segment_ids.deep_view();
    let mut index: usize = 0;
    while index < segment_ids.len()
        invariant
            index <= segment_ids.len(),
            model == segment_ids.deep_view(),
            bytes@ == with_ids(head, model, index as int),
        decreases segment_ids.len() - index,
    {
        assert(model[index as int] == segment_ids[index as int]@);
        push_byte(&mut bytes, 0);
        push_text(&mut bytes, segment_ids[index].as_str());
        index += 1;
    }
    assert(model.len() == segment_ids.len());
    sha256_hex_text(bytes.as_slice())
}

// ---------------------------------------------------------------------------------------------
// What is said of a suggestion
// ---------------------------------------------------------------------------------------------
pub open spec fn has_digit(text: Seq<char>) -> bool {
    exists|i: int| 0 <= i < text.len() && is_ascii_digit(#[trigger] text[i])
}

fn mentions_digit(text: &str) -> (result: bool)
    ensures
        result == has_digit(text@),
{
    let chars: Vec<char> = chars_of(text);
    let mut index: usize = 0;
    while index < chars.len()
        invariant
            chars@ == text@,
            index <= chars.len(),
            forall|i: int| 0 <= i < index ==> !is_ascii_digit(#[trigger] text@[i]),
        decreases chars.len() - index,
    {
        if chars[index] >= '0' && chars[index] <= '9' {
            assert(is_ascii_digit(text@[index as int]));
            return true;
        }
        index += 1;
    }
    false
}

/// The title of a suggestion: the first nine words, and whether there are more.
pub open spec fn title_of(text: Seq<char>) -> Seq<char> {
    let words = words_of(text);
    if words.len() <= 9 {
        fitting(joined(words, " "@, words.len() as int), 500)
    } else {
        fitting(joined(words, " "@, 9) + "…"@, 500)
    }
}

fn candidate_title(text: &str) -> (title: String)
    ensures
        title@ == title_of(text@),
{
    let words: Vec<String> = split_words(text);
    assert(words.deep_view().len() == words.len());
    if words.len() <= 9 {
        let title: String = join_first(&words, " ", words.len());
        fit_bytes(title.as_str(), 500)
    } else {
        let mut title: String = join_first(&words, " ", 9);
        title.append("…");
        fit_bytes(title.as_str(), 500)
    }
}

pub open spec fn points(met: bool, points: int) -> int {
    if met {
        points
    } else {
        0
    }
}

/// A number no less than a lower bound and no more than an upper one.
pub open spec fn clamped(value: int, low: int, high: int) -> int {
    if value < low {
        low
    } else if value > high {
        high
    } else {
        value
    }
}

pub open spec fn distance(a: int, b: int) -> int {
    if a < b {
        b - a
    } else {
        a - b
    }
}

/// How well a run of speech would do as a clip: near the wanted length, dense, and with a hook.
pub open spec fn score_of(text: Seq<char>, duration: int, target: int) -> int {
    clamped(
        200 + (380 - distance(duration, target) * 300 / target) + clamped(4 * (words_of(text).len() as int), 0, 260) + points(
            text.contains('?'),
            90,
        ) + points(has_digit(text), 70) + points(text.contains('!'), 40),
        0,
        1_000,
    )
}

fn candidate_score(text: &str, duration_us: i64, target_us: i64) -> (score: u16)
    requires
        0 <= duration_us <= 0xff_ffff_ffff,
        0 < target_us <= 600_000_000,
    ensures
        score == score_of(text@, duration_us as int, target_us as int),
        score <= 1_000,
{
    let words: Vec<String> = split_words(text);
    assert(words.deep_view().len() == words.len());
    let apart: i64 = if duration_us < target_us {
        target_us - duration_us
    } else {
        duration_us - target_us
    };
    let nearness: i64 = apart * 300 / target_us;
    assert(0 <= nearness <= apart * 300) by (nonlinear_arith)
        requires
            nearness == (apart * 300) / (target_us as int),
            apart >= 0,
            target_us > 0,
    ;
    let density: i64 = if words.len() >= 65 {
        260
    } else {
        words.len() as i64 * 4
    };
    let mut score: i64 = 200 + (380 - nearness) + density;
    if has_char(text, '?') {
        score = score + 90;
    }
    if mentions_digit(text) {
        score = score + 70;
    }
    if has_char(text, '!') {
        score = score + 40;
    }
    if score < 0 {
        0
    } else if score > 1_000 {
        1_000
    } else {
        score as u16
    }
}

/// A length in seconds with one decimal.
pub open spec fn seconds_text(duration: int) -> Seq<char> {
    fixed(duration, 1_000_000, 10, 1)
}

pub open spec fn hook_of(text: Seq<char>) -> Seq<char> {
    if text.contains('?') {
        "It contains a clear question-led hook"@
    } else if has_digit(text) {
        "It contains a concrete, specific hook"@
    } else {
        "It forms a self-contained spoken idea"@
    }
}

pub open spec fn rationale_of(text: Seq<char>, duration: int) -> Seq<char> {
    hook_of(text) + " and fits a "@ + seconds_text(duration)
        + "-second edit while retaining the original source-clock pauses."@
}

fn candidate_rationale(text: &str, duration_us: i64) -> (rationale: String)
    requires
        0 <= duration_us <= 0xff_ffff_ffff,
    ensures
        rationale@ == rationale_of(text@, duration_us as int),
{
    let hook: &str = if has_char(text, '?') {
        "It contains a clear question-led hook"
    } else if mentions_digit(text) {
        "It contains a concrete, specific hook"
    } else {
        "It forms a self-contained spoken idea"
    };
    let seconds: String = fixed_text(duration_us as u64, 1_000_000, 10, 1);
    let mut rationale: String = String::from_str(hook);
    rationale.append(" and fits a ");
    rationale.append(seconds.as_str());
    rationale.append("-second edit while retaining the original source-clock pauses.");
    rationale
}

// ---------------------------------------------------------------------------------------------
// Runs of segments
// ---------------------------------------------------------------------------------------------
/// The last segment of the run that starts at an instant and has reached a segment: it grows until it
/// has the wanted length, and never past the longest.
pub open spec fn reach(segments: Seq<TranscriptSegmentModel>, policy: CandidatePolicy, start: int, last: int) -> int
    decreases segments.len() - last,
{
    if last < 0 || last + 1 >= segments.len() {
        last
    } else {
        let grown_to = segments[last + 1].range.end() - start;
        if grown_to > policy.maximum_duration_us.0 {
            last
        } else if grown_to >= policy.target_duration_us.0 {
            last + 1
        } else {
            reach(segments, policy, start, last + 1)
        }
    }
}

proof fn lemma_reach(segments: Seq<TranscriptSegmentModel>, policy: CandidatePolicy, start: int, last: int)
    requires
        0 <= last < segments.len(),
    ensures
        last <= reach(segments, policy, start, last) < segments.len(),
    decreases segments.len() - last,
{
    if last + 1 < segments.len() {
        lemma_reach(segments, policy, start, last + 1);
    }
}

/// The run that starts with a segment, up to its last.
pub open spec fn run_end(segments: Seq<TranscriptSegmentModel>, policy: CandidatePolicy, first: int) -> int {
    reach(segments, policy, segments[first].range.start(), first)
}

pub open spec fn run_range(segments: Seq<TranscriptSegmentModel>, first: int, last: int) -> TimeRange {
    range_between(segments[first].range.start(), segments[last].range.end())
}

pub open spec fn run_ids(segments: Seq<TranscriptSegmentModel>, first: int, last: int) -> Seq<Seq<char>> {
    Seq::new((last + 1 - first) as nat, |i: int| segments[first + i].id)
}

pub open spec fn run_texts(segments: Seq<TranscriptSegmentModel>, first: int, last: int) -> Seq<Seq<char>> {
    Seq::new((last + 1 - first) as nat, |i: int| segments[first + i].text)
}

pub open spec fn run_text(segments: Seq<TranscriptSegmentModel>, first: int, last: int) -> Seq<char> {
    joined(run_texts(segments, first, last), " "@, last + 1 - first)
}

pub open spec fn run_fingerprint(transcript: TranscriptVersionModel, first: int, last: int) -> Seq<char> {
    range_fingerprint(
        transcript.source_asset_id,
        run_range(transcript.segments, first, last),
        run_ids(transcript.segments, first, last),
    )
}

/// The suggestion made of a run.
pub open spec fn candidate_of(
    transcript: TranscriptVersionModel,
    policy: CandidatePolicy,
    first: int,
    last: int,
) -> ClipCandidateModel {
    let range = run_range(transcript.segments, first, last);
    let text = run_text(transcript.segments, first, last);
    ClipCandidateModel {
        id: "candidate-"@ + run_fingerprint(transcript, first, last).take(24),
        source_asset_id: transcript.source_asset_id,
        source_range: range,
        title: title_of(text),
        rationale: rationale_of(text, range.length()),
        transcript_segment_ids: run_ids(transcript.segments, first, last),
        score_milli: score_of(text, range.length(), policy.target_duration_us.0 as int) as u16,
        status: CandidateStatus::Proposed,
    }
}

/// The first and last segment of each run, from a segment on, that is suggested. The runs follow one
/// another; the first that is too short ends them.
pub open spec fn runs_from(
    transcript: TranscriptVersionModel,
    policy: CandidatePolicy,
    excluded: Seq<Seq<char>>,
    first: int,
    made: int,
) -> Seq<(int, int)>
    decreases transcript.segments.len() - first,
    when 0 <= first
    via runs_from_decreases
{
    let segments = transcript.segments;
    let last = run_end(segments, policy, first);
    if first >= segments.len() || made >= policy.maximum_candidates {
        Seq::empty()
    } else if run_range(segments, first, last).length() < policy.minimum_duration_us.0 {
        Seq::empty()
    } else if excluded.contains(run_fingerprint(transcript, first, last)) {
        runs_from(transcript, policy, excluded, last + 1, made)
    } else {
        seq![(first, last)] + runs_from(transcript, policy, excluded, last + 1, made + 1)
    }
}

#[via_fn]
proof fn runs_from_decreases(
    transcript: TranscriptVersionModel,
    policy: CandidatePolicy,
    excluded: Seq<Seq<char>>,
    first: int,
    made: int,
) {
    if first < transcript.segments.len() {
        lemma_reach(transcript.segments, policy, transcript.segments[first].range.start(), first);
    }
}

pub open spec fn runs_of(transcript: TranscriptVersionModel, policy: CandidatePolicy, excluded: Seq<Seq<char>>) -> Seq<
    (int, int),
> {
    runs_from(transcript, policy, excluded, 0, 0)
}

/// The suggestions made of a transcript.
pub open spec fn candidates_of(
    transcript: TranscriptVersionModel,
    policy: CandidatePolicy,
    excluded: Seq<Seq<char>>,
) -> Seq<ClipCandidateModel> {
    let runs = runs_of(transcript, policy, excluded);
    Seq::new(runs.len(), |i: int| candidate_of(transcript, policy, runs[i].0, runs[i].1))
}

pub open spec fn fingerprint_entry(
    transcript: TranscriptVersionModel,
    policy: CandidatePolicy,
    run: (int, int),
) -> CandidateFingerprintModel {
    CandidateFingerprintModel {
        candidate_id: candidate_of(transcript, policy, run.0, run.1).id,
        fingerprint: run_fingerprint(transcript, run.0, run.1),
    }
}

/// The fingerprints of the first runs, by the suggestion's identifier.
pub open spec fn fingerprints_of(
    transcript: TranscriptVersionModel,
    policy: CandidatePolicy,
    runs: Seq<(int, int)>,
    count: int,
) -> Seq<CandidateFingerprintModel>
    decreases count,
{
    if count <= 0 {
        Seq::empty()
    } else {
        put::<CandidateFingerprint>(
            fingerprints_of(transcript, policy, runs, count - 1),
            fingerprint_entry(transcript, policy, runs[count - 1]),
        )
    }
}

pub open spec fn candidate_faults_from(candidates: Seq<ClipCandidateModel>, index: int) -> Option<Fault>
    decreases candidates.len() - index,
{
    if index < 0 || index >= candidates.len() {
        None
    } else {
        or_else(ClipCandidate::fault_of(candidates[index]), candidate_faults_from(candidates, index + 1))
    }
}

/// Why no suggestions are made.
pub open spec fn analysis_fault(
    transcript: TranscriptVersionModel,
    policy: CandidatePolicy,
    excluded: Seq<Seq<char>>,
) -> Option<Fault> {
    or_else(
        TranscriptVersion::fault_of(transcript),
        or_else(
            CandidatePolicy::fault_of(policy),
            candidate_faults_from(candidates_of(transcript, policy, excluded), 0),
        ),
    )
}

proof fn lemma_item(transcript: TranscriptVersionModel, from: int, index: int)
    requires
        0 <= from <= index < transcript.segments.len(),
        timed_fault_from::<TranscriptSegment>(
            transcript.segments,
            from,
            transcript.source_clock_duration_us.0 as int,
            "transcript.segments"@,
            VideoErrorCode::InvalidTranscript,
        ) is None,
    ensures
        timed_item_fault::<TranscriptSegment>(
            transcript.segments,
            index,
            transcript.source_clock_duration_us.0 as int,
            "transcript.segments"@,
            VideoErrorCode::InvalidTranscript,
        ) is None,
    decreases index - from,
{
    if from < index {
        lemma_item(transcript, from + 1, index);
    }
}

/// The segments of a valid transcript lie on its clock, one after the other.
proof fn lemma_segments(transcript: TranscriptVersionModel, index: int)
    requires
        0 <= index < transcript.segments.len(),
        TranscriptVersion::fault_of(transcript) is None,
    ensures
        0 <= transcript.segments[index].range.start() < transcript.segments[index].range.end() <= 21_600_000_000,
        index > 0 ==> transcript.segments[index - 1].range.end() <= transcript.segments[index].range.start(),
{
    lemma_item(transcript, 0, index);
}

proof fn lemma_segments_ordered(transcript: TranscriptVersionModel, before: int, after: int)
    requires
        0 <= before < after < transcript.segments.len(),
        TranscriptVersion::fault_of(transcript) is None,
    ensures
        transcript.segments[before].range.end() <= transcript.segments[after].range.start(),
    decreases after - before,
{
    lemma_segments(transcript, after);
    if before + 1 < after {
        lemma_segments_ordered(transcript, before, after - 1);
        lemma_segments(transcript, after - 1);
    }
}

fn run_last(segments: &Vec<TranscriptSegment>, policy: &CandidatePolicy, first: usize) -> (last: usize)
    requires
        first < segments.len(),
        policy.sound(),
        forall|i: int|
            0 <= i < segments.len() ==> 0 <= (#[trigger] segments.deep_view()[i]).range.start()
                < segments.deep_view()[i].range.end(),
    ensures
        first <= last < segments.len(),
        last == run_end(segments.deep_view(), *policy, first as int),
{
    let ghost model = segments.deep_view();
    assert(model[first as int] == segments[first as int].deep_view());
    let start: i64 = segments[first].range.start_us.0;
    let mut last: usize = first;
    while last + 1 < segments.len()
        invariant
            first <= last < segments.len(),
            model == segments.deep_view(),
            start == model[first as int].range.start(),
            0 <= start,
            forall|i: int| 0 <= i < segments.len() ==> 0 <= (#[trigger] model[i]).range.start() < model[i].range.end(),
            run_end(model, *policy, first as int) == reach(model, *policy, start as int, last as int),
        decreases segments.len() - last,
    {
        assert(model[last + 1] == segments[last + 1].deep_view());
        let next_end: i64 = segments[last + 1].range.end_us.0;
        if next_end - start > policy.maximum_duration_us.0 {
            return last;
        }
        last = last + 1;
        if next_end - start >= policy.target_duration_us.0 {
            return last;
        }
    }
    last
}

fn collect_run(segments: &Vec<TranscriptSegment>, first: usize, last: usize) -> (parts: (Vec<String>, String))
    requires
        first <= last < segments.len(),
    ensures
        parts.0.deep_view() == run_ids(segments.deep_view(), first as int, last as int),
        parts.1@ == run_text(segments.deep_view(), first as int, last as int),
{
    let ghost model = segments.deep_view();
    let mut ids: Vec<String> = Vec::new();
    let mut texts: Vec<String> = Vec::new();
    let mut index: usize = first;
    while index <= last
        invariant
            first <= index <= last + 1,
            last < segments.len(),
            model == segments.deep_view(),
            ids.len() == index - first,
            texts.len() == index - first,
            forall|i: int| 0 <= i < ids.len() ==> (#[trigger] ids[i])@ == model[first + i].id,
            forall|i: int| 0 <= i < texts.len() ==> (#[trigger] texts[i])@ == model[first + i].text,
        decreases last + 1 - index,
    {
        assert(model[index as int] == segments[index as int].deep_view());
        ids.push(segments[index].id.clone());
        texts.push(segments[index].text.clone());
        index += 1;
    }
    assert(ids.deep_view() =~= run_ids(model, first as int, last as int));
    assert(texts.deep_view() =~= run_texts(model, first as int, last as int));
    let count: usize = texts.len();
    (ids, join_first(&texts, " ", count))
}

fn has_text(texts: &Vec<String>, wanted: &str) -> (result: bool)
    ensures
        result == texts.deep_view().contains(wanted@),
{
    let ghost model = texts.deep_view();
    let mut index: usize = 0;
    while index < texts.len()
        invariant
            index <= texts.len(),
            model == texts.deep_view(),
            forall|i: int| 0 <= i < index ==> #[trigger] model[i] != wanted@,
        decreases texts.len() - index,
    {
        assert(model[index as int] == texts[index as int]@);
        if text_eq(texts[index].as_str(), wanted) {
            return true;
        }
        index += 1;
    }
    assert(model.len() == texts.len());
    false
}

/// Produces deterministic, non-overlapping suggestions. The fingerprint of rejected content can be
/// supplied on later runs so the same content is not quietly proposed again.
pub fn identify_clip_candidates(
    transcript: &TranscriptVersion,
    policy: &CandidatePolicy,
    excluded_source_fingerprints: &Vec<String>,
) -> (result: VideoResult<CandidateAnalysis>)
    ensures
        refusal(result) == analysis_fault(
            transcript.deep_view(),
            *policy,
            excluded_source_fingerprints.deep_view(),
        ),
        result matches Ok(analysis) ==> {
            let runs = runs_of(transcript.deep_view(), *policy, excluded_source_fingerprints.deep_view());
            &&& analysis.transcript_id@ == transcript.deep_view().id
            &&& analysis.candidates.deep_view() == candidates_of(
                transcript.deep_view(),
                *policy,
                excluded_source_fingerprints.deep_view(),
            )
            &&& analysis.source_range_fingerprints.deep_view() == fingerprints_of(
                transcript.deep_view(),
                *policy,
                runs,
                runs.len() as int,
            )
        },
{
    transcript.validate()?;
    policy.validate()?;
    let ghost model = transcript.deep_view();
    let ghost excluded = excluded_source_fingerprints.deep_view();
    let ghost runs = runs_of(model, *policy, excluded);
    let ghost mut taken: Seq<(int, int)> = Seq::empty();
    let segments: &Vec<TranscriptSegment> = &transcript.segments;
    assert forall|i: int| 0 <= i < segments.len() implies 0 <= (#[trigger] segments.deep_view()[i]).range.start()
        < segments.deep_view()[i].range.end() <= 21_600_000_000 by {
        lemma_segments(model, i);
    }
    let mut candidates: Vec<ClipCandidate> = Vec::new();
    let mut fingerprints: Vec<CandidateFingerprint> = Vec::new();
    let mut first: usize = 0;
    let mut done: bool = false;
    assert(taken + runs =~= runs);
    assert(fingerprints.deep_view() =~= Seq::empty());
    while !done && first < segments.len() && candidates.len() < policy.maximum_candidates
        invariant
            segments == transcript.segments,
            model == transcript.deep_view(),
            excluded == excluded_source_fingerprints.deep_view(),
            policy.sound(),
            first <= segments.len(),
            forall|i: int|
                0 <= i < segments.len() ==> 0 <= (#[trigger] segments.deep_view()[i]).range.start()
                    < segments.deep_view()[i].range.end() <= 21_600_000_000,
            candidates.len() == taken.len(),
            candidates.len() <= policy.maximum_candidates,
            !done ==> taken + runs_from(model, *policy, excluded, first as int, taken.len() as int) == runs,
            done ==> taken == runs,
            forall|i: int|
                0 <= i < taken.len() ==> (#[trigger] candidates[i]).deep_view() == candidate_of(
                    model,
                    *policy,
                    taken[i].0,
                    taken[i].1,
                ),
            fingerprints.deep_view() == fingerprints_of(model, *policy, taken, taken.len() as int),
        decreases segments.len() - first, !done as int,
    {
        let last: usize = run_last(segments, policy, first);
        assert(model.segments[first as int] == segments[first as int].deep_view());
        assert(model.segments[last as int] == segments[last as int].deep_view());
        let start: i64 = segments[first].range.start_us.0;
        let end: i64 = segments[last].range.end_us.0;
        let ghost range = run_range(model.segments, first as int, last as int);
        let ghost rest = runs_from(model, *policy, excluded, first as int, taken.len() as int);
        if end - start < policy.minimum_duration_us.0 {
            assert(rest =~= Seq::empty());
            assert(taken =~= runs);
            done = true;
        } else {
            let duration: i64 = end - start;
            let source_range: TimeRange = TimeRange::new(start, end)?;
            assert(source_range == range);
            let parts: (Vec<String>, String) = collect_run(segments, first, last);
            let fingerprint: String = source_range_fingerprint(
                transcript.source_asset_id.as_str(),
                source_range,
                &parts.0,
            );
            assert(fingerprint@ == run_fingerprint(model, first as int, last as int));
            if !has_text(excluded_source_fingerprints, fingerprint.as_str()) {
                let text: &String = &parts.1;
                let digits: Vec<char> = chars_of(fingerprint.as_str());
                let short: String = text_of(&digits, 0, 24);
                assert(short@ =~= fingerprint@.take(24));
                let id: String = text_concat("candidate-", short.as_str());
                let title: String = candidate_title(text.as_str());
                let rationale: String = candidate_rationale(text.as_str(), duration);
                let score_milli: u16 = candidate_score(text.as_str(), duration, policy.target_duration_us.0);
                let candidate = ClipCandidate {
                    id: id.clone(),
                    source_asset_id: transcript.source_asset_id.clone(),
                    source_range,
                    title,
                    rationale,
                    transcript_segment_ids: parts.0,
                    score_milli,
                    status: CandidateStatus::Proposed,
                };
                assert(candidate.deep_view() == candidate_of(model, *policy, first as int, last as int));
                let entry = CandidateFingerprint { candidate_id: id, fingerprint };
                let ghost before = taken;
                proof {
                    let run = (first as int, last as int);
                    let more = runs_from(model, *policy, excluded, last + 1, taken.len() as int + 1);
                    assert(rest == seq![run] + more);
                    taken = taken.push(run);
                    assert(taken + more =~= before + (seq![run] + more));
                    lemma_fingerprints_prefix(model, *policy, before, taken, before.len() as int);
                }
                fingerprints = put_named(&fingerprints, entry);
                candidates.push(candidate);
                assert(taken[taken.len() - 1] == (first as int, last as int));
            }
            first = last + 1;
        }
    }
    proof {
        if !done {
            assert(runs_from(model, *policy, excluded, first as int, taken.len() as int) =~= Seq::empty());
            assert(taken =~= runs);
        }
        assert(candidates.deep_view() =~= candidates_of(model, *policy, excluded));
    }
    validate_candidates(&candidates)?;
    Ok(
        CandidateAnalysis {
            transcript_id: transcript.id.clone(),
            candidates,
            source_range_fingerprints: fingerprints,
        },
    )
}

proof fn lemma_fingerprints_prefix(
    transcript: TranscriptVersionModel,
    policy: CandidatePolicy,
    left: Seq<(int, int)>,
    right: Seq<(int, int)>,
    count: int,
)
    requires
        0 <= count <= left.len() <= right.len(),
        forall|i: int| 0 <= i < count ==> left[i] == right[i],
    ensures
        fingerprints_of(transcript, policy, left, count) == fingerprints_of(transcript, policy, right, count),
    decreases count,
{
    if count > 0 {
        lemma_fingerprints_prefix(transcript, policy, left, right, count - 1);
    }
}

fn validate_candidates(candidates: &Vec<ClipCandidate>) -> (result: VideoResult<()>)
    ensures
        refusal(result) == candidate_faults_from(candidates.deep_view(), 0),
{
    let ghost model = candidates.deep_view();
    let mut index: usize = 0;
    while index < candidates.len()
        invariant
            index <= candidates.len(),
            model == candidates.deep_view(),
            candidate_faults_from(model, 0) == candidate_faults_from(model, index as int),
        decreases candidates.len() - index,
    {
        assert(model[index as int] == candidates[index as int].deep_view());
        candidates[index].validate()?;
        index += 1;
    }
    Ok(())
}

// ---------------------------------------------------------------------------------------------
// What holds of every analysis
// ---------------------------------------------------------------------------------------------
proof fn lemma_runs(
    transcript: TranscriptVersionModel,
    policy: CandidatePolicy,
    excluded: Seq<Seq<char>>,
    first: int,
    made: int,
)
    requires
        0 <= first,
        made <= policy.maximum_candidates,
    ensures
        ({
            let runs = runs_from(transcript, policy, excluded, first, made);
            &&& runs.len() <= policy.maximum_candidates - made
            &&& forall|i: int|
                0 <= i < runs.len() ==> first <= (#[trigger] runs[i]).0 <= runs[i].1 < transcript.segments.len()
            &&& forall|i: int, j: int| 0 <= i < j < runs.len() ==> (#[trigger] runs[i]).1 < (#[trigger] runs[j]).0
            &&& forall|i: int|
                0 <= i < runs.len() ==> !excluded.contains(
                    run_fingerprint(transcript, (#[trigger] runs[i]).0, runs[i].1),
                )
            &&& forall|i: int|
                0 <= i < runs.len() ==> run_range(transcript.segments, (#[trigger] runs[i]).0, runs[i].1).length()
                    >= policy.minimum_duration_us.0
        }),
    decreases transcript.segments.len() - first,
{
    let segments = transcript.segments;
    if first < segments.len() && made < policy.maximum_candidates {
        let last = run_end(segments, policy, first);
        lemma_reach(segments, policy, segments[first].range.start(), first);
        if run_range(segments, first, last).length() >= policy.minimum_duration_us.0 {
            if excluded.contains(run_fingerprint(transcript, first, last)) {
                lemma_runs(transcript, policy, excluded, last + 1, made);
            } else {
                lemma_runs(transcript, policy, excluded, last + 1, made + 1);
                let rest = runs_from(transcript, policy, excluded, last + 1, made + 1);
                let runs = runs_from(transcript, policy, excluded, first, made);
                assert(runs == seq![(first, last)] + rest);
                assert forall|i: int| 0 < i < runs.len() implies #[trigger] runs[i] == rest[i - 1] by {}
            }
        }
    }
}

/// Suggestions follow one another: none begins before the one before it has ended, and there are no
/// more than were asked for.
pub proof fn suggestions_do_not_overlap(
    transcript: TranscriptVersionModel,
    policy: CandidatePolicy,
    excluded: Seq<Seq<char>>,
)
    requires
        TranscriptVersion::fault_of(transcript) is None,
    ensures
        candidates_of(transcript, policy, excluded).len() <= policy.maximum_candidates,
        forall|i: int, j: int|
            0 <= i < j < candidates_of(transcript, policy, excluded).len() ==> (#[trigger] candidates_of(
                transcript,
                policy,
                excluded,
            )[i]).source_range.end() <= (#[trigger] candidates_of(transcript, policy, excluded)[j]).source_range.start(),
{
    lemma_runs(transcript, policy, excluded, 0, 0);
    let runs = runs_of(transcript, policy, excluded);
    let found = candidates_of(transcript, policy, excluded);
    assert forall|i: int, j: int| 0 <= i < j < found.len() implies (#[trigger] found[i]).source_range.end() <= (
    #[trigger] found[j]).source_range.start() by {
        assert(runs[i].1 < runs[j].0);
        lemma_segments_ordered(transcript, runs[i].1, runs[j].0);
        lemma_segments(transcript, runs[i].0);
        lemma_segments(transcript, runs[i].1);
        lemma_segments(transcript, runs[j].0);
        lemma_segments(transcript, runs[j].1);
    }
}

/// Content whose fingerprint is excluded is not suggested again, however the rest of the policy
/// stands.
pub proof fn rejected_content_stays_rejected(
    transcript: TranscriptVersionModel,
    policy: CandidatePolicy,
    excluded: Seq<Seq<char>>,
    index: int,
)
    requires
        0 <= index < candidates_of(transcript, policy, excluded).len(),
    ensures
        ({
            let candidate = candidates_of(transcript, policy, excluded)[index];
            !excluded.contains(
                range_fingerprint(
                    candidate.source_asset_id,
                    candidate.source_range,
                    candidate.transcript_segment_ids,
                ),
            )
        }),
{
    lemma_runs(transcript, policy, excluded, 0, 0);
    let run = runs_of(transcript, policy, excluded)[index];
    assert(!excluded.contains(run_fingerprint(transcript, run.0, run.1)));
}

/// The fingerprint of every suggestion is recorded under the suggestion's identifier.
pub proof fn every_suggestion_has_its_fingerprint(
    transcript: TranscriptVersionModel,
    policy: CandidatePolicy,
    excluded: Seq<Seq<char>>,
    index: int,
)
    requires
        0 <= index < candidates_of(transcript, policy, excluded).len(),
    ensures
        find::<CandidateFingerprint>(
            fingerprints_of(
                transcript,
                policy,
                runs_of(transcript, policy, excluded),
                runs_of(transcript, policy, excluded).len() as int,
            ),
            candidates_of(transcript, policy, excluded)[index].id,
        ) is Some,
{
    let runs = runs_of(transcript, policy, excluded);
    lemma_recorded(transcript, policy, runs, runs.len() as int, index);
}

proof fn lemma_recorded(
    transcript: TranscriptVersionModel,
    policy: CandidatePolicy,
    runs: Seq<(int, int)>,
    count: int,
    index: int,
)
    requires
        0 <= index < count <= runs.len(),
    ensures
        exists|place: int|
            0 <= place < fingerprints_of(transcript, policy, runs, count).len() && (
            #[trigger] fingerprints_of(transcript, policy, runs, count)[place]).candidate_id == fingerprint_entry(
                transcript,
                policy,
                runs[index],
            ).candidate_id,
        find::<CandidateFingerprint>(
            fingerprints_of(transcript, policy, runs, count),
            fingerprint_entry(transcript, policy, runs[index]).candidate_id,
        ) is Some,
    decreases count,
{
    let fewer = fingerprints_of(transcript, policy, runs, count - 1);
    let all = fingerprints_of(transcript, policy, runs, count);
    let entry = fingerprint_entry(transcript, policy, runs[count - 1]);
    let id = fingerprint_entry(transcript, policy, runs[index]).candidate_id;
    lemma_place_from::<CandidateFingerprint>(fewer, entry.candidate_id, 0);
    if index == count - 1 {
        match place_of::<CandidateFingerprint>(fewer, entry.candidate_id) {
            Some(place) => {
                assert(all[place].candidate_id == id);
            },
            None => {
                assert(all[fewer.len() as int].candidate_id == id);
            },
        }
    } else {
        lemma_recorded(transcript, policy, runs, count - 1, index);
        let place = choose|place: int| 0 <= place < fewer.len() && (#[trigger] fewer[place]).candidate_id == id;
        assert(all[place].candidate_id == id);
    }
    lemma_place_from::<CandidateFingerprint>(all, id, 0);
}

/// Every suggestion is at least as long as the policy asks.
pub proof fn suggestions_are_long_enough(
    transcript: TranscriptVersionModel,
    policy: CandidatePolicy,
    excluded: Seq<Seq<char>>,
    index: int,
)
    requires
        0 <= index < candidates_of(transcript, policy, excluded).len(),
    ensures
        candidates_of(transcript, policy, excluded)[index].source_range.length() >= policy.minimum_duration_us.0,
{
    lemma_runs(transcript, policy, excluded, 0, 0);
    let run = runs_of(transcript, policy, excluded)[index];
    assert(run_range(transcript.segments, run.0, run.1).length() >= policy.minimum_duration_us.0);
}

/// A suggestion nearer to the wanted length never scores less.
pub proof fn nearer_lengths_score_no_less(text: Seq<char>, near: int, far: int, target: int)
    requires
        0 < target,
        0 <= near,
        0 <= far,
        max(near, target) - min(near, target) <= max(far, target) - min(far, target),
    ensures
        score_of(text, far, target) <= score_of(text, near, target) <= 1_000,
        0 <= score_of(text, far, target),
{
    let a = distance(near, target) * 300;
    let b = distance(far, target) * 300;
    vstd::arithmetic::div_mod::lemma_div_is_ordered(a, b, target);
}

/// A question is worth ninety points, a number seventy and an exclamation forty, up to a thousand in all.
pub proof fn hooks_have_their_worth(plain: Seq<char>, hooked: Seq<char>, duration: int, target: int)
    requires
        words_of(plain).len() == words_of(hooked).len(),
        score_of(plain, duration, target) > 0,
        !plain.contains('?'),
        !plain.contains('!'),
        forall|i: int| 0 <= i < plain.len() ==> !('0' <= #[trigger] plain[i] <= '9'),
    ensures
        ({
            let worth: int = (if hooked.contains('?') { 90int } else { 0 }) + (if exists|i: int|
                0 <= i < hooked.len() && '0' <= #[trigger] hooked[i] <= '9' { 70int } else { 0 }) + (if hooked.contains('!') {
                40int
            } else {
                0
            });
            score_of(hooked, duration, target) == min(1_000, score_of(plain, duration, target) + worth)
        }),
{
    assert(has_digit(hooked) <==> exists|i: int| 0 <= i < hooked.len() && '0' <= #[trigger] hooked[i] <= '9') by {
        if has_digit(hooked) {
            let i = choose|i: int| 0 <= i < hooked.len() && is_ascii_digit(#[trigger] hooked[i]);
            assert('0' <= hooked[i] <= '9');
        }
        if exists|i: int| 0 <= i < hooked.len() && '0' <= #[trigger] hooked[i] <= '9' {
            let i = choose|i: int| 0 <= i < hooked.len() && '0' <= #[trigger] hooked[i] <= '9';
            assert(is_ascii_digit(hooked[i]));
        }
    }
    assert(!has_digit(plain));
}

/// A word more is worth four points, up to sixty-five words, and a plain text at exactly the wanted length starts from
/// five hundred and eighty.
pub proof fn words_have_their_worth(text: Seq<char>, target: int)
    requires
        0 < target,
        !text.contains('?'),
        !text.contains('!'),
        forall|i: int| 0 <= i < text.len() ==> !('0' <= #[trigger] text[i] <= '9'),
    ensures
        score_of(text, target, target) == 580 + 4 * min(words_of(text).len() as int, 65),
{
    assert(!has_digit(text));
    assert(distance(target, target) * 300 / target == 0) by (nonlinear_arith)
        requires
            distance(target, target) == 0,
            target > 0,
    ;
}

/// A suggestion is a run of segments, from the start of its first to the end of its last. It grows as long as it is
/// short of the wanted length and the next segment fits: it stops only where it is long enough, where the next would
/// make it too long, or where the transcript ends. It is too long itself only where a single segment is.
pub proof fn a_run_grows_to_the_wanted_length(segments: Seq<TranscriptSegmentModel>, policy: CandidatePolicy, start: int, last: int)
    requires
        0 <= last < segments.len(),
    ensures
        ({
            let end = reach(segments, policy, start, last);
            let length = segments[end].range.end_us.0 - start;
            &&& last <= end < segments.len()
            &&& end > last ==> length <= policy.maximum_duration_us.0
            &&& end + 1 == segments.len() || (end > last && length >= policy.target_duration_us.0)
                || segments[end + 1].range.end_us.0 - start > policy.maximum_duration_us.0
            &&& forall|i: int|
                last < i < end ==> (#[trigger] segments[i]).range.end_us.0 - start < policy.target_duration_us.0
        }),
    decreases segments.len() - last,
{
    if last + 1 < segments.len() {
        let grown_to = segments[last + 1].range.end() - start;
        if grown_to <= policy.maximum_duration_us.0 && grown_to < policy.target_duration_us.0 {
            a_run_grows_to_the_wanted_length(segments, policy, start, last + 1);
        }
    }
}

/// A suggestion names the segments of its run in their order, from the start of the first to the end of the last, and
/// waits for a decision.
pub proof fn a_suggestion_is_its_run(transcript: TranscriptVersionModel, policy: CandidatePolicy, first: int, last: int)
    requires
        0 <= first <= last < transcript.segments.len(),
    ensures
        ({
            let candidate = candidate_of(transcript, policy, first, last);
            &&& candidate.source_asset_id == transcript.source_asset_id
            &&& candidate.source_range.start_us == transcript.segments[first].range.start_us
            &&& candidate.source_range.end_us == transcript.segments[last].range.end_us
            &&& candidate.transcript_segment_ids.len() == last - first + 1
            &&& forall|i: int|
                first <= i <= last ==> candidate.transcript_segment_ids[i - first] == (
                #[trigger] transcript.segments[i]).id
            &&& candidate.status == CandidateStatus::Proposed
        }),
{
}

} // verus!
