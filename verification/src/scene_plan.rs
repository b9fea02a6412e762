//! The reviewed timeline that the accepted suggestions make.

use crate::digest::{sha256_hex, sha256_hex_text};
use crate::error::{fault, fault_at, or_else, refusal, refuse, unless, Fault, VideoError, VideoErrorCode, VideoResult};
use crate::manifest::{
    AudioMix, AudioMixModel, AudioMixTrack, AudioMixTrackModel, CandidateStatus, CaptionCue, CaptionCueModel,
    ClipCandidate, ClipCandidateModel, GapReason, MediaReference, MediaReferenceModel, ReviewState, ReviewedScene,
    ReviewedSceneModel, SourceAsset, SourceAssetModel, TimelineClip, TimelineClipModel, TimelineGap, TimelineGapModel,
    TimelineTrack, TimelineTrackModel, TrackKind, TranscriptSegment, TranscriptSegmentModel, VideoProjectManifest,
    VideoProjectManifestModel,
};
use crate::model::{find, find_named, what_is_found_bears_the_name, Model};
use crate::text::{bytes_in, byte_len, chars_in, chars_of, padded, padded_text, text_concat, text_concat3, text_eq, text_of};
use crate::time::{
    addition_fault, on_clock, range_between, range_fault, Microseconds, RationalFrameRate, RationalRate, TimeRange,
    Validate,
};
use crate::timeline::{
    a_quantized_range_takes_in_no_frame_more, outward_end, outward_start, quantize_fault, quantize_range_outward,
    quantized_range_encloses_the_range,
};
use crate::words::{join_first, joined};
use vstd::math::{max, min};
use vstd::prelude::*;
use vstd::utf8::encode_utf8;

verus! {

/// Which suggestions to place, and how.
#[derive(Clone, Debug, PartialEq, Eq)]
pub struct ScenePlanRequest {
    pub selected_candidate_ids: Vec<String>,
    pub caption_style_id: String,
    pub inter_scene_gap_us: Microseconds,
}

/// What a [`ScenePlanRequest`] holds, as mathematical values.
pub struct ScenePlanRequestModel {
    pub selected_candidate_ids: Seq<Seq<char>>,
    pub caption_style_id: Seq<char>,
    pub inter_scene_gap_us: Microseconds,
}

impl DeepView for ScenePlanRequest {
    type V = ScenePlanRequestModel;

    open spec fn deep_view(&self) -> ScenePlanRequestModel {
        ScenePlanRequestModel {
            selected_candidate_ids: self.selected_candidate_ids.deep_view(),
            caption_style_id: self.caption_style_id@,
            inter_scene_gap_us: self.inter_scene_gap_us,
        }
    }
}

/// A timeline made of accepted suggestions.
#[derive(Clone, Debug, PartialEq, Eq)]
pub struct ScenePlan {
    pub timeline_duration_us: Microseconds,
    pub candidates: Vec<ClipCandidate>,
    pub reviewed_scenes: Vec<ReviewedScene>,
    pub tracks: Vec<TimelineTrack>,
    pub gaps: Vec<TimelineGap>,
    pub captions: Vec<CaptionCue>,
    pub audio_mix: AudioMix,
}

/// What a [`ScenePlan`] holds, as mathematical values.
pub struct ScenePlanModel {
    pub timeline_duration_us: Microseconds,
    pub candidates: Seq<ClipCandidateModel>,
    pub reviewed_scenes: Seq<ReviewedSceneModel>,
    pub tracks: Seq<TimelineTrackModel>,
    pub gaps: Seq<TimelineGapModel>,
    pub captions: Seq<CaptionCueModel>,
    pub audio_mix: AudioMixModel,
}

impl DeepView for ScenePlan {
    type V = ScenePlanModel;

    open spec fn deep_view(&self) -> ScenePlanModel {
        ScenePlanModel {
            timeline_duration_us: self.timeline_duration_us,
            candidates: self.candidates.deep_view(),
            reviewed_scenes: self.reviewed_scenes.deep_view(),
            tracks: self.tracks.deep_view(),
            gaps: self.gaps.deep_view(),
            captions: self.captions.deep_view(),
            audio_mix: self.audio_mix.deep_view(),
        }
    }
}

// ---------------------------------------------------------------------------------------------
// The request
// ---------------------------------------------------------------------------------------------
pub open spec fn request_fault(request: ScenePlanRequestModel) -> Option<Fault> {
    or_else(
        unless(
            1 <= request.selected_candidate_ids.len() <= 100,
            fault_at(
                VideoErrorCode::InvalidScene,
                "a plan requires 1..=100 selected candidates"@,
                "selected_candidate_ids"@,
            ),
        ),
        or_else(
            unless(
                request.caption_style_id.len() > 0 && byte_len(request.caption_style_id) <= 128,
                fault_at(
                    VideoErrorCode::InvalidCaption,
                    "caption_style_id must be a bounded identifier"@,
                    "caption_style_id"@,
                ),
            ),
            unless(
                0 <= request.inter_scene_gap_us.0 <= 10_000_000,
                fault(
                    VideoErrorCode::InvalidGap,
                    "inter-scene gaps must be between zero and ten seconds"@,
                ),
            ),
        ),
    )
}

fn check_request(request: &ScenePlanRequest) -> (result: VideoResult<()>)
    ensures
        refusal(result) == request_fault(request.deep_view()),
{
    assert(request.selected_candidate_ids.deep_view().len() == request.selected_candidate_ids.len());
    if request.selected_candidate_ids.len() == 0 || request.selected_candidate_ids.len() > 100 {
        return Err(
            refuse(
                VideoErrorCode::InvalidScene,
                "a plan requires 1..=100 selected candidates",
                "selected_candidate_ids",
            ),
        );
    }
    if chars_in(request.caption_style_id.as_str()) == 0 || bytes_in(request.caption_style_id.as_str()) > 128 {
        return Err(
            refuse(
                VideoErrorCode::InvalidCaption,
                "caption_style_id must be a bounded identifier",
                "caption_style_id",
            ),
        );
    }
    if request.inter_scene_gap_us.0 < 0 || request.inter_scene_gap_us.0 > 10_000_000 {
        return Err(
            VideoError::new(
                VideoErrorCode::InvalidGap,
                "inter-scene gaps must be between zero and ten seconds",
            ),
        );
    }
    Ok(())
}

// ---------------------------------------------------------------------------------------------
// The selection
// ---------------------------------------------------------------------------------------------
/// Whether an identifier stands earlier in the selection too.
pub open spec fn selected_before(ids: Seq<Seq<char>>, index: int) -> bool {
    exists|i: int| 0 <= i < index && #[trigger] ids[i] == ids[index]
}

pub open spec fn selection_fault_at(candidates: Seq<ClipCandidateModel>, ids: Seq<Seq<char>>, index: int) -> Option<Fault> {
    let candidate = find::<ClipCandidate>(candidates, ids[index]);
    or_else(
        unless(
            !selected_before(ids, index),
            fault(
                VideoErrorCode::DuplicateId,
                "candidate "@ + ids[index] + " was selected more than once"@,
            ),
        ),
        or_else(
            unless(
                candidate is Some,
                fault(
                    VideoErrorCode::MissingReference,
                    "selected candidate "@ + ids[index] + " does not exist"@,
                ),
            ),
            unless(
                candidate->0.status != CandidateStatus::Rejected,
                fault(
                    VideoErrorCode::InvalidCandidate,
                    "rejected candidate "@ + ids[index] + " cannot be placed on the timeline"@,
                ),
            ),
        ),
    )
}

pub open spec fn selection_fault_from(candidates: Seq<ClipCandidateModel>, ids: Seq<Seq<char>>, index: int) -> Option<Fault>
    decreases ids.len() - index,
{
    if index < 0 || index >= ids.len() {
        None
    } else {
        or_else(selection_fault_at(candidates, ids, index), selection_fault_from(candidates, ids, index + 1))
    }
}

/// The selected suggestions, in the order of the selection.
pub open spec fn selection(candidates: Seq<ClipCandidateModel>, ids: Seq<Seq<char>>) -> Seq<ClipCandidateModel> {
    Seq::new(ids.len(), |i: int| find::<ClipCandidate>(candidates, ids[i])->0)
}

fn stands_before(ids: &Vec<String>, index: usize) -> (result: bool)
    requires
        index < ids.len(),
    ensures
        result == selected_before(ids.deep_view(), index as int),
{
    let ghost model = ids.deep_view();
    assert(model[index as int] == ids[index as int]@);
    let mut place: usize = 0;
    while place < index
        invariant
            place <= index < ids.len(),
            model == ids.deep_view(),
            model[index as int] == ids[index as int]@,
            forall|i: int| 0 <= i < place ==> #[trigger] model[i] != model[index as int],
        decreases index - place,
    {
        assert(model[place as int] == ids[place as int]@);
        if text_eq(ids[place].as_str(), ids[index].as_str()) {
            return true;
        }
        place += 1;
    }
    false
}

fn select(candidates: &Vec<ClipCandidate>, ids: &Vec<String>) -> (result: VideoResult<Vec<ClipCandidate>>)
    ensures
        refusal(result) == selection_fault_from(candidates.deep_view(), ids.deep_view(), 0),
        result matches Ok(selected) ==> selected.deep_view() == selection(
            candidates.deep_view(),
            ids.deep_view(),
        ),
{
    let ghost model = ids.deep_view();
    let ghost known = candidates.deep_view();
    let mut selected: Vec<ClipCandidate> = Vec::new();
    let mut index: usize = 0;
    while index < ids.len()
        invariant
            index <= ids.len(),
            model == ids.deep_view(),
            known == candidates.deep_view(),
            selected.len() == index,
            forall|i: int|
                0 <= i < index ==> (#[trigger] selected[i]).deep_view() == find::<ClipCandidate>(
                    known,
                    model[i],
                )->0,
            selection_fault_from(known, model, 0) == selection_fault_from(known, model, index as int),
        decreases ids.len() - index,
    {
        let id: &str = ids[index].as_str();
        assert(model[index as int] == id@);
        if stands_before(ids, index) {
            let message: String = text_concat3("candidate ", id, " was selected more than once");
            return Err(VideoError::new(VideoErrorCode::DuplicateId, message.as_str()));
        }
        match find_named(candidates, id) {
            Some(candidate) => {
                if candidate.status == CandidateStatus::Rejected {
                    let message: String = text_concat3(
                        "rejected candidate ",
                        id,
                        " cannot be placed on the timeline",
                    );
                    return Err(VideoError::new(VideoErrorCode::InvalidCandidate, message.as_str()));
                }
                selected.push(candidate.duplicate());
            },
            None => {
                let message: String = text_concat3("selected candidate ", id, " does not exist");
                return Err(VideoError::new(VideoErrorCode::MissingReference, message.as_str()));
            },
        }
        index += 1;
    }
    assert(selected.deep_view() =~= selection(known, model));
    Ok(selected)
}

/// A suggestion once the selection is made: accepted where it was selected, and no longer where it
/// was not.
pub open spec fn decided(candidate: ClipCandidateModel, ids: Seq<Seq<char>>) -> ClipCandidateModel {
    ClipCandidateModel {
        status: if ids.contains(candidate.id) {
            CandidateStatus::Accepted
        } else if candidate.status == CandidateStatus::Accepted {
            CandidateStatus::Proposed
        } else {
            candidate.status
        },
        ..candidate
    }
}

pub open spec fn all_decided(candidates: Seq<ClipCandidateModel>, ids: Seq<Seq<char>>) -> Seq<ClipCandidateModel> {
    Seq::new(candidates.len(), |i: int| decided(candidates[i], ids))
}

fn is_listed(ids: &Vec<String>, id: &str) -> (result: bool)
    ensures
        result == ids.deep_view().contains(id@),
{
    let ghost model = ids.deep_view();
    let mut index: usize = 0;
    while index < ids.len()
        invariant
            index <= ids.len(),
            model == ids.deep_view(),
            forall|i: int| 0 <= i < index ==> #[trigger] model[i] != id@,
        decreases ids.len() - index,
    {
        assert(model[index as int] == ids[index as int]@);
        if text_eq(ids[index].as_str(), id) {
            return true;
        }
        index += 1;
    }
    assert(model.len() == ids.len());
    false
}

fn decide(candidates: &Vec<ClipCandidate>, ids: &Vec<String>) -> (result: Vec<ClipCandidate>)
    ensures
        result.deep_view() == all_decided(candidates.deep_view(), ids.deep_view()),
{
    let ghost model = candidates.deep_view();
    let mut result: Vec<ClipCandidate> = Vec::new();
    let mut index: usize = 0;
    while index < candidates.len()
        invariant
            index <= candidates.len(),
            model == candidates.deep_view(),
            result.len() == index,
            forall|i: int|
                0 <= i < index ==> (#[trigger] result[i]).deep_view() == decided(model[i], ids.deep_view()),
        decreases candidates.len() - index,
    {
        assert(model[index as int] == candidates[index as int].deep_view());
        let mut candidate: ClipCandidate = candidates[index].duplicate();
        if is_listed(ids, candidate.id.as_str()) {
            candidate.status = CandidateStatus::Accepted;
        } else if candidate.status == CandidateStatus::Accepted {
            candidate.status = CandidateStatus::Proposed;
        }
        result.push(candidate);
        index += 1;
    }
    assert(result.deep_view() =~= all_decided(model, ids.deep_view()));
    result
}

// ---------------------------------------------------------------------------------------------
// Where each scene stands
// ---------------------------------------------------------------------------------------------
/// What a timeline is planned from.
struct Planning<'a> {
    selected: Vec<ClipCandidate>,
    sources: &'a Vec<SourceAsset>,
    segments: &'a Vec<TranscriptSegment>,
    frame_rate: RationalFrameRate,
    gap_us: Microseconds,
    style_id: &'a String,
}

/// What a timeline is planned from, as mathematical values.
pub struct PlanningModel {
    pub selected: Seq<ClipCandidateModel>,
    pub sources: Seq<SourceAssetModel>,
    pub segments: Seq<TranscriptSegmentModel>,
    pub frame_rate: RationalFrameRate,
    pub gap_us: Microseconds,
    pub style_id: Seq<char>,
}

impl<'a> DeepView for Planning<'a> {
    type V = PlanningModel;

    closed spec fn deep_view(&self) -> PlanningModel {
        PlanningModel {
            selected: self.selected.deep_view(),
            sources: self.sources.deep_view(),
            segments: self.segments.deep_view(),
            frame_rate: self.frame_rate,
            gap_us: self.gap_us,
            style_id: self.style_id@,
        }
    }
}

impl PlanningModel {
    pub open spec fn source(self, index: int) -> Option<SourceAssetModel> {
        find::<SourceAsset>(self.sources, self.selected[index].source_asset_id)
    }

    /// Where the scene is cut from its source: its range widened to frames, and no further than the
    /// source goes.
    pub open spec fn cut_start(self, index: int) -> int {
        outward_start(self.selected[index].source_range, self.frame_rate)
    }

    pub open spec fn cut_end(self, index: int) -> int {
        let wide = outward_end(self.selected[index].source_range, self.frame_rate);
        let end = self.source(index)->0.probe.duration_us.0 as int;
        if wide < end {
            wide
        } else {
            end
        }
    }

    pub open spec fn cut(self, index: int) -> TimeRange {
        range_between(self.cut_start(index), self.cut_end(index))
    }

    pub open spec fn length(self, index: int) -> int {
        self.cut_end(index) - self.cut_start(index)
    }

    /// Where the scene starts on the timeline: after the scene before it and the gap between them.
    pub open spec fn starts_at(self, index: int) -> int
        decreases index,
    {
        if index <= 0 {
            0
        } else {
            self.starts_at(index - 1) + self.length(index - 1) + self.gap_us.0
        }
    }

    pub open spec fn ends_at(self, index: int) -> int {
        self.starts_at(index) + self.length(index)
    }

    pub open spec fn scene_id(self, index: int) -> Seq<char> {
        "scene-"@ + padded((index + 1) as nat, 3) + "-"@ + sha256_hex(
            encode_utf8(self.selected[index].id),
        ).take(8)
    }

    /// The texts of the suggestion's segments, from one on.
    pub open spec fn texts_from(self, ids: Seq<Seq<char>>, index: int) -> Seq<Seq<char>>
        decreases ids.len() - index,
    {
        if index < 0 || index >= ids.len() {
            Seq::empty()
        } else {
            match find::<TranscriptSegment>(self.segments, ids[index]) {
                Some(segment) => seq![segment.text] + self.texts_from(ids, index + 1),
                None => self.texts_from(ids, index + 1),
            }
        }
    }

    pub open spec fn script(self, index: int) -> Seq<char> {
        let texts = self.texts_from(self.selected[index].transcript_segment_ids, 0);
        joined(texts, " "@, texts.len() as int)
    }

    pub open spec fn scene(self, index: int) -> ReviewedSceneModel {
        let candidate = self.selected[index];
        ReviewedSceneModel {
            id: self.scene_id(index),
            candidate_id: Some(candidate.id),
            source_asset_id: Some(candidate.source_asset_id),
            source_range: Some(self.cut(index)),
            timeline_start_us: Microseconds(self.starts_at(index) as i64),
            timeline_duration_us: Microseconds(self.length(index) as i64),
            title: candidate.title,
            script: self.script(index),
            review_state: ReviewState::NeedsReview,
            revision: 1,
        }
    }

    pub open spec fn clip(self, index: int, name: Seq<char>) -> TimelineClipModel {
        TimelineClipModel {
            id: "clip-"@ + name + "-"@ + padded((index + 1) as nat, 3),
            scene_id: Some(self.scene_id(index)),
            turn_id: None,
            media: MediaReferenceModel {
                source_asset_id: Some(self.selected[index].source_asset_id),
                render_artifact_id: None,
            },
            source_range: self.cut(index),
            timeline_start_us: Microseconds(self.starts_at(index) as i64),
            timeline_duration_us: Microseconds(self.length(index) as i64),
            playback_rate: RationalRate { numerator: 1, denominator: 1 },
            gain_db_milli: 0,
            muted: false,
            crop: None,
        }
    }

    /// Whether the scene's source has pictures, or sound.
    pub open spec fn plays(self, index: int, kind: TrackKind) -> bool {
        let probe = self.source(index)->0.probe;
        self.source(index) is Some && if kind == TrackKind::Video {
            probe.has_video
        } else {
            probe.has_audio
        }
    }

    /// Whether the plan has a track of the kind: some scene plays on it.
    pub open spec fn has_track(self, kind: TrackKind) -> bool {
        exists|i: int| 0 <= i < self.selected.len() && #[trigger] self.plays(i, kind)
    }

    pub open spec fn clips_from(self, index: int, kind: TrackKind, name: Seq<char>) -> Seq<TimelineClipModel>
        decreases self.selected.len() - index,
    {
        if index < 0 || index >= self.selected.len() {
            Seq::empty()
        } else if self.plays(index, kind) {
            seq![self.clip(index, name)] + self.clips_from(index + 1, kind, name)
        } else {
            self.clips_from(index + 1, kind, name)
        }
    }

    /// The gap that a scene leaves on a track of the plan that it does not play on.
    pub open spec fn silence(self, index: int, kind: TrackKind, name: Seq<char>, lead: Seq<char>) -> Seq<TimelineGapModel> {
        if !self.plays(index, kind) && self.has_track(kind) {
            seq![gap_of(lead, index, name, self.starts_at(index), self.ends_at(index), GapReason::Padding)]
        } else {
            Seq::empty()
        }
    }

    /// The gap on a track of the plan between a scene and the next.
    pub open spec fn pause(
        self,
        index: int,
        kind: TrackKind,
        name: Seq<char>,
        lead: Seq<char>,
        reason: GapReason,
    ) -> Seq<TimelineGapModel> {
        if index + 1 < self.selected.len() && self.gap_us.0 > 0 && self.has_track(kind) {
            seq![
                gap_of(
                    lead,
                    index,
                    name,
                    self.ends_at(index),
                    self.ends_at(index) + self.gap_us.0,
                    reason,
                ),
            ]
        } else {
            Seq::empty()
        }
    }

    pub open spec fn gaps_of(self, index: int) -> Seq<TimelineGapModel> {
        self.silence(index, TrackKind::Video, "video"@, "gap-video-scene-"@) + self.silence(
            index,
            TrackKind::Audio,
            "audio"@,
            "gap-audio-scene-"@,
        ) + self.pause(
            index,
            TrackKind::Video,
            "video"@,
            "gap-video-transition-"@,
            GapReason::Transition,
        ) + self.pause(index, TrackKind::Audio, "audio"@, "gap-audio-transition-"@, GapReason::Editorial)
    }

    pub open spec fn gaps_from(self, index: int) -> Seq<TimelineGapModel>
        decreases self.selected.len() - index,
    {
        if index < 0 || index >= self.selected.len() {
            Seq::empty()
        } else {
            self.gaps_of(index) + self.gaps_from(index + 1)
        }
    }

    /// The part of a segment that lies in the scene's cut.
    pub open spec fn heard_start(self, index: int, segment: TranscriptSegmentModel) -> int {
        if segment.range.start() < self.cut_start(index) {
            self.cut_start(index)
        } else {
            segment.range.start()
        }
    }

    pub open spec fn heard_end(self, index: int, segment: TranscriptSegmentModel) -> int {
        if segment.range.end() < self.cut_end(index) {
            segment.range.end()
        } else {
            self.cut_end(index)
        }
    }

    /// The caption of a segment in a scene, moved from the source's clock to the timeline's.
    pub open spec fn caption(self, index: int, segment: TranscriptSegmentModel, number: int) -> CaptionCueModel {
        let shift = self.starts_at(index) - self.cut_start(index);
        CaptionCueModel {
            id: "caption-"@ + padded((index + 1) as nat, 3) + "-"@ + padded(number as nat, 6),
            range: range_between(self.heard_start(index, segment) + shift, self.heard_end(index, segment) + shift),
            text: segment.text,
            style_id: self.style_id,
            speaker_id: segment.speaker_id,
            transcript_segment_id: Some(segment.id),
            scene_id: Some(self.scene_id(index)),
        }
    }

    /// Captions followed by those of the scene's segments, from one on.
    pub open spec fn with_captions(self, captions: Seq<CaptionCueModel>, index: int, place: int) -> Seq<CaptionCueModel>
        decreases self.selected[index].transcript_segment_ids.len() - place,
    {
        let ids = self.selected[index].transcript_segment_ids;
        if place < 0 || place >= ids.len() {
            captions
        } else {
            match find::<TranscriptSegment>(self.segments, ids[place]) {
                Some(segment) => if self.heard_start(index, segment) < self.heard_end(index, segment) {
                    self.with_captions(
                        captions.push(self.caption(index, segment, captions.len() as int + 1)),
                        index,
                        place + 1,
                    )
                } else {
                    self.with_captions(captions, index, place + 1)
                },
                None => self.with_captions(captions, index, place + 1),
            }
        }
    }

    /// The captions of the first scenes.
    pub open spec fn captions_before(self, index: int) -> Seq<CaptionCueModel>
        decreases index,
    {
        if index <= 0 {
            Seq::empty()
        } else {
            self.with_captions(self.captions_before(index - 1), index - 1, 0)
        }
    }

    /// Why a scene cannot be placed.
    pub open spec fn scene_fault(self, index: int) -> Option<Fault> {
        or_else(
            unless(
                self.source(index) is Some,
                fault(
                    VideoErrorCode::MissingReference,
                    "selected candidate references a missing source asset"@,
                ),
            ),
            or_else(
                quantize_fault(self.selected[index].source_range, self.frame_rate),
                or_else(
                    range_fault(self.cut_start(index), self.cut_end(index)),
                    or_else(
                        unless(on_clock(self.ends_at(index)), addition_fault()),
                        unless(
                            index + 1 >= self.selected.len() || on_clock(self.ends_at(index) + self.gap_us.0),
                            addition_fault(),
                        ),
                    ),
                ),
            ),
        )
    }

    pub open spec fn scenes_fault_from(self, index: int) -> Option<Fault>
        decreases self.selected.len() - index,
    {
        if index < 0 || index >= self.selected.len() {
            None
        } else {
            or_else(self.scene_fault(index), self.scenes_fault_from(index + 1))
        }
    }

    pub open spec fn scenes(self) -> Seq<ReviewedSceneModel> {
        Seq::new(self.selected.len(), |i: int| self.scene(i))
    }

    pub open spec fn track(self, kind: TrackKind, name: Seq<char>) -> Seq<TimelineTrackModel> {
        let clips = self.clips_from(0, kind, name);
        if clips.len() > 0 {
            seq![TimelineTrackModel { id: name + "-main"@, kind, clips, preserve_gaps: true }]
        } else {
            Seq::empty()
        }
    }

    pub open spec fn mix(self) -> Seq<AudioMixTrackModel> {
        if self.clips_from(0, TrackKind::Audio, "audio"@).len() > 0 {
            seq![AudioMixTrackModel { track_id: "audio"@ + "-main"@, gain_db_milli: 0, pan_milli: 0, ducking: None }]
        } else {
            Seq::empty()
        }
    }
}

/// A gap on a track, numbered by the scene.
pub open spec fn gap_of(
    lead: Seq<char>,
    index: int,
    name: Seq<char>,
    start: int,
    end: int,
    reason: GapReason,
) -> TimelineGapModel {
    TimelineGapModel {
        id: lead + padded((index + 1) as nat, 3),
        track_id: name + "-main"@,
        range: range_between(start, end),
        reason,
        source_asset_id: None,
        source_range: None,
    }
}


fn append_all<T: DeepView>(target: &mut Vec<T>, more: Vec<T>)
    ensures
        final(target).deep_view() == old(target).deep_view() + more.deep_view(),
{
    let mut rest: Vec<T> = more;
    target.append(&mut rest);
    assert(target.deep_view() =~= old(target).deep_view() + more.deep_view());
}

/// Adds a caption whose identifier ends with its number among the captions.
fn push_numbered(captions: &mut Vec<CaptionCue>, cue: CaptionCue)
    ensures
        final(captions).deep_view() == old(captions).deep_view().push(
            CaptionCueModel {
                id: cue.id@ + padded(old(captions).deep_view().len() + 1, 6),
                ..cue.deep_view()
            },
        ),
{
    let ghost before = captions.deep_view();
    let ghost model = cue.deep_view();
    captions.push(cue);
    let number: String = padded_text(captions.len() as u64, 6);
    if let Some(mut last) = captions.pop() {
        last.id.append(number.as_str());
        captions.push(last);
    }
    assert(captions.deep_view() =~= before.push(
        CaptionCueModel { id: model.id + padded(before.len() + 1, 6), ..model },
    ));
}

fn make_gap(lead: &str, index: usize, name: &str, range: TimeRange, reason: GapReason) -> (gap: TimelineGap)
    requires
        index < 100,
    ensures
        gap.deep_view() == gap_of(lead@, index as int, name@, range.start(), range.end(), reason),
{
    let number: String = padded_text(index as u64 + 1, 3);
    TimelineGap {
        id: text_concat(lead, number.as_str()),
        track_id: text_concat(name, "-main"),
        range,
        reason,
        source_asset_id: None,
        source_range: None,
    }
}

impl<'a> Planning<'a> {
    fn plays(&self, index: usize, kind: TrackKind) -> (result: bool)
        requires
            index < self.selected.len(),
        ensures
            result == self.deep_view().plays(index as int, kind),
    {
        assert(self.deep_view().selected[index as int] == self.selected[index as int].deep_view());
        match find_named(self.sources, self.selected[index].source_asset_id.as_str()) {
            Some(source) => if kind == TrackKind::Video {
                source.probe.has_video
            } else {
                source.probe.has_audio
            },
            None => false,
        }
    }

    fn has_track(&self, kind: TrackKind) -> (result: bool)
        ensures
            result == self.deep_view().has_track(kind),
    {
        let ghost plan = self.deep_view();
        let mut index: usize = 0;
        while index < self.selected.len()
            invariant
                index <= self.selected.len(),
                plan == self.deep_view(),
                forall|i: int| 0 <= i < index ==> !#[trigger] plan.plays(i, kind),
            decreases self.selected.len() - index,
        {
            if self.plays(index, kind) {
                assert(plan.selected.len() == self.selected.len());
                return true;
            }
            index += 1;
        }
        assert(plan.selected.len() == self.selected.len());
        false
    }

    /// Cuts the scene from its source.
    fn cut(&self, index: usize) -> (result: VideoResult<TimeRange>)
        requires
            index < self.selected.len(),
        ensures
            refusal(result) == {
                let plan = self.deep_view();
                or_else(
                    unless(
                        plan.source(index as int) is Some,
                        fault(
                            VideoErrorCode::MissingReference,
                            "selected candidate references a missing source asset"@,
                        ),
                    ),
                    or_else(
                        quantize_fault(plan.selected[index as int].source_range, plan.frame_rate),
                        range_fault(plan.cut_start(index as int), plan.cut_end(index as int)),
                    ),
                )
            },
            result matches Ok(range) ==> range == self.deep_view().cut(index as int) && range.valid() && range.start()
                == self.deep_view().cut_start(index as int) && range.end() == self.deep_view().cut_end(index as int),
    {
        let ghost plan = self.deep_view();
        let candidate: &ClipCandidate = &self.selected[index];
        assert(plan.selected[index as int] == candidate.deep_view());
        match find_named(self.sources, candidate.source_asset_id.as_str()) {
            Some(source) => {
                let wide: TimeRange = quantize_range_outward(candidate.source_range, self.frame_rate)?;
                let start: Microseconds = wide.start_us.later(Microseconds(0));
                let end: Microseconds = wide.end_us.earlier(source.probe.duration_us);
                TimeRange::new(start.0, end.0)
            },
            None => Err(
                VideoError::new(
                    VideoErrorCode::MissingReference,
                    "selected candidate references a missing source asset",
                ),
            ),
        }
    }

    fn scene_id(&self, index: usize) -> (id: String)
        requires
            index < self.selected.len() <= 100,
        ensures
            id@ == self.deep_view().scene_id(index as int),
    {
        assert(self.deep_view().selected[index as int] == self.selected[index as int].deep_view());
        let digest: String = sha256_hex_text(self.selected[index].id.as_str().as_bytes());
        let digits: Vec<char> = chars_of(digest.as_str());
        let suffix: String = text_of(&digits, 0, 8);
        assert(suffix@ =~= digest@.take(8));
        let number: String = padded_text(index as u64 + 1, 3);
        let mut id: String = text_concat3("scene-", number.as_str(), "-");
        id.append(suffix.as_str());
        id
    }

    fn script(&self, index: usize) -> (script: String)
        requires
            index < self.selected.len(),
        ensures
            script@ == self.deep_view().script(index as int),
    {
        let ghost plan = self.deep_view();
        assert(plan.selected[index as int] == self.selected[index as int].deep_view());
        let ids: &Vec<String> = &self.selected[index].transcript_segment_ids;
        let ghost model = ids.deep_view();
        let ghost whole = plan.texts_from(model, 0);
        let mut texts: Vec<String> = Vec::new();
        let mut place: usize = 0;
        assert(texts.deep_view() + whole =~= whole);
        while place < ids.len()
            invariant
                place <= ids.len(),
                plan == self.deep_view(),
                model == ids.deep_view(),
                texts.deep_view() + plan.texts_from(model, place as int) == whole,
            decreases ids.len() - place,
        {
            assert(model[place as int] == ids[place as int]@);
            let ghost before = texts.deep_view();
            let ghost rest = plan.texts_from(model, place + 1);
            if let Some(segment) = find_named(self.segments, ids[place].as_str()) {
                texts.push(segment.text.clone());
                assert(texts.deep_view() =~= before.push(segment.text@));
                assert(texts.deep_view() + rest =~= before + (seq![segment.text@] + rest));
            }
            place += 1;
        }
        assert(texts.deep_view() =~= whole);
        assert(texts.deep_view().len() == texts.len());
        join_first(&texts, " ", texts.len())
    }

    fn make_clip(&self, index: usize, name: &str, start: Microseconds, cut: TimeRange, scene_id: &String) -> (clip:
        TimelineClip)
        requires
            index < self.selected.len() <= 100,
            cut.valid(),
            cut == self.deep_view().cut(index as int),
            cut.start() == self.deep_view().cut_start(index as int),
            cut.end() == self.deep_view().cut_end(index as int),
            start.0 == self.deep_view().starts_at(index as int),
            scene_id@ == self.deep_view().scene_id(index as int),
        ensures
            clip.deep_view() == self.deep_view().clip(index as int, name@),
    {
        assert(self.deep_view().selected[index as int] == self.selected[index as int].deep_view());
        let number: String = padded_text(index as u64 + 1, 3);
        let mut id: String = text_concat3("clip-", name, "-");
        id.append(number.as_str());
        TimelineClip {
            id,
            scene_id: Some(scene_id.clone()),
            turn_id: None,
            media: MediaReference {
                source_asset_id: Some(self.selected[index].source_asset_id.clone()),
                render_artifact_id: None,
            },
            source_range: cut,
            timeline_start_us: start,
            timeline_duration_us: Microseconds(cut.end_us.0 - cut.start_us.0),
            playback_rate: RationalRate::one(),
            gain_db_milli: 0,
            muted: false,
            crop: None,
        }
    }

    fn make_scene(&self, index: usize, start: Microseconds, cut: TimeRange, scene_id: &String) -> (scene: ReviewedScene)
        requires
            index < self.selected.len() <= 100,
            cut.valid(),
            cut == self.deep_view().cut(index as int),
            cut.start() == self.deep_view().cut_start(index as int),
            cut.end() == self.deep_view().cut_end(index as int),
            start.0 == self.deep_view().starts_at(index as int),
            scene_id@ == self.deep_view().scene_id(index as int),
        ensures
            scene.deep_view() == self.deep_view().scene(index as int),
    {
        assert(self.deep_view().selected[index as int] == self.selected[index as int].deep_view());
        let candidate: &ClipCandidate = &self.selected[index];
        ReviewedScene {
            id: scene_id.clone(),
            candidate_id: Some(candidate.id.clone()),
            source_asset_id: Some(candidate.source_asset_id.clone()),
            source_range: Some(cut),
            timeline_start_us: start,
            timeline_duration_us: Microseconds(cut.end_us.0 - cut.start_us.0),
            title: candidate.title.clone(),
            script: self.script(index),
            review_state: ReviewState::NeedsReview,
            revision: 1,
        }
    }

    fn add_captions(
        &self,
        captions: &mut Vec<CaptionCue>,
        index: usize,
        start: Microseconds,
        cut: TimeRange,
        scene_id: &String,
    )
        requires
            index < self.selected.len() <= 100,
            cut.valid(),
            cut.start() == self.deep_view().cut_start(index as int),
            cut.end() == self.deep_view().cut_end(index as int),
            start.0 >= 0,
            start.0 == self.deep_view().starts_at(index as int),
            on_clock(self.deep_view().ends_at(index as int)),
            scene_id@ == self.deep_view().scene_id(index as int),
        ensures
            final(captions).deep_view() == self.deep_view().with_captions(
                old(captions).deep_view(),
                index as int,
                0,
            ),
    {
        let ghost plan = self.deep_view();
        assert(plan.selected[index as int] == self.selected[index as int].deep_view());
        let ids: &Vec<String> = &self.selected[index].transcript_segment_ids;
        let ghost model = ids.deep_view();
        let ghost whole = plan.with_captions(captions.deep_view(), index as int, 0);
        let scene_number: String = padded_text(index as u64 + 1, 3);
        let mut place: usize = 0;
        while place < ids.len()
            invariant
                place <= ids.len(),
                plan == self.deep_view(),
                model == ids.deep_view(),
                model == plan.selected[index as int].transcript_segment_ids,
                cut.valid(),
                cut.start() == plan.cut_start(index as int),
                cut.end() == plan.cut_end(index as int),
                start.0 >= 0,
                start.0 == plan.starts_at(index as int),
                on_clock(plan.ends_at(index as int)),
                scene_id@ == plan.scene_id(index as int),
                scene_number@ == padded((index + 1) as nat, 3),
                plan.with_captions(captions.deep_view(), index as int, place as int) == whole,
            decreases ids.len() - place,
        {
            assert(model[place as int] == ids[place as int]@);
            if let Some(segment) = find_named(self.segments, ids[place].as_str()) {
                let from: i64 = if segment.range.start_us.0 < cut.start_us.0 {
                    cut.start_us.0
                } else {
                    segment.range.start_us.0
                };
                let to: i64 = if segment.range.end_us.0 < cut.end_us.0 {
                    segment.range.end_us.0
                } else {
                    cut.end_us.0
                };
                if from < to {
                    let id: String = text_concat3("caption-", scene_number.as_str(), "-");
                    let cue = CaptionCue {
                        id,
                        range: TimeRange {
                            start_us: Microseconds(start.0 + (from - cut.start_us.0)),
                            end_us: Microseconds(start.0 + (to - cut.start_us.0)),
                        },
                        text: segment.text.clone(),
                        style_id: self.style_id.clone(),
                        speaker_id: segment.speaker_id.duplicate(),
                        transcript_segment_id: Some(segment.id.clone()),
                        scene_id: Some(scene_id.clone()),
                    };
                    let ghost before = captions.deep_view();
                    push_numbered(captions, cue);
                    assert(captions.deep_view() == before.push(
                        plan.caption(index as int, segment.deep_view(), before.len() as int + 1),
                    ));
                }
            }
            place += 1;
        }
    }

    fn make_gaps(
        &self,
        index: usize,
        start: Microseconds,
        end: Microseconds,
        has_video: bool,
        has_audio: bool,
    ) -> (result: VideoResult<Vec<TimelineGap>>)
        requires
            index < self.selected.len() <= 100,
            0 <= start.0 < end.0,
            self.gap_us.0 >= 0,
            start.0 == self.deep_view().starts_at(index as int),
            end.0 == self.deep_view().ends_at(index as int),
            has_video == self.deep_view().has_track(TrackKind::Video),
            has_audio == self.deep_view().has_track(TrackKind::Audio),
        ensures
            refusal(result) == unless(
                index + 1 >= self.deep_view().selected.len() || on_clock(
                    self.deep_view().ends_at(index as int) + self.deep_view().gap_us.0,
                ),
                addition_fault(),
            ),
            result matches Ok(gaps) ==> gaps.deep_view() == self.deep_view().gaps_of(index as int),
    {
        let ghost plan = self.deep_view();
        assert(plan.selected.len() == self.selected.len());
        let scene = TimeRange { start_us: start, end_us: end };
        let mut gaps: Vec<TimelineGap> = Vec::new();
        assert(gaps.deep_view() =~= Seq::empty());
        if !self.plays(index, TrackKind::Video) && has_video {
            gaps.push(make_gap("gap-video-scene-", index, "video", scene, GapReason::Padding));
        }
        if !self.plays(index, TrackKind::Audio) && has_audio {
            gaps.push(make_gap("gap-audio-scene-", index, "audio", scene, GapReason::Padding));
        }
        if index + 1 < self.selected.len() && self.gap_us.0 > 0 {
            let gap_end: Microseconds = end.checked_add(self.gap_us)?;
            let pause = TimeRange { start_us: end, end_us: gap_end };
            if has_video {
                gaps.push(make_gap("gap-video-transition-", index, "video", pause, GapReason::Transition));
            }
            if has_audio {
                gaps.push(make_gap("gap-audio-transition-", index, "audio", pause, GapReason::Editorial));
            }
        }
        assert(gaps.deep_view() =~= plan.gaps_of(index as int));
        Ok(gaps)
    }
}

// ---------------------------------------------------------------------------------------------
// The plan
// ---------------------------------------------------------------------------------------------
/// What a timeline of a project is planned from.
pub open spec fn planning_of(m: VideoProjectManifestModel, request: ScenePlanRequestModel) -> PlanningModel {
    PlanningModel {
        selected: selection(m.candidates, request.selected_candidate_ids),
        sources: m.source_assets,
        segments: m.transcript->0.segments,
        frame_rate: m.frame_rate,
        gap_us: request.inter_scene_gap_us,
        style_id: request.caption_style_id,
    }
}

/// The timeline that a selection makes of a project.
pub open spec fn plan_of(m: VideoProjectManifestModel, request: ScenePlanRequestModel) -> ScenePlanModel {
    let planning = planning_of(m, request);
    ScenePlanModel {
        timeline_duration_us: Microseconds(planning.ends_at(planning.selected.len() - 1) as i64),
        candidates: all_decided(m.candidates, request.selected_candidate_ids),
        reviewed_scenes: planning.scenes(),
        tracks: planning.track(TrackKind::Video, "video"@) + planning.track(TrackKind::Audio, "audio"@),
        gaps: planning.gaps_from(0),
        captions: planning.captions_before(planning.selected.len() as int),
        audio_mix: AudioMixModel {
            target_lufs_milli: m.audio_mix.target_lufs_milli,
            true_peak_db_milli: m.audio_mix.true_peak_db_milli,
            tracks: planning.mix(),
        },
    }
}

/// A project with a planned timeline in place of its own.
pub open spec fn with_plan(m: VideoProjectManifestModel, plan: ScenePlanModel) -> VideoProjectManifestModel {
    VideoProjectManifestModel {
        timeline_duration_us: plan.timeline_duration_us,
        candidates: plan.candidates,
        reviewed_scenes: plan.reviewed_scenes,
        tracks: plan.tracks,
        gaps: plan.gaps,
        captions: plan.captions,
        audio_mix: plan.audio_mix,
        ..m
    }
}

/// Why no timeline can be planned.
pub open spec fn plan_fault(m: VideoProjectManifestModel, request: ScenePlanRequestModel) -> Option<Fault> {
    or_else(
        VideoProjectManifest::fault_of(m),
        or_else(
            request_fault(request),
            or_else(
                unless(
                    m.transcript is Some,
                    fault(
                        VideoErrorCode::InvalidTranscript,
                        "analysis must produce a transcript before scene planning"@,
                    ),
                ),
                or_else(
                    selection_fault_from(m.candidates, request.selected_candidate_ids, 0),
                    or_else(
                        planning_of(m, request).scenes_fault_from(0),
                        VideoProjectManifest::fault_of(with_plan(m, plan_of(m, request))),
                    ),
                ),
            ),
        ),
    )
}

/// The scenes, clips, gaps and captions of a plan, and where it ends.
struct Layout {
    scenes: Vec<ReviewedScene>,
    video_clips: Vec<TimelineClip>,
    audio_clips: Vec<TimelineClip>,
    gaps: Vec<TimelineGap>,
    captions: Vec<CaptionCue>,
    end: Microseconds,
}

impl<'a> Planning<'a> {
    fn lay_out(&self) -> (result: VideoResult<Layout>)
        requires
            1 <= self.selected.len() <= 100,
            self.gap_us.0 >= 0,
        ensures
            refusal(result) == self.deep_view().scenes_fault_from(0),
            result matches Ok(layout) ==> {
                let plan = self.deep_view();
                &&& layout.scenes.deep_view() == plan.scenes()
                &&& layout.video_clips.deep_view() == plan.clips_from(0, TrackKind::Video, "video"@)
                &&& layout.audio_clips.deep_view() == plan.clips_from(0, TrackKind::Audio, "audio"@)
                &&& layout.gaps.deep_view() == plan.gaps_from(0)
                &&& layout.captions.deep_view() == plan.captions_before(plan.selected.len() as int)
                &&& layout.end.0 == plan.ends_at(plan.selected.len() - 1)
            },
    {
        let ghost plan = self.deep_view();
        assert(plan.selected.len() == self.selected.len());
        let has_video: bool = self.has_track(TrackKind::Video);
        let has_audio: bool = self.has_track(TrackKind::Audio);
        let mut scenes: Vec<ReviewedScene> = Vec::new();
        let mut video_clips: Vec<TimelineClip> = Vec::new();
        let mut audio_clips: Vec<TimelineClip> = Vec::new();
        let mut gaps: Vec<TimelineGap> = Vec::new();
        let mut captions: Vec<CaptionCue> = Vec::new();
        let mut cursor: Microseconds = Microseconds(0);
        let mut index: usize = 0;
        let ghost all_video = plan.clips_from(0, TrackKind::Video, "video"@);
        let ghost all_audio = plan.clips_from(0, TrackKind::Audio, "audio"@);
        let ghost all_gaps = plan.gaps_from(0);
        assert(video_clips.deep_view() + all_video =~= all_video);
        assert(audio_clips.deep_view() + all_audio =~= all_audio);
        assert(gaps.deep_view() + all_gaps =~= all_gaps);
        assert(captions.deep_view() =~= plan.captions_before(0));
        while index < self.selected.len()
            invariant
                index <= self.selected.len() <= 100,
                plan == self.deep_view(),
                plan.selected.len() == self.selected.len(),
                self.gap_us.0 >= 0,
                has_video == plan.has_track(TrackKind::Video),
                has_audio == plan.has_track(TrackKind::Audio),
                0 <= cursor.0,
                index < self.selected.len() ==> cursor.0 == plan.starts_at(index as int),
                index == self.selected.len() && index > 0 ==> cursor.0 == plan.ends_at(index - 1),
                scenes.len() == index,
                forall|i: int| 0 <= i < index ==> (#[trigger] scenes[i]).deep_view() == plan.scene(i),
                video_clips.deep_view() + plan.clips_from(index as int, TrackKind::Video, "video"@) == all_video,
                audio_clips.deep_view() + plan.clips_from(index as int, TrackKind::Audio, "audio"@) == all_audio,
                gaps.deep_view() + plan.gaps_from(index as int) == all_gaps,
                captions.deep_view() == plan.captions_before(index as int),
                plan.scenes_fault_from(0) == plan.scenes_fault_from(index as int),
            decreases self.selected.len() - index,
        {
            let cut: TimeRange = self.cut(index)?;
            let length: Microseconds = cut.duration()?;
            let scene_id: String = self.scene_id(index);
            let end: Microseconds = cursor.checked_add(length)?;
            let scene_gaps: Vec<TimelineGap> = self.make_gaps(index, cursor, end, has_video, has_audio)?;
            scenes.push(self.make_scene(index, cursor, cut, &scene_id));
            if self.plays(index, TrackKind::Video) {
                let ghost before = video_clips.deep_view();
                let ghost own = plan.clip(index as int, "video"@);
                let ghost rest = plan.clips_from(index + 1, TrackKind::Video, "video"@);
                video_clips.push(self.make_clip(index, "video", cursor, cut, &scene_id));
                assert(video_clips.deep_view() =~= before.push(own));
                assert(video_clips.deep_view() + rest =~= before + (seq![own] + rest));
            }
            if self.plays(index, TrackKind::Audio) {
                let ghost before = audio_clips.deep_view();
                let ghost own = plan.clip(index as int, "audio"@);
                let ghost rest = plan.clips_from(index + 1, TrackKind::Audio, "audio"@);
                audio_clips.push(self.make_clip(index, "audio", cursor, cut, &scene_id));
                assert(audio_clips.deep_view() =~= before.push(own));
                assert(audio_clips.deep_view() + rest =~= before + (seq![own] + rest));
            }
            let ghost gaps_before = gaps.deep_view();
            append_all(&mut gaps, scene_gaps);
            assert(gaps.deep_view() + plan.gaps_from(index + 1) =~= gaps_before + (plan.gaps_of(index as int)
                + plan.gaps_from(index + 1)));
            self.add_captions(&mut captions, index, cursor, cut, &scene_id);
            cursor = end;
            if index + 1 < self.selected.len() {
                cursor = cursor.checked_add(self.gap_us)?;
            }
            index += 1;
        }
        assert(scenes.deep_view() =~= plan.scenes());
        assert(video_clips.deep_view() =~= all_video);
        assert(audio_clips.deep_view() =~= all_audio);
        assert(gaps.deep_view() =~= all_gaps);
        Ok(Layout { scenes, video_clips, audio_clips, gaps, captions, end: cursor })
    }
}

fn make_track(kind: TrackKind, name: &str, clips: Vec<TimelineClip>) -> (tracks: Vec<TimelineTrack>)
    ensures
        tracks.deep_view() == if clips.deep_view().len() > 0 {
            seq![TimelineTrackModel { id: name@ + "-main"@, kind, clips: clips.deep_view(), preserve_gaps: true }]
        } else {
            Seq::empty()
        },
{
    let mut tracks: Vec<TimelineTrack> = Vec::new();
    assert(clips.deep_view().len() == clips.len());
    assert(tracks.deep_view() =~= Seq::empty());
    if clips.len() > 0 {
        tracks.push(TimelineTrack { id: text_concat(name, "-main"), kind, clips, preserve_gaps: true });
        assert(tracks.deep_view() =~= seq![tracks[0].deep_view()]);
    }
    tracks
}

/// Puts a planned timeline in place of a project's own.
fn put_plan(manifest: &mut VideoProjectManifest, plan: ScenePlan)
    ensures
        final(manifest).deep_view() == with_plan(old(manifest).deep_view(), plan.deep_view()),
{
    manifest.timeline_duration_us = plan.timeline_duration_us;
    manifest.candidates = plan.candidates;
    manifest.reviewed_scenes = plan.reviewed_scenes;
    manifest.tracks = plan.tracks;
    manifest.gaps = plan.gaps;
    manifest.captions = plan.captions;
    manifest.audio_mix = plan.audio_mix;
}

/// Checks that a project stays valid with a planned timeline.
fn validate_scene_plan(manifest: &VideoProjectManifest, plan: &ScenePlan) -> (result: VideoResult<()>)
    ensures
        refusal(result) == VideoProjectManifest::fault_of(with_plan(manifest.deep_view(), plan.deep_view())),
{
    let mut planned: VideoProjectManifest = manifest.duplicate();
    let copy = ScenePlan {
        timeline_duration_us: plan.timeline_duration_us,
        candidates: plan.candidates.duplicate(),
        reviewed_scenes: plan.reviewed_scenes.duplicate(),
        tracks: plan.tracks.duplicate(),
        gaps: plan.gaps.duplicate(),
        captions: plan.captions.duplicate(),
        audio_mix: plan.audio_mix.duplicate(),
    };
    put_plan(&mut planned, copy);
    planned.validate_strict()
}

/// Builds the exact reviewed timeline used by preview and final export. Selected source ranges are
/// expanded to frame boundaries where possible, while every transcript and caption timestamp is
/// mapped from the original source clock into its scene's timeline position.
///
/// Whether a track exists is a property of the whole plan, not of whichever source precedes a
/// boundary between scenes. Once a track exists, every scene and transition contributes either a clip
/// or an explicit gap.
pub fn plan_reviewed_timeline(manifest: &VideoProjectManifest, request: &ScenePlanRequest) -> (result: VideoResult<
    ScenePlan,
>)
    ensures
        refusal(result) == plan_fault(manifest.deep_view(), request.deep_view()),
        result matches Ok(plan) ==> plan.deep_view() == plan_of(manifest.deep_view(), request.deep_view()),
{
    manifest.validate_strict()?;
    check_request(request)?;
    match &manifest.transcript {
        Some(transcript) => {
            let ids: &Vec<String> = &request.selected_candidate_ids;
            let selected: Vec<ClipCandidate> = select(&manifest.candidates, ids)?;
            let planning = Planning {
                selected,
                sources: &manifest.source_assets,
                segments: &transcript.segments,
                frame_rate: manifest.frame_rate,
                gap_us: request.inter_scene_gap_us,
                style_id: &request.caption_style_id,
            };
            assert(planning.deep_view() == planning_of(manifest.deep_view(), request.deep_view()));
            assert(planning.deep_view().selected.len() == planning.selected.len());
            assert(ids.deep_view().len() == ids.len());
            let layout: Layout = planning.lay_out()?;
            let mut mix_tracks: Vec<AudioMixTrack> = Vec::new();
            assert(layout.audio_clips.deep_view().len() == layout.audio_clips.len());
            assert(mix_tracks.deep_view() =~= Seq::empty());
            if layout.audio_clips.len() > 0 {
                mix_tracks.push(
                    AudioMixTrack {
                        track_id: text_concat("audio", "-main"),
                        gain_db_milli: 0,
                        pan_milli: 0,
                        ducking: None,
                    },
                );
                assert(mix_tracks.deep_view() =~= seq![mix_tracks[0].deep_view()]);
            }
            let mut tracks: Vec<TimelineTrack> = make_track(TrackKind::Video, "video", layout.video_clips);
            append_all(&mut tracks, make_track(TrackKind::Audio, "audio", layout.audio_clips));
            let plan = ScenePlan {
                timeline_duration_us: layout.end,
                candidates: decide(&manifest.candidates, ids),
                reviewed_scenes: layout.scenes,
                tracks,
                gaps: layout.gaps,
                captions: layout.captions,
                audio_mix: AudioMix {
                    target_lufs_milli: manifest.audio_mix.target_lufs_milli,
                    true_peak_db_milli: manifest.audio_mix.true_peak_db_milli,
                    tracks: mix_tracks,
                },
            };
            assert(plan.deep_view() == plan_of(manifest.deep_view(), request.deep_view()));
            validate_scene_plan(manifest, &plan)?;
            Ok(plan)
        },
        None => Err(
            VideoError::new(
                VideoErrorCode::InvalidTranscript,
                "analysis must produce a transcript before scene planning",
            ),
        ),
    }
}

/// Applies a locally validated plan without touching unrelated source, rights, provenance or render
/// history. The plan stays in place even where the project is then refused; the caller remains
/// responsible for recording the durable revision.
pub fn apply_scene_plan(manifest: &mut VideoProjectManifest, plan: ScenePlan) -> (result: VideoResult<()>)
    ensures
        final(manifest).deep_view() == with_plan(old(manifest).deep_view(), plan.deep_view()),
        refusal(result) == VideoProjectManifest::fault_of(final(manifest).deep_view()),
{
    put_plan(manifest, plan);
    manifest.validate_strict()
}

proof fn lemma_scene_placed(planning: PlanningModel, from: int, index: int)
    requires
        0 <= from <= index < planning.selected.len(),
        planning.scenes_fault_from(from) is None,
    ensures
        planning.scene_fault(index) is None,
    decreases index - from,
{
    if from < index {
        lemma_scene_placed(planning, from + 1, index);
    }
}

proof fn lemma_starts(planning: PlanningModel, index: int)
    requires
        0 <= index < planning.selected.len(),
        planning.scenes_fault_from(0) is None,
        planning.gap_us.0 >= 0,
    ensures
        0 <= planning.starts_at(index) < planning.ends_at(index),
        on_clock(planning.ends_at(index)),
    decreases index,
{
    lemma_scene_placed(planning, 0, index);
    if index > 0 {
        lemma_starts(planning, index - 1);
    }
}

/// The scenes of a plan follow one another in the order of the selection: the first starts the
/// timeline, each next one starts as much after the end of the one before it as was asked for, and
/// the last ends the timeline.
pub proof fn planned_scenes_follow_one_another(m: VideoProjectManifestModel, request: ScenePlanRequestModel, index: int)
    requires
        plan_fault(m, request) is None,
        0 <= index < plan_of(m, request).reviewed_scenes.len(),
    ensures
        plan_of(m, request).reviewed_scenes.len() == request.selected_candidate_ids.len(),
        ({
            let plan = plan_of(m, request);
            let scene = plan.reviewed_scenes[index];
            let end = scene.timeline_start_us.0 + scene.timeline_duration_us.0;
            &&& scene.candidate_id == Some(planning_of(m, request).selected[index].id)
            &&& index == 0 ==> scene.timeline_start_us.0 == 0
            &&& index + 1 < plan.reviewed_scenes.len() ==> plan.reviewed_scenes[index + 1].timeline_start_us.0 == end
                + request.inter_scene_gap_us.0
            &&& index + 1 == plan.reviewed_scenes.len() ==> plan.timeline_duration_us.0 == end
        }),
{
    let planning = planning_of(m, request);
    lemma_starts(planning, index);
    if index + 1 < planning.selected.len() {
        lemma_starts(planning, index + 1);
    }
}

/// Whatever was planned can be applied: the project with the plan in place is valid, and what the
/// plan does not speak of is as it was.
pub proof fn a_plan_leaves_a_valid_project(m: VideoProjectManifestModel, request: ScenePlanRequestModel)
    requires
        plan_fault(m, request) is None,
    ensures
        VideoProjectManifest::fault_of(with_plan(m, plan_of(m, request))) is None,
        with_plan(m, plan_of(m, request)).source_assets == m.source_assets,
        with_plan(m, plan_of(m, request)).rights_confirmations == m.rights_confirmations,
        with_plan(m, plan_of(m, request)).transcript == m.transcript,
        with_plan(m, plan_of(m, request)).render_artifacts == m.render_artifacts,
        with_plan(m, plan_of(m, request)).revision_history == m.revision_history,
        with_plan(m, plan_of(m, request)).revision == m.revision,
{
}

/// A planned scene plays its suggestion: at the source's own speed, from the suggested source, all that was
/// suggested as far as the source goes, widened by less than a frame and a microsecond at each end.
pub proof fn planned_scenes_play_what_was_suggested(m: VideoProjectManifestModel, request: ScenePlanRequestModel, index: int)
    requires
        plan_fault(m, request) is None,
        0 <= index < request.selected_candidate_ids.len(),
    ensures
        ({
            let scene = plan_of(m, request).reviewed_scenes[index];
            let candidate = find::<ClipCandidate>(m.candidates, request.selected_candidate_ids[index])->0;
            let source = find::<SourceAsset>(m.source_assets, candidate.source_asset_id);
            let cut = scene.source_range->0;
            let end = source->0.probe.duration_us.0;
            let n = m.frame_rate.numerator as int;
            let unit = m.frame_rate.denominator * 1_000_000;
            &&& find::<ClipCandidate>(m.candidates, request.selected_candidate_ids[index]) is Some
            &&& candidate.id == request.selected_candidate_ids[index]
            &&& candidate.status != CandidateStatus::Rejected
            &&& source is Some
            &&& scene.candidate_id == Some(candidate.id)
            &&& scene.source_asset_id == Some(candidate.source_asset_id)
            &&& scene.title == candidate.title
            &&& scene.review_state == ReviewState::NeedsReview
            &&& scene.revision == 1
            &&& scene.source_range is Some
            &&& scene.timeline_duration_us.0 == cut.end_us.0 - cut.start_us.0
            &&& 0 <= cut.start_us.0 <= candidate.source_range.start_us.0
            &&& cut.start_us.0 < cut.end_us.0 <= end
            &&& cut.end_us.0 >= min(candidate.source_range.end_us.0 as int, end as int)
            &&& (candidate.source_range.start_us.0 - cut.start_us.0 - 1) * n < unit
            &&& (cut.end_us.0 - candidate.source_range.end_us.0 - 1) * n < unit
        }),
{
    let planning = planning_of(m, request);
    let candidate = planning.selected[index];
    lemma_selected(m.candidates, request.selected_candidate_ids, 0, index);
    what_is_found_bears_the_name::<ClipCandidate>(m.candidates, request.selected_candidate_ids[index]);
    lemma_scene_placed(planning, 0, index);
    lemma_starts(planning, index);
    quantized_range_encloses_the_range(candidate.source_range, m.frame_rate);
    let (first, last) = a_quantized_range_takes_in_no_frame_more(candidate.source_range, m.frame_rate);
    let n = m.frame_rate.numerator as int;
    let unit = m.frame_rate.denominator * 1_000_000;
    let cut_start = planning.cut_start(index);
    let wide = outward_end(candidate.source_range, m.frame_rate);
    let from = candidate.source_range.start() as int;
    let to = candidate.source_range.end() as int;
    assert((from - cut_start - 1) * n < unit) by (nonlinear_arith)
        requires
            from * n < (first + 1) * unit,
            first * unit < (cut_start + 1) * n,
    ;
    assert((wide - to - 1) * n < unit) by (nonlinear_arith)
        requires
            (last - 1) * unit < to * n,
            (wide - 1) * n < last * unit,
    ;
    let cut_end = planning.cut_end(index);
    assert((cut_end - to - 1) * n <= (wide - to - 1) * n) by (nonlinear_arith)
        requires
            cut_end <= wide,
            n > 0,
    ;
}

proof fn lemma_selected(candidates: Seq<ClipCandidateModel>, ids: Seq<Seq<char>>, from: int, index: int)
    requires
        0 <= from <= index < ids.len(),
        selection_fault_from(candidates, ids, from) is None,
    ensures
        selection_fault_at(candidates, ids, index) is None,
    decreases index - from,
{
    if from < index {
        lemma_selected(candidates, ids, from + 1, index);
    }
}

/// The captions of a plan are the segments that are heard in it, each once for every scene that it is heard in,
/// in the order in which they are suggested. A caption comes and goes with its words: both its ends are as far
/// into its scene as those of what is heard of the segment are into the scene's source.
pub proof fn planned_captions_come_and_go_with_their_words(
    m: VideoProjectManifestModel,
    request: ScenePlanRequestModel,
) -> (heard: Seq<(int, int)>)
    requires
        plan_fault(m, request) is None,
    ensures
        heard.len() == plan_of(m, request).captions.len(),
        forall|k: int|
            0 <= k < heard.len() ==> {
                let (scene_at, place) = #[trigger] heard[k];
                &&& 0 <= scene_at < request.selected_candidate_ids.len()
                &&& is_caption_of(m, request, plan_of(m, request).captions[k], scene_at, place)
            },
        forall|j: int, k: int|
            0 <= j < k < heard.len() ==> #[trigger] heard[j].0 < #[trigger] heard[k].0 || (heard[j].0 == heard[k].0
                && heard[j].1 < heard[k].1),
        forall|scene_at: int, place: int| #[trigger]
            is_heard(m, request, scene_at, place) ==> heard.contains((scene_at, place)),
{
    let planning = planning_of(m, request);
    let heard = lemma_captions_before(m, request, planning.selected.len() as int);
    assert forall|scene_at: int, place: int| #[trigger] is_heard(m, request, scene_at, place) implies heard.contains(
        (scene_at, place),
    ) by {
        assert(scene_at < planning.selected.len());
    }
    heard
}

/// Whether something is heard, in the scene of a suggestion, of the segment that it names at a place.
pub open spec fn is_heard(m: VideoProjectManifestModel, request: ScenePlanRequestModel, scene_at: int, place: int) -> bool {
    let ids = find::<ClipCandidate>(
        m.candidates,
        request.selected_candidate_ids[scene_at],
    )->0.transcript_segment_ids;
    let segment = find::<TranscriptSegment>(m.transcript->0.segments, ids[place]);
    let cut = plan_of(m, request).reviewed_scenes[scene_at].source_range->0;
    &&& 0 <= scene_at < request.selected_candidate_ids.len()
    &&& 0 <= place < ids.len()
    &&& segment is Some
    &&& max(segment->0.range.start_us.0 as int, cut.start_us.0 as int) < min(
        segment->0.range.end_us.0 as int,
        cut.end_us.0 as int,
    )
}

/// Whether a caption shows what is heard, in the scene of a suggestion, of the segment that it names at a place.
pub open spec fn is_caption_of(
    m: VideoProjectManifestModel,
    request: ScenePlanRequestModel,
    caption: CaptionCueModel,
    scene_at: int,
    place: int,
) -> bool {
    let ids = find::<ClipCandidate>(
        m.candidates,
        request.selected_candidate_ids[scene_at],
    )->0.transcript_segment_ids;
    let segment = find::<TranscriptSegment>(m.transcript->0.segments, ids[place])->0;
    let scene = plan_of(m, request).reviewed_scenes[scene_at];
    let cut = scene.source_range->0;
    &&& is_heard(m, request, scene_at, place)
    &&& caption.scene_id == Some(scene.id)
    &&& caption.transcript_segment_id == Some(segment.id)
    &&& caption.text == segment.text
    &&& caption.speaker_id == segment.speaker_id
    &&& caption.style_id == request.caption_style_id
    &&& caption.range.start_us.0 - scene.timeline_start_us.0 == max(
        segment.range.start_us.0 as int,
        cut.start_us.0 as int,
    ) - cut.start_us.0
    &&& caption.range.end_us.0 - scene.timeline_start_us.0 == min(
        segment.range.end_us.0 as int,
        cut.end_us.0 as int,
    ) - cut.start_us.0
}

/// A caption whose segment lies inside the cut is exactly as long as the segment, and shows within its scene.
pub proof fn a_whole_segment_keeps_its_length(
    m: VideoProjectManifestModel,
    request: ScenePlanRequestModel,
    caption: CaptionCueModel,
    scene_at: int,
    place: int,
)
    requires
        is_caption_of(m, request, caption, scene_at, place),
    ensures
        ({
            let ids = find::<ClipCandidate>(
                m.candidates,
                request.selected_candidate_ids[scene_at],
            )->0.transcript_segment_ids;
            let segment = find::<TranscriptSegment>(m.transcript->0.segments, ids[place])->0;
            let scene = plan_of(m, request).reviewed_scenes[scene_at];
            &&& scene.source_range->0.encloses(segment.range) ==> caption.range.end_us.0 - caption.range.start_us.0
                == segment.range.end_us.0 - segment.range.start_us.0
            &&& scene.timeline_start_us.0 <= caption.range.start_us.0 < caption.range.end_us.0
            &&& caption.range.end_us.0 - scene.timeline_start_us.0 <= scene.source_range->0.end_us.0
                - scene.source_range->0.start_us.0
        }),
{
}

proof fn lemma_captions_before(m: VideoProjectManifestModel, request: ScenePlanRequestModel, count: int) -> (heard: Seq<
    (int, int),
>)
    requires
        plan_fault(m, request) is None,
        0 <= count <= request.selected_candidate_ids.len(),
    ensures
        heard.len() == planning_of(m, request).captions_before(count).len(),
        forall|k: int|
            0 <= k < heard.len() ==> {
                let (scene_at, place) = #[trigger] heard[k];
                &&& 0 <= scene_at < count
                &&& is_caption_of(m, request, planning_of(m, request).captions_before(count)[k], scene_at, place)
            },
        forall|j: int, k: int|
            0 <= j < k < heard.len() ==> #[trigger] heard[j].0 < #[trigger] heard[k].0 || (heard[j].0 == heard[k].0
                && heard[j].1 < heard[k].1),
        forall|scene_at: int, place: int|
            scene_at < count && #[trigger] is_heard(m, request, scene_at, place) ==> heard.contains((scene_at, place)),
    decreases count,
{
    if count == 0 {
        Seq::empty()
    } else {
        let before = lemma_captions_before(m, request, count - 1);
        lemma_with_captions(m, request, planning_of(m, request).captions_before(count - 1), count - 1, 0, before)
    }
}

proof fn lemma_with_captions(
    m: VideoProjectManifestModel,
    request: ScenePlanRequestModel,
    captions: Seq<CaptionCueModel>,
    index: int,
    from: int,
    before: Seq<(int, int)>,
) -> (heard: Seq<(int, int)>)
    requires
        plan_fault(m, request) is None,
        0 <= index < request.selected_candidate_ids.len(),
        0 <= from <= planning_of(m, request).selected[index].transcript_segment_ids.len(),
        before.len() == captions.len(),
        forall|k: int|
            0 <= k < before.len() ==> {
                let (scene_at, place) = #[trigger] before[k];
                &&& 0 <= scene_at <= index
                &&& scene_at == index ==> place < from
                &&& is_caption_of(m, request, captions[k], scene_at, place)
            },
        forall|j: int, k: int|
            0 <= j < k < before.len() ==> #[trigger] before[j].0 < #[trigger] before[k].0 || (before[j].0
                == before[k].0 && before[j].1 < before[k].1),
        forall|scene_at: int, place: int|
            (scene_at < index || (scene_at == index && place < from)) && #[trigger] is_heard(
                m,
                request,
                scene_at,
                place,
            ) ==> before.contains((scene_at, place)),
    ensures
        heard.len() == planning_of(m, request).with_captions(captions, index, from).len(),
        forall|k: int|
            0 <= k < heard.len() ==> {
                let (scene_at, place) = #[trigger] heard[k];
                &&& 0 <= scene_at <= index
                &&& is_caption_of(
                    m,
                    request,
                    planning_of(m, request).with_captions(captions, index, from)[k],
                    scene_at,
                    place,
                )
            },
        forall|j: int, k: int|
            0 <= j < k < heard.len() ==> #[trigger] heard[j].0 < #[trigger] heard[k].0 || (heard[j].0 == heard[k].0
                && heard[j].1 < heard[k].1),
        forall|scene_at: int, place: int|
            scene_at <= index && #[trigger] is_heard(m, request, scene_at, place) ==> heard.contains((scene_at, place)),
    decreases planning_of(m, request).selected[index].transcript_segment_ids.len() - from,
{
    let planning = planning_of(m, request);
    let ids = planning.selected[index].transcript_segment_ids;
    let known = find::<ClipCandidate>(m.candidates, request.selected_candidate_ids[index])->0;
    assert(known.transcript_segment_ids == ids);
    lemma_scene_placed(planning, 0, index);
    lemma_starts(planning, index);
    let scene = plan_of(m, request).reviewed_scenes[index];
    assert(scene == planning.scene(index));
    quantized_range_encloses_the_range(planning.selected[index].source_range, m.frame_rate);
    let cut = scene.source_range->0;
    assert(cut.start_us.0 == planning.cut_start(index) && cut.end_us.0 == planning.cut_end(index));
    if from == ids.len() {
        assert forall|scene_at: int, place: int|
            scene_at <= index && #[trigger] is_heard(m, request, scene_at, place) implies before.contains(
            (scene_at, place),
        ) by {
            if scene_at == index {
                assert(place < from);
            }
        }
        before
    } else {
        let found = find::<TranscriptSegment>(planning.segments, ids[from]);
        let sounds = found is Some && planning.heard_start(index, found->0) < planning.heard_end(index, found->0);
        assert(sounds == is_heard(m, request, index, from));
        if sounds {
            let segment = found->0;
            let caption = planning.caption(index, segment, captions.len() as int + 1);
            let more = before.push((index, from));
            let all = captions.push(caption);
            assert(is_caption_of(m, request, caption, index, from));
            assert forall|k: int| 0 <= k < more.len() implies {
                let (scene_at, place) = #[trigger] more[k];
                &&& 0 <= scene_at <= index
                &&& scene_at == index ==> place < from + 1
                &&& is_caption_of(m, request, all[k], scene_at, place)
            } by {
                if k < before.len() {
                    assert(more[k] == before[k]);
                    assert(all[k] == captions[k]);
                }
            }
            assert forall|j: int, k: int| 0 <= j < k < more.len() implies #[trigger] more[j].0 < #[trigger] more[k].0
                || (more[j].0 == more[k].0 && more[j].1 < more[k].1) by {
                assert(more[j] == before[j]);
                if k < before.len() {
                    assert(more[k] == before[k]);
                }
            }
            assert forall|scene_at: int, place: int|
                (scene_at < index || (scene_at == index && place < from + 1)) && #[trigger] is_heard(
                    m,
                    request,
                    scene_at,
                    place,
                ) implies more.contains((scene_at, place)) by {
                if scene_at == index && place == from {
                    assert(more[before.len() as int] == (scene_at, place));
                } else {
                    let k = choose|k: int| 0 <= k < before.len() && before[k] == (scene_at, place);
                    assert(more[k] == (scene_at, place));
                }
            }
            lemma_with_captions(m, request, all, index, from + 1, more)
        } else {
            lemma_with_captions(m, request, captions, index, from + 1, before)
        }
    }
}

/// The pictures and the sound of a plan stay together: each scene whose source has pictures, or sound, is played
/// by one clip of that track, over the whole scene and from the scene's own cut; the clips stand in the order of
/// the scenes, and a track is there where a scene plays on it.
pub proof fn planned_clips_play_their_scenes(
    m: VideoProjectManifestModel,
    request: ScenePlanRequestModel,
    kind: TrackKind,
    name: Seq<char>,
) -> (played: Seq<int>)
    requires
        (kind == TrackKind::Video && name == "video"@) || (kind == TrackKind::Audio && name == "audio"@),
    ensures
        played.len() > 0 <==> exists|t: int|
            0 <= t < plan_of(m, request).tracks.len() && (#[trigger] plan_of(m, request).tracks[t]).kind == kind,
        forall|j: int, k: int| 0 <= j < k < played.len() ==> played[j] < played[k],
        forall|i: int|
            0 <= i < request.selected_candidate_ids.len() ==> (#[trigger] played.contains(i) <==> has_material(
                m,
                plan_of(m, request).reviewed_scenes[i],
                kind,
            )),
        forall|t: int|
            0 <= t < plan_of(m, request).tracks.len() && (#[trigger] plan_of(m, request).tracks[t]).kind == kind ==> {
                let track = plan_of(m, request).tracks[t];
                &&& track.preserve_gaps
                &&& track.clips.len() == played.len()
                &&& forall|k: int|
                    0 <= k < played.len() ==> 0 <= played[k] < request.selected_candidate_ids.len()
                        && plays_whole_scene(#[trigger] track.clips[k], plan_of(m, request).reviewed_scenes[played[k]])
            },
{
    let planning = planning_of(m, request);
    let plan = plan_of(m, request);
    let played = lemma_clips(planning, 0, kind, name);
    let clips = planning.clips_from(0, kind, name);
    let video = planning.track(TrackKind::Video, "video"@);
    let audio = planning.track(TrackKind::Audio, "audio"@);
    assert(plan.tracks == video + audio);
    assert(video.len() <= 1 && audio.len() <= 1);
    if played.len() > 0 {
        if kind == TrackKind::Video {
            assert(plan.tracks[0] == video[0]);
        } else {
            assert(plan.tracks[video.len() as int] == audio[0]);
        }
    }
    assert forall|t: int| 0 <= t < plan.tracks.len() && (#[trigger] plan.tracks[t]).kind == kind implies {
        &&& plan.tracks[t].preserve_gaps
        &&& plan.tracks[t].clips == clips
        &&& clips.len() > 0
    } by {
        if t < video.len() {
            assert(plan.tracks[t] == video[t]);
        } else {
            assert(plan.tracks[t] == audio[t - video.len()]);
        }
    }
    assert forall|i: int| 0 <= i < request.selected_candidate_ids.len() implies (#[trigger] played.contains(i)
        <==> has_material(m, plan.reviewed_scenes[i], kind)) by {
        assert(plan.reviewed_scenes[i] == planning.scene(i));
        assert(played.contains(i) <==> planning.plays(i, kind));
    }
    assert forall|k: int| 0 <= k < played.len() implies 0 <= played[k] < request.selected_candidate_ids.len()
        && plays_whole_scene(#[trigger] clips[k], plan.reviewed_scenes[played[k]]) by {
        let at = played[k];
        assert(plan.reviewed_scenes[at] == planning.scene(at));
        assert(clips[k] == planning.clip(at, name));
    }
    played
}

/// Whether the source of a scene has pictures, or sound.
pub open spec fn has_material(m: VideoProjectManifestModel, scene: ReviewedSceneModel, kind: TrackKind) -> bool {
    let source = find::<SourceAsset>(m.source_assets, scene.source_asset_id->0);
    scene.source_asset_id is Some && source is Some && if kind == TrackKind::Video {
        source->0.probe.has_video
    } else {
        source->0.probe.has_audio
    }
}

/// Whether a clip plays a whole scene from the scene's own source, as it is.
pub open spec fn plays_whole_scene(clip: TimelineClipModel, scene: ReviewedSceneModel) -> bool {
    &&& clip.scene_id == Some(scene.id)
    &&& clip.media.source_asset_id == scene.source_asset_id
    &&& clip.media.render_artifact_id is None
    &&& scene.source_range == Some(clip.source_range)
    &&& clip.timeline_start_us == scene.timeline_start_us
    &&& clip.timeline_duration_us == scene.timeline_duration_us
    &&& clip.playback_rate.numerator == clip.playback_rate.denominator
    &&& clip.gain_db_milli == 0
    &&& !clip.muted
    &&& clip.crop is None
}

proof fn lemma_clips(planning: PlanningModel, index: int, kind: TrackKind, name: Seq<char>) -> (played: Seq<int>)
    requires
        0 <= index <= planning.selected.len(),
    ensures
        played.len() == planning.clips_from(index, kind, name).len(),
        forall|j: int, k: int| 0 <= j < k < played.len() ==> played[j] < played[k],
        forall|i: int|
            index <= i < planning.selected.len() ==> (#[trigger] played.contains(i) <==> planning.plays(i, kind)),
        forall|k: int|
            0 <= k < played.len() ==> index <= #[trigger] played[k] < planning.selected.len() && planning.clips_from(
                index,
                kind,
                name,
            )[k] == planning.clip(played[k], name),
    decreases planning.selected.len() - index,
{
    if index == planning.selected.len() {
        Seq::empty()
    } else {
        let rest = lemma_clips(planning, index + 1, kind, name);
        let after = planning.clips_from(index + 1, kind, name);
        let all = planning.clips_from(index, kind, name);
        if planning.plays(index, kind) {
            let played = seq![index] + rest;
            assert(all == seq![planning.clip(index, name)] + after);
            assert forall|i: int| index <= i < planning.selected.len() implies (#[trigger] played.contains(i)
                <==> planning.plays(i, kind)) by {
                if i == index {
                    assert(played[0] == i);
                } else if rest.contains(i) {
                    let k = choose|k: int| 0 <= k < rest.len() && rest[k] == i;
                    assert(played[k + 1] == i);
                } else if played.contains(i) {
                    let k = choose|k: int| 0 <= k < played.len() && played[k] == i;
                    assert(rest[k - 1] == i);
                }
            }
            assert forall|k: int| 0 <= k < played.len() implies index <= #[trigger] played[k]
                < planning.selected.len() && all[k] == planning.clip(played[k], name) by {
                if k > 0 {
                    assert(played[k] == rest[k - 1]);
                    assert(all[k] == after[k - 1]);
                }
            }
            played
        } else {
            assert(all == after);
            assert forall|i: int| index <= i < planning.selected.len() implies (#[trigger] rest.contains(i)
                <==> planning.plays(i, kind)) by {
                if i == index && rest.contains(i) {
                    let k = choose|k: int| 0 <= k < rest.len() && rest[k] == i;
                }
            }
            rest
        }
    }
}

/// A selection decides every suggestion: those that were selected are accepted, and no other is; a rejected one
/// stays rejected, and nothing but the decision changes.
pub proof fn a_plan_accepts_what_was_selected(m: VideoProjectManifestModel, request: ScenePlanRequestModel, index: int)
    requires
        plan_fault(m, request) is None,
        0 <= index < m.candidates.len(),
    ensures
        plan_of(m, request).candidates.len() == m.candidates.len(),
        ({
            let before = m.candidates[index];
            let after = plan_of(m, request).candidates[index];
            &&& after.status == CandidateStatus::Accepted <==> request.selected_candidate_ids.contains(before.id)
            &&& !request.selected_candidate_ids.contains(before.id) ==> (after.status == CandidateStatus::Rejected
                <==> before.status == CandidateStatus::Rejected)
            &&& after == ClipCandidateModel { status: after.status, ..before }
        }),
{
}

} // verus!
