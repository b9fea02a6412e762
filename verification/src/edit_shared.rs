//! What the edits of a timeline have in common.

use crate::bytes::{big_endian_signed, push_byte, push_signed, push_text};
use crate::digest::{sha256_hex, sha256_hex_text};
use crate::error::{fault, fault_at, or_else, refusal, refuse, unless, Fault, VideoError, VideoErrorCode, VideoResult};
use crate::manifest::{
    CaptionCue, CaptionCueModel, ReviewedScene, ReviewedSceneModel, TimelineClip, TimelineClipModel, TimelineTrack,
    TimelineTrackModel, TranscriptSegment, TranscriptVersion, TranscriptVersionModel, TranscriptWord,
    TranscriptWordModel, VideoProjectManifest, VideoProjectManifestModel,
};
use crate::manifest_rules::is_text;
use crate::model::{find, find_last, find_last_named, find_named, find_place, place_of, Model};
use crate::notation::truncated;
use crate::order::{text_before, text_less, text_order};
use crate::text::{
    a_text_is_blank_where_all_is_space, blank, chars_of, is_blank, is_space, text_concat3, text_of,
};
use crate::time::{on_clock, Microseconds, TimeRange};
use crate::timeline::{
    map_source_endpoint_to_timeline, map_timeline_endpoint_to_source, source_instant, timeline_instant,
    to_source_fault, to_timeline_fault, QuantizeMode,
};
use crate::validate::{span_fault, span_range, span_timeline_range};
use vstd::prelude::*;
use vstd::utf8::encode_utf8;

verus! {

/// The shortest scene that an edit may leave.
pub const MIN_TIMELINE_SCENE_DURATION_US: i64 = 100_000;

pub open spec fn edit_overflow() -> Fault {
    fault(VideoErrorCode::ArithmeticOverflow, "timeline edit arithmetic overflowed"@)
}

pub fn arithmetic_overflow() -> (error: VideoError)
    ensures
        error.deep_view() == edit_overflow(),
{
    VideoError::new(VideoErrorCode::ArithmeticOverflow, "timeline edit arithmetic overflowed")
}

/// The difference of two instants, if it is on the clock.
pub fn checked_difference(later: i64, earlier: i64) -> (result: VideoResult<i64>)
    ensures
        refusal(result) == unless(on_clock(later - earlier), edit_overflow()),
        result matches Ok(difference) ==> difference == later - earlier,
{
    match later.checked_sub(earlier) {
        Some(difference) => Ok(difference),
        None => Err(arithmetic_overflow()),
    }
}

// ---------------------------------------------------------------------------------------------
// Scenes
// ---------------------------------------------------------------------------------------------
impl ReviewedSceneModel {
    /// Where the scene stands on the timeline.
    pub open spec fn span(self) -> TimeRange {
        span_range(self.timeline_start_us, self.timeline_duration_us)
    }

    pub open spec fn span_refusal(self) -> Option<Fault> {
        span_fault(self.timeline_start_us, self.timeline_duration_us)
    }
}

pub fn scene_timeline_range(scene: &ReviewedScene) -> (result: VideoResult<TimeRange>)
    ensures
        refusal(result) == scene.deep_view().span_refusal(),
        result matches Ok(range) ==> range == scene.deep_view().span(),
{
    span_timeline_range(scene.timeline_start_us, scene.timeline_duration_us)
}

pub open spec fn scene_place(m: VideoProjectManifestModel, scene_id: Seq<char>) -> Option<int> {
    place_of::<ReviewedScene>(m.reviewed_scenes, scene_id)
}

pub open spec fn missing_scene_fault(scene_id: Seq<char>) -> Fault {
    fault_at(
        VideoErrorCode::MissingReference,
        "reviewed scene "@ + scene_id + " does not exist"@,
        "operations.scene_id"@,
    )
}

pub fn find_scene_index(manifest: &VideoProjectManifest, scene_id: &str) -> (result: VideoResult<usize>)
    ensures
        refusal(result) == unless(
            scene_place(manifest.deep_view(), scene_id@) is Some,
            missing_scene_fault(scene_id@),
        ),
        result matches Ok(place) ==> place < manifest.reviewed_scenes.len() && scene_place(
            manifest.deep_view(),
            scene_id@,
        ) == Some(place as int),
{
    match find_place(&manifest.reviewed_scenes, scene_id) {
        Some(place) => Ok(place),
        None => {
            let message: String = text_concat3("reviewed scene ", scene_id, " does not exist");
            Err(refuse(VideoErrorCode::MissingReference, message.as_str(), "operations.scene_id"))
        },
    }
}

/// The refusal of a span that lies partly in a scene and partly outside it.
pub open spec fn crossing_fault(span: TimeRange, scene: TimeRange, code: VideoErrorCode, field: Seq<char>) -> Option<
    Fault,
> {
    unless(
        span.end() <= scene.start() || span.start() >= scene.end() || scene.encloses(span),
        fault_at(
            code,
            "timeline item crosses an edited scene boundary and cannot be transformed safely"@,
            field,
        ),
    )
}

pub fn ensure_span_does_not_cross_scene_boundary(
    span: TimeRange,
    scene: TimeRange,
    code: VideoErrorCode,
    field: &str,
) -> (result: VideoResult<()>)
    ensures
        refusal(result) == crossing_fault(span, scene, code, field@),
{
    if span.end_us.0 <= scene.start_us.0 || span.start_us.0 >= scene.end_us.0 || scene.contains_range(span) {
        return Ok(());
    }
    Err(
        refuse(
            code,
            "timeline item crosses an edited scene boundary and cannot be transformed safely",
            field,
        ),
    )
}

// ---------------------------------------------------------------------------------------------
// Identifiers derived from a split
// ---------------------------------------------------------------------------------------------
/// What is hashed into the identifier of the right half of a split item.
pub open spec fn split_id_bytes(kind: Seq<char>, id: Seq<char>, at: int) -> Seq<u8> {
    encode_utf8("soundar-video-timeline-split-v1"@) + seq![0u8] + encode_utf8(kind) + seq![0u8] + encode_utf8(id)
        + seq![0u8] + big_endian_signed(at)
}

/// The identifier of the right half of an item split at an instant.
pub open spec fn split_id(kind: Seq<char>, id: Seq<char>, at: int) -> Seq<char> {
    kind + "-split-"@ + sha256_hex(split_id_bytes(kind, id, at)).take(24)
}

/// The identifier of the right half of an item split at an instant. It depends on nothing else, so
/// the same split always makes the same identifiers.
pub fn deterministic_split_id(kind: &str, original_id: &str, split_us: Microseconds) -> (id: String)
    ensures
        id@ == split_id(kind@, original_id@, split_us.0 as int),
{
    let mut bytes: Vec<u8> = Vec::new();
    push_text(&mut bytes, "soundar-video-timeline-split-v1");
    push_byte(&mut bytes, 0u8);
    push_text(&mut bytes, kind);
    push_byte(&mut bytes, 0u8);
    push_text(&mut bytes, original_id);
    push_byte(&mut bytes, 0u8);
    push_signed(&mut bytes, split_us.0);
    assert(bytes@ =~= split_id_bytes(kind@, original_id@, split_us.0 as int));
    let digest: String = sha256_hex_text(bytes.as_slice());
    let digits: Vec<char> = chars_of(digest.as_str());
    let short: String = text_of(&digits, 0, 24);
    assert(short@ =~= digest@.take(24));
    text_concat3(kind, "-split-", short.as_str())
}

// ---------------------------------------------------------------------------------------------
// The clip that ties a scene to its source
// ---------------------------------------------------------------------------------------------
/// Whether a clip plays the whole of a scene from the scene's own source range.
pub open spec fn anchors(scene: ReviewedSceneModel, clip: TimelineClipModel) -> bool {
    &&& clip.scene_id == Some(scene.id)
    &&& scene.source_asset_id is Some
    &&& clip.media.source_asset_id == scene.source_asset_id
    &&& scene.source_range == Some(clip.source_range)
    &&& clip.span_refusal() is None
    &&& clip.span() == scene.span()
}

/// The better of two anchors: the one whose identifier comes first.
pub open spec fn better_anchor(
    scene: ReviewedSceneModel,
    best: Option<TimelineClipModel>,
    clip: TimelineClipModel,
) -> Option<TimelineClipModel> {
    if anchors(scene, clip) && (best is None || text_less(clip.id, best->0.id)) {
        Some(clip)
    } else {
        best
    }
}

pub open spec fn anchor_in_clips(
    scene: ReviewedSceneModel,
    clips: Seq<TimelineClipModel>,
    index: int,
    best: Option<TimelineClipModel>,
) -> Option<TimelineClipModel>
    decreases clips.len() - index,
{
    if index < 0 || index >= clips.len() {
        best
    } else {
        anchor_in_clips(scene, clips, index + 1, better_anchor(scene, best, clips[index]))
    }
}

pub open spec fn anchor_in_tracks(
    scene: ReviewedSceneModel,
    tracks: Seq<TimelineTrackModel>,
    index: int,
    best: Option<TimelineClipModel>,
) -> Option<TimelineClipModel>
    decreases tracks.len() - index,
{
    if index < 0 || index >= tracks.len() {
        best
    } else {
        anchor_in_tracks(
            scene,
            tracks,
            index + 1,
            anchor_in_clips(scene, tracks[index].clips, 0, best),
        )
    }
}

/// The clip that ties a scene to its source: of those that play the whole of it, the one whose
/// identifier comes first.
pub open spec fn source_anchor(m: VideoProjectManifestModel, scene: ReviewedSceneModel) -> Option<TimelineClipModel> {
    anchor_in_tracks(scene, m.tracks, 0, None)
}

pub open spec fn anchor_fault(m: VideoProjectManifestModel, scene: ReviewedSceneModel) -> Option<Fault> {
    or_else(
        unless(
            scene.source_asset_id is Some,
            fault_at(
                VideoErrorCode::InvalidScene,
                "split and trim require a source-backed scene"@,
                "reviewed_scenes.source_asset_id"@,
            ),
        ),
        or_else(
            unless(
                scene.source_range is Some,
                fault_at(
                    VideoErrorCode::InvalidScene,
                    "split and trim require a source-clock scene range"@,
                    "reviewed_scenes.source_range"@,
                ),
            ),
            or_else(
                scene.span_refusal(),
                unless(
                    source_anchor(m, scene) is Some,
                    fault_at(
                        VideoErrorCode::InvalidTrack,
                        "source-backed scene requires a full-span canonical source clip"@,
                        "tracks.clips"@,
                    ),
                ),
            ),
        ),
    )
}

fn is_anchor(scene: &ReviewedScene, span: TimeRange, clip: &TimelineClip) -> (result: bool)
    requires
        span == scene.deep_view().span(),
    ensures
        result == anchors(scene.deep_view(), clip.deep_view()),
{
    let ranged: bool = match scene.source_range {
        Some(range) => range == clip.source_range,
        None => false,
    };
    let spans: bool = match clip.timeline_range() {
        Ok(range) => range == span,
        Err(_) => false,
    };
    is_text(&clip.scene_id, scene.id.as_str()) && scene.source_asset_id.is_some()
        && clip.media.source_asset_id.same(&scene.source_asset_id) && ranged && spans
}

pub fn find_source_anchor(manifest: &VideoProjectManifest, scene: &ReviewedScene) -> (result: VideoResult<TimelineClip>)
    ensures
        refusal(result) == anchor_fault(manifest.deep_view(), scene.deep_view()),
        result matches Ok(clip) ==> source_anchor(manifest.deep_view(), scene.deep_view()) == Some(
            clip.deep_view(),
        ),
{
    let ghost model = manifest.deep_view();
    let ghost wanted = scene.deep_view();
    if scene.source_asset_id.is_none() {
        return Err(
            refuse(
                VideoErrorCode::InvalidScene,
                "split and trim require a source-backed scene",
                "reviewed_scenes.source_asset_id",
            ),
        );
    }
    if scene.source_range.is_none() {
        return Err(
            refuse(
                VideoErrorCode::InvalidScene,
                "split and trim require a source-clock scene range",
                "reviewed_scenes.source_range",
            ),
        );
    }
    let span: TimeRange = scene_timeline_range(scene)?;
    let mut best: Option<TimelineClip> = None;
    let mut index: usize = 0;
    while index < manifest.tracks.len()
        invariant
            index <= manifest.tracks.len(),
            model == manifest.deep_view(),
            wanted == scene.deep_view(),
            span == wanted.span(),
            source_anchor(model, wanted) == anchor_in_tracks(
                wanted,
                model.tracks,
                index as int,
                best.deep_view(),
            ),
        decreases manifest.tracks.len() - index,
    {
        let track: &TimelineTrack = &manifest.tracks[index];
        let ghost clips = track.deep_view().clips;
        assert(model.tracks[index as int] == track.deep_view());
        let ghost entry = best.deep_view();
        let mut clip_index: usize = 0;
        while clip_index < track.clips.len()
            invariant
                clip_index <= track.clips.len(),
                clips == track.deep_view().clips,
                wanted == scene.deep_view(),
                span == wanted.span(),
                anchor_in_clips(wanted, clips, 0, entry) == anchor_in_clips(
                    wanted,
                    clips,
                    clip_index as int,
                    best.deep_view(),
                ),
            decreases track.clips.len() - clip_index,
        {
            let clip: &TimelineClip = &track.clips[clip_index];
            assert(clips[clip_index as int] == clip.deep_view());
            if is_anchor(scene, span, clip) {
                let better: bool = match &best {
                    Some(found) => text_before(clip.id.as_str(), found.id.as_str()),
                    None => true,
                };
                if better {
                    best = Some(clip.duplicate());
                }
            }
            clip_index += 1;
        }
        index += 1;
    }
    match best {
        Some(clip) => Ok(clip),
        None => Err(
            refuse(
                VideoErrorCode::InvalidTrack,
                "source-backed scene requires a full-span canonical source clip",
                "tracks.clips",
            ),
        ),
    }
}

/// The anchor of a scene is a clip of the project.
pub proof fn lemma_anchor_in_clips(
    scene: ReviewedSceneModel,
    clips: Seq<TimelineClipModel>,
    from: int,
    best: Option<TimelineClipModel>,
) -> (place: int)
    requires
        0 <= from <= clips.len(),
    ensures
        anchor_in_clips(scene, clips, from, best) == best || (from <= place < clips.len() && anchor_in_clips(
            scene,
            clips,
            from,
            best,
        ) == Some(clips[place]) && anchors(scene, clips[place])),
    decreases clips.len() - from,
{
    if from < clips.len() {
        let next = better_anchor(scene, best, clips[from]);
        let place = lemma_anchor_in_clips(scene, clips, from + 1, next);
        if anchor_in_clips(scene, clips, from + 1, next) == next {
            from
        } else {
            place
        }
    } else {
        from
    }
}

pub proof fn lemma_anchor_in_tracks(
    scene: ReviewedSceneModel,
    tracks: Seq<TimelineTrackModel>,
    from: int,
    best: Option<TimelineClipModel>,
) -> (place: (int, int))
    requires
        0 <= from <= tracks.len(),
    ensures
        anchor_in_tracks(scene, tracks, from, best) == best || (from <= place.0 < tracks.len() && 0 <= place.1
            < tracks[place.0].clips.len() && anchor_in_tracks(scene, tracks, from, best) == Some(
            tracks[place.0].clips[place.1],
        ) && anchors(scene, tracks[place.0].clips[place.1])),
    decreases tracks.len() - from,
{
    if from < tracks.len() {
        let next = anchor_in_clips(scene, tracks[from].clips, 0, best);
        let clip = lemma_anchor_in_clips(scene, tracks[from].clips, 0, best);
        let place = lemma_anchor_in_tracks(scene, tracks, from + 1, next);
        if anchor_in_tracks(scene, tracks, from + 1, next) == next {
            (from, clip)
        } else {
            place
        }
    } else {
        (from, 0)
    }
}

/// The anchor of a scene is a clip of the project that plays the scene from end to end, and no such clip
/// has an identifier that comes before its own.
pub proof fn an_anchor_plays_its_scene(m: VideoProjectManifestModel, scene: ReviewedSceneModel) -> (place: (int, int))
    ensures
        match source_anchor(m, scene) {
            Some(anchor) => {
                &&& 0 <= place.0 < m.tracks.len()
                &&& 0 <= place.1 < m.tracks[place.0].clips.len()
                &&& anchor == m.tracks[place.0].clips[place.1]
                &&& anchor.scene_id == Some(scene.id)
                &&& anchor.media.source_asset_id == scene.source_asset_id
                &&& scene.source_range == Some(anchor.source_range)
                &&& anchor.timeline_start_us == scene.timeline_start_us
                &&& scene.span_refusal() is None ==> anchor.timeline_duration_us == scene.timeline_duration_us
            },
            None => true,
        },
        forall|t: int, c: int|
            0 <= t < m.tracks.len() && 0 <= c < m.tracks[t].clips.len() && anchors(
                scene,
                #[trigger] m.tracks[t].clips[c],
            ) ==> source_anchor(m, scene) is Some && !text_less(
                m.tracks[t].clips[c].id,
                source_anchor(m, scene)->0.id,
            ),
{
    assert forall|t: int, c: int|
        0 <= t < m.tracks.len() && 0 <= c < m.tracks[t].clips.len() && anchors(
            scene,
            #[trigger] m.tracks[t].clips[c],
        ) implies source_anchor(m, scene) is Some && !text_less(
        m.tracks[t].clips[c].id,
        source_anchor(m, scene)->0.id,
    ) by {
        lemma_first_anchor_in_tracks(scene, m.tracks, 0, None, t, c);
    }
    let place = lemma_anchor_in_tracks(scene, m.tracks, 0, None);
    if let Some(anchor) = source_anchor(m, scene) {
        assert(anchors(scene, anchor));
        assert(anchor.span() == scene.span());
        assert(anchor.span().end() == anchor.timeline_start_us.0 + anchor.timeline_duration_us.0);
        assert(scene.timeline_start_us == anchor.timeline_start_us);
    }
    place
}

proof fn lemma_first_anchor_in_clips(
    scene: ReviewedSceneModel,
    clips: Seq<TimelineClipModel>,
    from: int,
    best: Option<TimelineClipModel>,
)
    requires
        0 <= from <= clips.len(),
    ensures
        ({
            let found = anchor_in_clips(scene, clips, from, best);
            &&& best is Some ==> found is Some && !text_less(best->0.id, found->0.id)
            &&& forall|c: int|
                from <= c < clips.len() && anchors(scene, #[trigger] clips[c]) ==> found is Some && !text_less(
                    clips[c].id,
                    found->0.id,
                )
        }),
    decreases clips.len() - from,
{
    if from < clips.len() {
        let next = better_anchor(scene, best, clips[from]);
        lemma_first_anchor_in_clips(scene, clips, from + 1, next);
        if next is Some {
            let found = anchor_in_clips(scene, clips, from + 1, next)->0;
            text_order(found.id, next->0.id, clips[from].id);
            if best is Some {
                text_order(found.id, next->0.id, best->0.id);
                text_order(next->0.id, best->0.id, found.id);
                text_order(best->0.id, found.id, next->0.id);
            }
            text_order(clips[from].id, found.id, next->0.id);
            text_order(next->0.id, clips[from].id, found.id);
        }
    } else if best is Some {
        text_order(best->0.id, best->0.id, best->0.id);
    }
}

proof fn lemma_first_anchor_in_tracks(
    scene: ReviewedSceneModel,
    tracks: Seq<TimelineTrackModel>,
    from: int,
    best: Option<TimelineClipModel>,
    track: int,
    clip: int,
)
    requires
        0 <= from <= tracks.len(),
    ensures
        ({
            let found = anchor_in_tracks(scene, tracks, from, best);
            &&& best is Some ==> found is Some && !text_less(best->0.id, found->0.id)
            &&& from <= track < tracks.len() && 0 <= clip < tracks[track].clips.len() && anchors(
                scene,
                tracks[track].clips[clip],
            ) ==> found is Some && !text_less(tracks[track].clips[clip].id, found->0.id)
        }),
    decreases tracks.len() - from,
{
    if from < tracks.len() {
        let next = anchor_in_clips(scene, tracks[from].clips, 0, best);
        lemma_first_anchor_in_clips(scene, tracks[from].clips, 0, best);
        lemma_first_anchor_in_tracks(scene, tracks, from + 1, next, track, clip);
        if next is Some {
            let found = anchor_in_tracks(scene, tracks, from + 1, next)->0;
            if best is Some {
                text_order(best->0.id, found.id, next->0.id);
                text_order(found.id, next->0.id, best->0.id);
                text_order(next->0.id, best->0.id, found.id);
            }
            if track == from && 0 <= clip < tracks[track].clips.len() {
                let id = tracks[track].clips[clip].id;
                text_order(id, found.id, next->0.id);
                text_order(found.id, next->0.id, id);
                text_order(next->0.id, id, found.id);
            }
        }
    } else if best is Some {
        text_order(best->0.id, best->0.id, best->0.id);
    }
}

// ---------------------------------------------------------------------------------------------
// Exact instants
// ---------------------------------------------------------------------------------------------
/// The refusal of a timeline instant that no whole source microsecond plays at.
pub open spec fn exact_source_fault(clip: TimelineClipModel, timeline_us: int) -> Option<Fault> {
    let source_us = source_instant(clip, timeline_us, QuantizeMode::Floor);
    or_else(
        to_source_fault(clip, timeline_us, QuantizeMode::Floor),
        or_else(
            to_timeline_fault(clip, source_us, QuantizeMode::Floor),
            unless(
                timeline_instant(clip, source_us, QuantizeMode::Floor) == timeline_us,
                fault_at(
                    VideoErrorCode::DurationMismatch,
                    "timeline boundary does not map to an exact source microsecond"@,
                    "operations.at_timeline_us"@,
                ),
            ),
        ),
    )
}

pub fn map_timeline_endpoint_to_source_exact(clip: &TimelineClip, timeline_us: Microseconds) -> (result: VideoResult<
    Microseconds,
>)
    ensures
        refusal(result) == exact_source_fault(clip.deep_view(), timeline_us.0 as int),
        result matches Ok(source) ==> source.0 == source_instant(
            clip.deep_view(),
            timeline_us.0 as int,
            QuantizeMode::Floor,
        ),
{
    let source: Microseconds = map_timeline_endpoint_to_source(clip, timeline_us, QuantizeMode::Floor)?;
    let round_trip: Microseconds = map_source_endpoint_to_timeline(clip, source, QuantizeMode::Floor)?;
    if round_trip.0 != timeline_us.0 {
        return Err(
            refuse(
                VideoErrorCode::DurationMismatch,
                "timeline boundary does not map to an exact source microsecond",
                "operations.at_timeline_us",
            ),
        );
    }
    Ok(source)
}

/// The refusal of a source instant that plays at no whole timeline microsecond.
pub open spec fn exact_timeline_fault(clip: TimelineClipModel, source_us: int) -> Option<Fault> {
    let timeline_us = timeline_instant(clip, source_us, QuantizeMode::Floor);
    or_else(
        to_timeline_fault(clip, source_us, QuantizeMode::Floor),
        or_else(
            to_source_fault(clip, timeline_us, QuantizeMode::Floor),
            unless(
                source_instant(clip, timeline_us, QuantizeMode::Floor) == source_us,
                fault_at(
                    VideoErrorCode::DurationMismatch,
                    "source boundary does not map to an exact timeline microsecond"@,
                    "operations.source_start_us"@,
                ),
            ),
        ),
    )
}

pub fn map_source_endpoint_to_timeline_exact(clip: &TimelineClip, source_us: Microseconds) -> (result: VideoResult<
    Microseconds,
>)
    ensures
        refusal(result) == exact_timeline_fault(clip.deep_view(), source_us.0 as int),
        result matches Ok(timeline) ==> timeline.0 == timeline_instant(
            clip.deep_view(),
            source_us.0 as int,
            QuantizeMode::Floor,
        ),
{
    let timeline: Microseconds = map_source_endpoint_to_timeline(clip, source_us, QuantizeMode::Floor)?;
    let round_trip: Microseconds = map_timeline_endpoint_to_source(clip, timeline, QuantizeMode::Floor)?;
    if round_trip.0 != source_us.0 {
        return Err(
            refuse(
                VideoErrorCode::DurationMismatch,
                "source boundary does not map to an exact timeline microsecond",
                "operations.source_start_us",
            ),
        );
    }
    Ok(timeline)
}

/// A timeline instant that maps exactly is as far into its clip as the source instant is into the
/// footage, at the clip's own rate: nothing is rounded away.
pub proof fn an_exact_cut_rounds_nothing(clip: TimelineClipModel, timeline_us: int)
    requires
        exact_source_fault(clip, timeline_us) is None,
    ensures
        ({
            let source_us = source_instant(clip, timeline_us, QuantizeMode::Floor);
            &&& (source_us - clip.source_range.start_us.0) * clip.playback_rate.denominator == (timeline_us
                - clip.timeline_start_us.0) * clip.playback_rate.numerator
            &&& clip.source_range.start_us.0 <= source_us <= clip.source_range.end_us.0
            &&& clip.timeline_start_us.0 <= timeline_us <= clip.timeline_start_us.0 + clip.timeline_duration_us.0
        }),
{
    let n = clip.playback_rate.numerator as int;
    let d = clip.playback_rate.denominator as int;
    let shown = timeline_us - clip.timeline_start_us.0;
    let played = (shown * n) / d;
    lemma_round_trip_is_exact(shown, played, n, d);
}

/// A source instant that maps exactly is as far into the footage as the timeline instant is into the
/// clip, at the clip's own rate.
pub proof fn an_exact_source_cut_rounds_nothing(clip: TimelineClipModel, source_us: int)
    requires
        exact_timeline_fault(clip, source_us) is None,
    ensures
        ({
            let timeline_us = timeline_instant(clip, source_us, QuantizeMode::Floor);
            &&& (source_us - clip.source_range.start_us.0) * clip.playback_rate.denominator == (timeline_us
                - clip.timeline_start_us.0) * clip.playback_rate.numerator
            &&& clip.source_range.start_us.0 <= source_us <= clip.source_range.end_us.0
            &&& clip.timeline_start_us.0 <= timeline_us <= clip.timeline_start_us.0 + clip.timeline_duration_us.0
        }),
{
    let n = clip.playback_rate.numerator as int;
    let d = clip.playback_rate.denominator as int;
    let played = source_us - clip.source_range.start_us.0;
    let shown = (played * d) / n;
    lemma_round_trip_is_exact(played, shown, d, n);
}

/// A value that survives being scaled down and back was a whole multiple.
proof fn lemma_round_trip_is_exact(value: int, scaled: int, n: int, d: int)
    requires
        n > 0,
        d > 0,
        scaled == (value * n) / d,
        (scaled * d) / n == value,
    ensures
        scaled * d == value * n,
{
    vstd::arithmetic::div_mod::lemma_fundamental_div_mod(value * n, d);
    vstd::arithmetic::div_mod::lemma_fundamental_div_mod(scaled * d, n);
    vstd::arithmetic::div_mod::lemma_mod_bound(value * n, d);
    vstd::arithmetic::div_mod::lemma_mod_bound(scaled * d, n);
    assert(d * scaled == scaled * d) by (nonlinear_arith);
    assert(n * value == value * n) by (nonlinear_arith);
}

// ---------------------------------------------------------------------------------------------
// Where a caption's text is divided
// ---------------------------------------------------------------------------------------------
/// Whether a word of a text starts at a place.
pub open spec fn starts_token(text: Seq<char>, index: int) -> bool {
    0 <= index < text.len() && !is_space(text[index]) && (index == 0 || is_space(text[index - 1]))
}

/// The places from `index` on at which a word starts.
pub open spec fn token_starts_from(text: Seq<char>, index: int) -> Seq<int>
    decreases text.len() - index,
{
    if index < 0 || index >= text.len() {
        Seq::empty()
    } else if starts_token(text, index) {
        seq![index] + token_starts_from(text, index + 1)
    } else {
        token_starts_from(text, index + 1)
    }
}

pub open spec fn token_starts(text: Seq<char>) -> Seq<int> {
    token_starts_from(text, 0)
}

fn find_token_starts(text: &Vec<char>) -> (starts: Vec<usize>)
    ensures
        starts.len() == token_starts(text@).len(),
        forall|i: int| 0 <= i < starts.len() ==> starts[i] == #[trigger] token_starts(text@)[i],
        forall|i: int| 0 <= i < starts.len() ==> starts[i] < text.len(),
{
    let mut starts: Vec<usize> = Vec::new();
    let ghost mut found: Seq<int> = Seq::empty();
    let mut index: usize = 0;
    while index < text.len()
        invariant
            index <= text.len(),
            starts.len() == found.len(),
            forall|i: int| 0 <= i < starts.len() ==> starts[i] == #[trigger] found[i],
            forall|i: int| 0 <= i < starts.len() ==> starts[i] < text.len(),
            found + token_starts_from(text@, index as int) == token_starts(text@),
        decreases text.len() - index,
    {
        if !text[index].is_whitespace() && (index == 0 || text[index - 1].is_whitespace()) {
            starts.push(index);
            proof {
                let before = found;
                found = found.push(index as int);
                assert(found + token_starts_from(text@, index + 1) =~= before + token_starts_from(
                    text@,
                    index as int,
                ));
            }
        }
        index += 1;
    }
    assert(found =~= token_starts(text@));
    starts
}

/// How many of the words from a place on are centred at or before a source instant, if the
/// transcript has them all.
pub open spec fn words_before(
    words: Seq<TranscriptWordModel>,
    word_ids: Seq<Seq<char>>,
    source_us: int,
    index: int,
) -> Option<int>
    decreases word_ids.len() - index,
{
    if index < 0 || index >= word_ids.len() {
        Some(0)
    } else {
        match find_last::<TranscriptWord>(words, word_ids[index]) {
            Some(word) => match words_before(words, word_ids, source_us, index + 1) {
                Some(rest) => Some(
                    rest + if truncated(word.range.start() + word.range.end(), 2) <= source_us {
                        1int
                    } else {
                        0int
                    },
                ),
                None => None,
            },
            None => None,
        }
    }
}

/// Where a caption is divided by its transcript: before the first word that is centred after the
/// source instant. There is no such place unless the words of the segment are the caption's words.
pub open spec fn transcript_division(
    transcript: TranscriptVersionModel,
    caption: CaptionCueModel,
    source_us: int,
) -> Option<int> {
    let starts = token_starts(caption.text);
    match caption.transcript_segment_id {
        Some(segment_id) => match find::<TranscriptSegment>(transcript.segments, segment_id) {
            Some(segment) => if segment.word_ids.len() != starts.len() {
                None
            } else {
                match words_before(transcript.words, segment.word_ids, source_us, 0) {
                    Some(count) => if count == 0 {
                        Some(0)
                    } else if count == starts.len() {
                        Some(caption.text.len() as int)
                    } else {
                        Some(starts[count])
                    },
                    None => None,
                }
            },
            None => None,
        },
        None => None,
    }
}

fn count_words_before(words: &Vec<TranscriptWord>, word_ids: &Vec<String>, source_us: Microseconds) -> (result: Option<
    usize,
>)
    ensures
        match result {
            Some(count) => words_before(words.deep_view(), word_ids.deep_view(), source_us.0 as int, 0)
                == Some(count as int) && count <= word_ids.len(),
            None => words_before(words.deep_view(), word_ids.deep_view(), source_us.0 as int, 0) is None,
        },
{
    let ghost known = words.deep_view();
    let ghost wanted = word_ids.deep_view();
    let mut count: usize = 0;
    let mut index: usize = word_ids.len();
    while index > 0
        invariant
            index <= word_ids.len(),
            known == words.deep_view(),
            wanted == word_ids.deep_view(),
            words_before(known, wanted, source_us.0 as int, index as int) == Some(count as int),
            count <= word_ids.len() - index,
        decreases index,
    {
        index -= 1;
        assert(wanted[index as int] == word_ids[index as int]@);
        match find_last_named(words, word_ids[index].as_str()) {
            Some(word) => {
                let sum: i128 = word.range.start_us.0 as i128 + word.range.end_us.0 as i128;
                let middle: i128 = if sum < 0 {
                    -(-sum / 2)
                } else {
                    sum / 2
                };
                if middle <= source_us.0 as i128 {
                    count += 1;
                }
            },
            None => {
                proof {
                    lemma_missing_word(known, wanted, source_us.0 as int, 0, index as int);
                }
                return None;
            },
        }
    }
    Some(count)
}

proof fn lemma_missing_word(
    words: Seq<TranscriptWordModel>,
    word_ids: Seq<Seq<char>>,
    source_us: int,
    from: int,
    index: int,
)
    requires
        0 <= from <= index < word_ids.len(),
        find_last::<TranscriptWord>(words, word_ids[index]) is None,
    ensures
        words_before(words, word_ids, source_us, from) is None,
    decreases index - from,
{
    if from < index {
        lemma_missing_word(words, word_ids, source_us, from + 1, index);
    }
}

/// A place among `count` items in proportion to an offset into a duration, never the first and
/// never past the last.
pub open spec fn proportional_place(offset: int, duration: int, count: int) -> int {
    let rounded = (offset * count + duration / 2) / duration;
    if rounded < 1 {
        1
    } else if rounded > count - 1 {
        count - 1
    } else {
        rounded
    }
}

pub fn proportional_index(offset: i64, duration: i64, item_count: usize) -> (index: usize)
    requires
        0 < offset < duration,
        item_count >= 2,
    ensures
        index == proportional_place(offset as int, duration as int, item_count as int),
        1 <= index < item_count,
{
    assert(0 <= offset * item_count <= 0x7fff_ffff_ffff_ffff * 0xffff_ffff_ffff_ffff) by (nonlinear_arith)
        requires
            0 < offset <= 0x7fff_ffff_ffff_ffff,
            0 <= item_count <= 0xffff_ffff_ffff_ffff,
    ;
    let scaled: i128 = offset as i128 * item_count as i128;
    let total: i128 = scaled + (duration / 2) as i128;
    let rounded: i128 = total / duration as i128;
    assert(0 <= total as int / duration as int <= total) by (nonlinear_arith)
        requires
            total >= 0,
            duration > 0,
    ;
    let last: usize = item_count - 1;
    if rounded < 1 {
        1
    } else if rounded > last as i128 {
        last
    } else {
        rounded as usize
    }
}

/// Whether both halves of a divided text say something.
pub open spec fn halves_say_something(text: Seq<char>, index: int) -> bool {
    !blank(text.take(index)) && !blank(text.skip(index))
}

fn nonempty_text_halves(text: &Vec<char>, index: usize) -> (result: bool)
    requires
        index <= text.len(),
    ensures
        result == halves_say_something(text@, index as int),
{
    let left: String = text_of(text, 0, index);
    let right: String = text_of(text, index, text.len());
    assert(left@ =~= text@.take(index as int));
    assert(right@ =~= text@.skip(index as int));
    !is_blank(left.as_str()) && !is_blank(right.as_str())
}

pub open spec fn indivisible_fault() -> Fault {
    fault_at(
        VideoErrorCode::InvalidCaption,
        "caption text cannot be divided into two non-empty deterministic substrings"@,
        "captions.text"@,
    )
}

/// Where a caption's text is divided by characters.
pub open spec fn character_division(caption: CaptionCueModel, timeline_us: int) -> Result<int, Fault> {
    let place = proportional_place(
        timeline_us - caption.range.start(),
        caption.range.length(),
        caption.text.len() as int,
    );
    if caption.text.len() >= 2 && halves_say_something(caption.text, place) {
        Ok(place)
    } else {
        Err(indivisible_fault())
    }
}

/// Where a caption's text is divided: by the transcript's words where they fit, else in proportion
/// by its own words, else in proportion by its characters.
pub open spec fn caption_division(
    transcript: Option<TranscriptVersionModel>,
    caption: CaptionCueModel,
    timeline_us: int,
    source_us: int,
    both_halves: bool,
) -> Result<int, Fault> {
    let starts = token_starts(caption.text);
    let spoken = match transcript {
        Some(transcript) => transcript_division(transcript, caption, source_us),
        None => None,
    };
    let place = proportional_place(
        timeline_us - caption.range.start(),
        caption.range.length(),
        starts.len() as int,
    );
    if timeline_us <= caption.range.start() || timeline_us >= caption.range.end() {
        Err(
            fault_at(
                VideoErrorCode::InvalidCaption,
                "caption text may only be partitioned at an interior cue boundary"@,
                "captions.range"@,
            ),
        )
    } else if starts.len() < 2 {
        character_division(caption, timeline_us)
    } else if spoken is Some && (!both_halves || halves_say_something(caption.text, spoken->0)) {
        Ok(spoken->0)
    } else if halves_say_something(caption.text, starts[place]) {
        Ok(starts[place])
    } else {
        character_division(caption, timeline_us)
    }
}

fn divide_by_transcript(
    transcript: &TranscriptVersion,
    caption: &CaptionCue,
    text: &Vec<char>,
    starts: &Vec<usize>,
    source_us: Microseconds,
) -> (result: Option<usize>)
    requires
        text@ == caption.text@,
        starts.len() == token_starts(text@).len(),
        forall|i: int| 0 <= i < starts.len() ==> starts[i] == #[trigger] token_starts(text@)[i],
        forall|i: int| 0 <= i < starts.len() ==> starts[i] < text.len(),
    ensures
        match result {
            Some(place) => place <= text.len() && transcript_division(
                transcript.deep_view(),
                caption.deep_view(),
                source_us.0 as int,
            ) == Some(place as int),
            None => transcript_division(
                transcript.deep_view(),
                caption.deep_view(),
                source_us.0 as int,
            ) is None,
        },
{
    match &caption.transcript_segment_id {
        Some(segment_id) => match find_named(&transcript.segments, segment_id.as_str()) {
            Some(segment) => {
                if segment.word_ids.len() != starts.len() {
                    return None;
                }
                match count_words_before(&transcript.words, &segment.word_ids, source_us) {
                    Some(count) => if count == 0 {
                        Some(0)
                    } else if count == starts.len() {
                        Some(text.len())
                    } else {
                        Some(starts[count])
                    },
                    None => None,
                }
            },
            None => None,
        },
        None => None,
    }
}

pub fn caption_split_index(
    transcript: &Option<TranscriptVersion>,
    caption: &CaptionCue,
    split_timeline_us: Microseconds,
    split_source_us: Microseconds,
    require_nonempty_halves: bool,
) -> (result: VideoResult<usize>)
    requires
        caption.range.valid(),
    ensures
        ({
            let division = caption_division(
                transcript.deep_view(),
                caption.deep_view(),
                split_timeline_us.0 as int,
                split_source_us.0 as int,
                require_nonempty_halves,
            );
            match result {
                Ok(index) => index <= caption.text@.len() && division == Ok::<int, Fault>(index as int),
                Err(error) => division == Err::<int, Fault>(error.deep_view()),
            }
        }),
{
    if split_timeline_us.0 <= caption.range.start_us.0 || split_timeline_us.0 >= caption.range.end_us.0 {
        return Err(
            refuse(
                VideoErrorCode::InvalidCaption,
                "caption text may only be partitioned at an interior cue boundary",
                "captions.range",
            ),
        );
    }
    let text: Vec<char> = chars_of(caption.text.as_str());
    let starts: Vec<usize> = find_token_starts(&text);
    let offset: i64 = split_timeline_us.0 - caption.range.start_us.0;
    let duration: i64 = caption.range.end_us.0 - caption.range.start_us.0;
    if starts.len() >= 2 {
        let spoken: Option<usize> = match transcript {
            Some(known) => divide_by_transcript(known, caption, &text, &starts, split_source_us),
            None => None,
        };
        if let Some(place) = spoken {
            if !require_nonempty_halves || nonempty_text_halves(&text, place) {
                return Ok(place);
            }
        }
        let token: usize = proportional_index(offset, duration, starts.len());
        let place: usize = starts[token];
        if nonempty_text_halves(&text, place) {
            return Ok(place);
        }
    }
    if text.len() >= 2 {
        let place: usize = proportional_index(offset, duration, text.len());
        if nonempty_text_halves(&text, place) {
            return Ok(place);
        }
    }
    Err(
        refuse(
            VideoErrorCode::InvalidCaption,
            "caption text cannot be divided into two non-empty deterministic substrings",
            "captions.text",
        ),
    )
}

/// Words start inside the text.
pub proof fn lemma_token_starts(text: Seq<char>, from: int)
    requires
        0 <= from,
    ensures
        forall|i: int|
            0 <= i < token_starts_from(text, from).len() ==> from <= #[trigger] token_starts_from(text, from)[i]
                < text.len(),
    decreases text.len() - from,
{
    if from < text.len() {
        let rest = token_starts_from(text, from + 1);
        lemma_token_starts(text, from + 1);
        assert forall|i: int| 0 <= i < token_starts_from(text, from).len() implies from
            <= #[trigger] token_starts_from(text, from)[i] < text.len() by {
            if starts_token(text, from) {
                if i > 0 {
                    assert(token_starts_from(text, from)[i] == rest[i - 1]);
                }
            } else {
                assert(token_starts_from(text, from)[i] == rest[i]);
            }
        }
    }
}

/// No more words are counted than there are.
pub proof fn lemma_words_before(
    words: Seq<TranscriptWordModel>,
    word_ids: Seq<Seq<char>>,
    source_us: int,
    index: int,
)
    requires
        0 <= index <= word_ids.len(),
    ensures
        words_before(words, word_ids, source_us, index) matches Some(count) ==> 0 <= count <= word_ids.len()
            - index,
    decreases word_ids.len() - index,
{
    if index < word_ids.len() {
        lemma_words_before(words, word_ids, source_us, index + 1);
    }
}

/// A caption is divided inside its text.
pub proof fn lemma_caption_division(
    transcript: Option<TranscriptVersionModel>,
    caption: CaptionCueModel,
    timeline_us: int,
    source_us: int,
    both_halves: bool,
)
    ensures
        caption_division(transcript, caption, timeline_us, source_us, both_halves) matches Ok(place) ==> 0 <= place
            <= caption.text.len(),
{
    lemma_token_starts(caption.text, 0);
    if let Some(known) = transcript {
        if let Some(segment_id) = caption.transcript_segment_id {
            if let Some(segment) = find::<TranscriptSegment>(known.segments, segment_id) {
                lemma_words_before(known.words, segment.word_ids, source_us, 0);
            }
        }
    }
}

/// A caption whose words the transcript knows is divided by them, where they stand in the order in which they
/// are spoken: the words left of the place are centred at or before the source instant, and those right of it
/// are centred after it. The instant is doubled rather than the middle halved; a middle between two
/// microseconds counts as the earlier.
pub proof fn spoken_words_go_to_their_side(
    words: Seq<TranscriptWordModel>,
    word_ids: Seq<Seq<char>>,
    source_us: int,
    index: int,
)
    requires
        0 <= source_us,
        0 <= index <= word_ids.len(),
        words_before(words, word_ids, source_us, index) is Some,
        forall|i: int, j: int|
            index <= i <= j < word_ids.len() ==> #[trigger] middle_of(words, word_ids[i]) <= #[trigger] middle_of(
                words,
                word_ids[j],
            ),
        forall|i: int| index <= i < word_ids.len() ==> 0 <= #[trigger] middle_of(words, word_ids[i]),
    ensures
        0 <= words_before(words, word_ids, source_us, index)->0 <= word_ids.len() - index,
        forall|i: int|
            index <= i < word_ids.len() ==> (i < index + words_before(words, word_ids, source_us, index)->0 <==> (
            #[trigger] middle_of(words, word_ids[i])) / 2 <= source_us),
    decreases word_ids.len() - index,
{
    if index < word_ids.len() {
        spoken_words_go_to_their_side(words, word_ids, source_us, index + 1);
        let rest = words_before(words, word_ids, source_us, index + 1)->0;
        let own = middle_of(words, word_ids[index]);
        assert(truncated(own, 2) == own / 2);
        if own / 2 > source_us {
            assert forall|i: int| index <= i < word_ids.len() implies (#[trigger] middle_of(words, word_ids[i])) / 2
                > source_us by {
                assert(own <= middle_of(words, word_ids[i]));
            }
            if rest > 0 {
                assert(middle_of(words, word_ids[index + 1]) / 2 <= source_us);
            }
        }
    }
}

/// Twice the middle of a word of the transcript.
pub open spec fn middle_of(words: Seq<TranscriptWordModel>, word_id: Seq<char>) -> int {
    let word = find_last::<TranscriptWord>(words, word_id)->0;
    word.range.start_us.0 + word.range.end_us.0
}

/// A caption of several words is never divided inside a word, unless none of its words can be parted from the
/// others: the place is an end of the text, or the start of a word.
pub proof fn a_caption_is_divided_between_words(
    transcript: Option<TranscriptVersionModel>,
    caption: CaptionCueModel,
    timeline_us: int,
    source_us: int,
    both_halves: bool,
)
    requires
        caption_division(transcript, caption, timeline_us, source_us, both_halves) is Ok,
    ensures
        ({
            let place = caption_division(transcript, caption, timeline_us, source_us, both_halves)->Ok_0;
            &&& caption.range.start_us.0 < timeline_us < caption.range.end_us.0
            &&& 0 <= place <= caption.text.len()
            &&& both_halves ==> !blank(caption.text.take(place)) && !blank(caption.text.skip(place))
            &&& place == 0 || place == caption.text.len() || starts_word(caption.text, place)
                || !exists|at: int|
                    0 < at < caption.text.len() && #[trigger] starts_word(caption.text, at) && !blank(
                        caption.text.take(at),
                    )
        }),
{
    lemma_caption_division(transcript, caption, timeline_us, source_us, both_halves);
    let text = caption.text;
    let place = caption_division(transcript, caption, timeline_us, source_us, both_halves)->Ok_0;
    let starts = token_starts(text);
    lemma_token_starts(text, 0);
    lemma_tokens(text, 0);
    if let Some(known) = transcript {
        if let Some(segment_id) = caption.transcript_segment_id {
            if let Some(segment) = find::<TranscriptSegment>(known.segments, segment_id) {
                lemma_words_before(known.words, segment.word_ids, source_us, 0);
            }
        }
    }
    if starts.len() >= 2 {
        let at = proportional_place(timeline_us - caption.range.start(), caption.range.length(), starts.len() as int);
        assert(1 <= at < starts.len());
        let first = starts[0];
        let next = starts[at];
        assert(starts_token(text, first) && starts_token(text, next));
        assert(first < next);
        assert(text.take(next)[first] == text[first]);
        assert(text.skip(next)[0] == text[next]);
        a_text_is_blank_where_all_is_space(text.take(next));
        a_text_is_blank_where_all_is_space(text.skip(next));
    } else {
        assert forall|at: int| 0 < at < text.len() && #[trigger] starts_word(text, at) implies blank(text.take(at)) by {
            assert(starts_token(text, at));
            assert(starts.contains(at));
            if !blank(text.take(at)) {
                a_text_is_blank_where_all_is_space(text.take(at));
                let i = lemma_first_word(text.take(at));
                assert(text.take(at)[i] == text[i]);
                assert(i == 0 || text.take(at)[i - 1] == text[i - 1]);
                assert(starts_token(text, i));
                assert(starts.contains(i));
            }
        }
    }
}

/// Whether a word starts at a place of a text: a character that shows, behind one that does not.
pub open spec fn starts_word(text: Seq<char>, at: int) -> bool {
    !is_space(text[at]) && (at == 0 || is_space(text[at - 1]))
}

proof fn lemma_first_word(text: Seq<char>) -> (at: int)
    requires
        exists|i: int| 0 <= i < text.len() && !is_space(#[trigger] text[i]),
    ensures
        0 <= at < text.len(),
        starts_word(text, at),
    decreases text.len(),
{
    if !is_space(text[0]) {
        0
    } else {
        let rest = text.skip(1);
        let i = choose|i: int| 0 <= i < text.len() && !is_space(#[trigger] text[i]);
        assert(rest[i - 1] == text[i]);
        let at = lemma_first_word(rest);
        assert(text[at + 1] == rest[at]);
        if at > 0 {
            assert(text[at] == rest[at - 1]);
        }
        at + 1
    }
}

/// The places at which words start are all there, in order.
proof fn lemma_tokens(text: Seq<char>, from: int)
    requires
        0 <= from,
    ensures
        forall|i: int|
            0 <= i < token_starts_from(text, from).len() ==> starts_token(
                text,
                #[trigger] token_starts_from(text, from)[i],
            ),
        forall|i: int, j: int|
            0 <= i < j < token_starts_from(text, from).len() ==> token_starts_from(text, from)[i] < token_starts_from(
                text,
                from,
            )[j],
        forall|at: int|
            from <= at < text.len() && #[trigger] starts_token(text, at) ==> token_starts_from(text, from).contains(at),
    decreases text.len() - from,
{
    if from < text.len() {
        lemma_tokens(text, from + 1);
        lemma_token_starts(text, from + 1);
        let rest = token_starts_from(text, from + 1);
        let all = token_starts_from(text, from);
        if starts_token(text, from) {
            assert(all == seq![from] + rest);
            assert(all[0] == from);
            assert forall|at: int| from <= at < text.len() && #[trigger] starts_token(text, at) implies all.contains(at) by {
                if at > from {
                    let i = choose|i: int| 0 <= i < rest.len() && rest[i] == at;
                    assert(all[i + 1] == at);
                }
            }
        } else {
            assert(all == rest);
        }
    }
}

/// A place in proportion is the nearest to the part that an offset is of a duration, but never the first and never
/// past the last.
pub proof fn a_proportional_place_is_the_nearest(offset: int, duration: int, count: int)
    requires
        0 < offset < duration,
        count >= 2,
    ensures
        ({
            let place = proportional_place(offset, duration, count);
            &&& 1 <= place <= count - 1
            &&& 1 < place ==> 2 * (place * duration - offset * count) <= duration
            &&& place < count - 1 ==> -duration - 2 < 2 * (place * duration - offset * count)
        }),
{
    let total = offset * count + duration / 2;
    let rounded = total / duration;
    vstd::arithmetic::div_mod::lemma_fundamental_div_mod(total, duration);
    vstd::arithmetic::div_mod::lemma_mod_bound(total, duration);
    assert(rounded * duration == duration * rounded) by (nonlinear_arith);
    let place = proportional_place(offset, duration, count);
    if place < rounded {
        assert(place * duration <= rounded * duration) by (nonlinear_arith)
            requires
                place < rounded,
                duration > 0,
        ;
    } else if place > rounded {
        assert(place * duration >= rounded * duration + duration) by (nonlinear_arith)
            requires
                place >= rounded + 1,
                duration > 0,
        ;
    }
}

} // verus!
