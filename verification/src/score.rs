//! Edits of the music and the sound of a project.

use crate::error::{fault_at, or_else, refusal, refuse, unless, Fault, VideoErrorCode, VideoResult};
use crate::manifest::{
    AudioMix, AudioMixModel, AudioMixTrack, AudioMixTrackModel, CueAnchor, CueAnchorModel, CueRole, DuckingSpec,
    DuckingSpecModel, MediaReference, MediaReferenceModel, MusicCue, MusicCueModel, NarrationBinding,
    NarrationBindingModel, ReviewedScene, SoundAsset, SoundAssetModel, SoundLayer, SoundLayerModel, SourceAsset,
    SourceAssetKind, SourceAssetModel, TimelineClip, TimelineClipModel, TimelineTrack, TimelineTrackModel, TrackKind,
    VideoProjectManifest, VideoProjectManifestModel,
};
use crate::manifest_rules::is_text;
use crate::model::{
    find, find_named, find_place, has_name, holds, kept, kept_from, other_than, place_of, put, put_named,
    remove_named, replace_at, what_is_found_bears_the_name, what_is_kept_keeps_its_order, what_is_kept_stays,
    what_is_put_is_found, with_last, Model, Named,
};
use crate::operations::{absent, refuse_named};
use crate::rules::{identifier_fault, optional_identifier_fault, validate_identifier, validate_optional_identifier};
use crate::text::{text_concat, text_eq};
use crate::time::{addition_fault, on_clock, range_between, range_fault, Microseconds, RationalRate, TimeRange, Validate};
use vstd::prelude::*;

verus! {

// ---------------------------------------------------------------------------------------------
// Cues
// ---------------------------------------------------------------------------------------------
impl CueRole {
    /// Whether the music plays under speech.
    pub fn is_underscore(self) -> (result: bool)
        ensures
            result == (self == CueRole::Bed),
    {
        match self {
            CueRole::Bed => true,
            CueRole::Sting => false,
            CueRole::Outro => false,
        }
    }
}

impl MusicCue {
    /// Whether the cue still waits for its music.
    pub fn needs_generation(&self) -> (result: bool)
        ensures
            result == (self.source_asset_id is None),
    {
        self.source_asset_id.is_none()
    }
}

impl Validate for MusicCue {
    open spec fn fault_of(model: MusicCueModel) -> Option<Fault> {
        or_else(
            identifier_fault(model.id, "music_cues.id"@),
            or_else(
                optional_identifier_fault(model.source_asset_id, "music_cues.source_asset_id"@),
                optional_identifier_fault(model.track_id, "music_cues.track_id"@),
            ),
        )
    }

    fn validate(&self) -> (result: VideoResult<()>) {
        validate_identifier(self.id.as_str(), "music_cues.id")?;
        validate_optional_identifier(&self.source_asset_id, "music_cues.source_asset_id")?;
        validate_optional_identifier(&self.track_id, "music_cues.track_id")
    }
}

/// How a bed gives way to speech.
#[derive(Clone, Copy, Debug, PartialEq, Eq, Structural)]
pub struct BedDucking {
    pub reduction_db_milli: i32,
    pub attack_us: Microseconds,
    pub release_us: Microseconds,
}

impl BedDucking {
    pub open spec fn under(self, speech_track_id: Seq<char>) -> DuckingSpecModel {
        DuckingSpecModel {
            sidechain_track_id: speech_track_id,
            reduction_db_milli: self.reduction_db_milli,
            attack_us: self.attack_us,
            release_us: self.release_us,
        }
    }

    /// The envelope of a bed under a speech track.
    pub fn bed_ducking(self, speech_track_id: &str) -> (envelope: DuckingSpec)
        ensures
            envelope.deep_view() == self.under(speech_track_id@),
    {
        DuckingSpec {
            sidechain_track_id: speech_track_id.to_owned(),
            reduction_db_milli: self.reduction_db_milli,
            attack_us: self.attack_us,
            release_us: self.release_us,
        }
    }
}

/// Whether an artifact is a narration take.
pub open spec fn is_take(bindings: Seq<NarrationBindingModel>, artifact: Option<Seq<char>>) -> bool {
    exists|i: int|
        0 <= i < bindings.len() && artifact == Some((#[trigger] bindings[i]).render_artifact_id)
}

/// Whether a track other than one carries narration.
pub open spec fn carries_speech(m: VideoProjectManifestModel, track: TimelineTrackModel, exclude: Seq<char>) -> bool {
    &&& track.id != exclude
    &&& track.kind == TrackKind::Audio
    &&& exists|i: int|
        0 <= i < track.clips.len() && is_take(
            m.narration_bindings,
            (#[trigger] track.clips[i]).media.render_artifact_id,
        )
}

/// The first track from a place on that carries narration.
pub open spec fn speech_track_from(m: VideoProjectManifestModel, exclude: Seq<char>, index: int) -> Option<Seq<char>>
    decreases m.tracks.len() - index,
{
    if index < 0 || index >= m.tracks.len() {
        None
    } else if carries_speech(m, m.tracks[index], exclude) {
        Some(m.tracks[index].id)
    } else {
        speech_track_from(m, exclude, index + 1)
    }
}

fn is_take_of(bindings: &Vec<NarrationBinding>, artifact: &Option<String>) -> (result: bool)
    ensures
        result == is_take(bindings.deep_view(), artifact.deep_view()),
{
    let ghost model = bindings.deep_view();
    let mut index: usize = 0;
    while index < bindings.len()
        invariant
            index <= bindings.len(),
            model == bindings.deep_view(),
            forall|i: int|
                0 <= i < index ==> artifact.deep_view() != Some((#[trigger] model[i]).render_artifact_id),
        decreases bindings.len() - index,
    {
        assert(model[index as int] == bindings[index as int].deep_view());
        if is_text(artifact, bindings[index].render_artifact_id.as_str()) {
            return true;
        }
        index += 1;
    }
    false
}

fn does_carry_speech(manifest: &VideoProjectManifest, track: &TimelineTrack, exclude_track_id: &str) -> (result: bool)
    ensures
        result == carries_speech(manifest.deep_view(), track.deep_view(), exclude_track_id@),
{
    if text_eq(track.id.as_str(), exclude_track_id) || track.kind != TrackKind::Audio {
        return false;
    }
    let ghost m = manifest.deep_view();
    let ghost clips = track.clips.deep_view();
    let mut index: usize = 0;
    while index < track.clips.len()
        invariant
            index <= track.clips.len(),
            m == manifest.deep_view(),
            clips == track.clips.deep_view(),
            track.id@ != exclude_track_id@,
            track.kind == TrackKind::Audio,
            forall|i: int|
                0 <= i < index ==> !is_take(
                    m.narration_bindings,
                    (#[trigger] clips[i]).media.render_artifact_id,
                ),
        decreases track.clips.len() - index,
    {
        assert(clips[index as int] == track.clips[index as int].deep_view());
        if is_take_of(&manifest.narration_bindings, &track.clips[index].media.render_artifact_id) {
            return true;
        }
        index += 1;
    }
    false
}

/// The audio track carrying narration, which is what a bed ducks against.
///
/// Preferring a track that actually holds a narration take avoids sidechaining a bed to music or
/// to another bed, which would duck against the wrong thing and sound like a fault.
fn speech_track_id(manifest: &VideoProjectManifest, exclude_track_id: &str) -> (result: Option<String>)
    ensures
        result.deep_view() == speech_track_from(manifest.deep_view(), exclude_track_id@, 0),
{
    let ghost m = manifest.deep_view();
    let mut index: usize = 0;
    while index < manifest.tracks.len()
        invariant
            index <= manifest.tracks.len(),
            m == manifest.deep_view(),
            speech_track_from(m, exclude_track_id@, 0) == speech_track_from(m, exclude_track_id@, index as int),
        decreases manifest.tracks.len() - index,
    {
        assert(m.tracks[index as int] == manifest.tracks[index as int].deep_view());
        if does_carry_speech(manifest, &manifest.tracks[index], exclude_track_id) {
            return Some(manifest.tracks[index].id.clone());
        }
        index += 1;
    }
    None
}

/// The mix once a bed plays on a track.
pub open spec fn mix_with_bed(
    mix: Seq<AudioMixTrackModel>,
    track_id: Seq<char>,
    gain_db_milli: i32,
    envelope: DuckingSpecModel,
) -> Seq<AudioMixTrackModel> {
    match place_of::<AudioMixTrack>(mix, track_id) {
        Some(place) => mix.update(
            place,
            (AudioMixTrackModel { gain_db_milli, ducking: Some(envelope), ..mix[place] }),
        ),
        None => mix.push(
            (AudioMixTrackModel { track_id, gain_db_milli, pan_milli: 0, ducking: Some(envelope) }),
        ),
    }
}

/// The mix once music that is no bed plays on a track.
pub open spec fn mix_with_gain(mix: Seq<AudioMixTrackModel>, track_id: Seq<char>, gain_db_milli: i32) -> Seq<
    AudioMixTrackModel,
> {
    match place_of::<AudioMixTrack>(mix, track_id) {
        Some(place) => mix.update(place, (AudioMixTrackModel { gain_db_milli, ..mix[place] })),
        None => mix,
    }
}

pub open spec fn unheard_fault() -> Fault {
    fault_at(
        VideoErrorCode::InvalidCue,
        "a music bed needs narration to duck against"@,
        "operations.cue"@,
    )
}

pub open spec fn set_cue_fault(m: VideoProjectManifestModel, cue: MusicCueModel) -> Option<Fault> {
    or_else(
        MusicCue::fault_of(cue),
        match cue.track_id {
            Some(track_id) => unless(
                cue.role == CueRole::Bed ==> speech_track_from(m, track_id, 0) is Some,
                unheard_fault(),
            ),
            None => None,
        },
    )
}

pub open spec fn set_cue_result(m: VideoProjectManifestModel, cue: MusicCueModel, bed: BedDucking) -> VideoProjectManifestModel {
    VideoProjectManifestModel {
        music_cues: put::<MusicCue>(m.music_cues, cue),
        audio_mix: AudioMixModel {
            tracks: match cue.track_id {
                Some(track_id) => if cue.role == CueRole::Bed {
                    mix_with_bed(
                        m.audio_mix.tracks,
                        track_id,
                        cue.gain_db_milli,
                        bed.under(speech_track_from(m, track_id, 0)->0),
                    )
                } else {
                    mix_with_gain(m.audio_mix.tracks, track_id, cue.gain_db_milli)
                },
                None => m.audio_mix.tracks,
            },
            ..m.audio_mix
        },
        ..m
    }
}

fn mix_bed(mix: &Vec<AudioMixTrack>, track_id: &str, gain_db_milli: i32, envelope: DuckingSpec) -> (result: Vec<
    AudioMixTrack,
>)
    ensures
        result.deep_view() == mix_with_bed(mix.deep_view(), track_id@, gain_db_milli, envelope.deep_view()),
{
    match find_place(mix, track_id) {
        Some(place) => {
            assert(mix.deep_view()[place as int] == mix[place as int].deep_view());
            let track = AudioMixTrack {
                gain_db_milli,
                ducking: Some(envelope),
                ..mix[place].duplicate()
            };
            replace_at(mix, place, track)
        },
        None => with_last(
            mix,
            AudioMixTrack {
                track_id: track_id.to_owned(),
                gain_db_milli,
                pan_milli: 0,
                ducking: Some(envelope),
            },
        ),
    }
}

fn mix_gain(mix: &Vec<AudioMixTrack>, track_id: &str, gain_db_milli: i32) -> (result: Vec<AudioMixTrack>)
    ensures
        result.deep_view() == mix_with_gain(mix.deep_view(), track_id@, gain_db_milli),
{
    match find_place(mix, track_id) {
        Some(place) => {
            assert(mix.deep_view()[place as int] == mix[place as int].deep_view());
            let track = AudioMixTrack { gain_db_milli, ..mix[place].duplicate() };
            replace_at(mix, place, track)
        },
        None => mix.duplicate(),
    }
}

/// Adds or replaces one music cue. A bed placed on a track is given its ducking envelope here rather
/// than left for the author to remember.
pub fn set_music_cue(manifest: &VideoProjectManifest, cue: &MusicCue, bed: BedDucking) -> (result: VideoResult<
    VideoProjectManifest,
>)
    ensures
        refusal(result) == set_cue_fault(manifest.deep_view(), cue.deep_view()),
        result matches Ok(edited) ==> edited.deep_view() == set_cue_result(
            manifest.deep_view(),
            cue.deep_view(),
            bed,
        ),
{
    cue.validate()?;
    let tracks: Vec<AudioMixTrack> = match &cue.track_id {
        Some(track_id) => if cue.role.is_underscore() {
            // The sidechain is the speech track this bed plays under. Choosing it here, from the
            // takes that actually exist, is what makes the envelope real.
            match speech_track_id(manifest, track_id.as_str()) {
                Some(speech) => mix_bed(
                    &manifest.audio_mix.tracks,
                    track_id.as_str(),
                    cue.gain_db_milli,
                    bed.bed_ducking(speech.as_str()),
                ),
                None => {
                    return Err(
                        refuse(
                            VideoErrorCode::InvalidCue,
                            "a music bed needs narration to duck against",
                            "operations.cue",
                        ),
                    );
                },
            }
        } else {
            mix_gain(&manifest.audio_mix.tracks, track_id.as_str(), cue.gain_db_milli)
        },
        None => manifest.audio_mix.tracks.duplicate(),
    };
    let music_cues: Vec<MusicCue> = put_named(&manifest.music_cues, cue.duplicate());
    let audio_mix = AudioMix { tracks, ..manifest.audio_mix.duplicate() };
    Ok(VideoProjectManifest { music_cues, audio_mix, ..manifest.duplicate() })
}

pub open spec fn missing_cue_fault(cue_id: Seq<char>) -> Fault {
    absent("music cue "@, cue_id, " does not exist"@, "operations.cue_id"@)
}

/// Whether a cue plays on a track.
pub open spec fn plays_on(cues: Seq<MusicCueModel>, track_id: Seq<char>) -> bool {
    exists|i: int| 0 <= i < cues.len() && (#[trigger] cues[i]).track_id == Some(track_id)
}

pub open spec fn remove_cue_fault(m: VideoProjectManifestModel, cue_id: Seq<char>) -> Option<Fault> {
    unless(holds::<MusicCue>(m.music_cues, cue_id), missing_cue_fault(cue_id))
}

pub open spec fn remove_cue_result(m: VideoProjectManifestModel, cue_id: Seq<char>) -> VideoProjectManifestModel {
    let place = place_of::<MusicCue>(m.music_cues, cue_id)->0;
    let left = m.music_cues.remove(place);
    VideoProjectManifestModel {
        music_cues: left,
        audio_mix: AudioMixModel {
            tracks: match m.music_cues[place].track_id {
                Some(track_id) => if plays_on(left, track_id) {
                    m.audio_mix.tracks
                } else {
                    kept(m.audio_mix.tracks, other_than::<AudioMixTrack>(track_id))
                },
                None => m.audio_mix.tracks,
            },
            ..m.audio_mix
        },
        ..m
    }
}

fn is_played_on(cues: &Vec<MusicCue>, track_id: &str) -> (result: bool)
    ensures
        result == plays_on(cues.deep_view(), track_id@),
{
    let ghost model = cues.deep_view();
    let mut index: usize = 0;
    while index < cues.len()
        invariant
            index <= cues.len(),
            model == cues.deep_view(),
            forall|i: int| 0 <= i < index ==> (#[trigger] model[i]).track_id != Some(track_id@),
        decreases cues.len() - index,
    {
        assert(model[index as int] == cues[index as int].deep_view());
        if is_text(&cues[index].track_id, track_id) {
            return true;
        }
        index += 1;
    }
    false
}

/// Removes one music cue and the mix track it owned.
pub fn remove_music_cue(manifest: &VideoProjectManifest, cue_id: &str) -> (result: VideoResult<VideoProjectManifest>)
    ensures
        refusal(result) == remove_cue_fault(manifest.deep_view(), cue_id@),
        result matches Ok(edited) ==> edited.deep_view() == remove_cue_result(manifest.deep_view(), cue_id@),
{
    match find_place(&manifest.music_cues, cue_id) {
        Some(place) => {
            let ghost before = manifest.music_cues.deep_view();
            assert(before[place as int] == manifest.music_cues[place as int].deep_view());
            let mut music_cues: Vec<MusicCue> = manifest.music_cues.duplicate();
            assert(music_cues.deep_view().len() == music_cues.len());
            let removed: MusicCue = music_cues.remove(place);
            assert(music_cues.deep_view() =~= before.remove(place as int));
            // The mix entry existed only to carry this cue, so leaving it behind would leave a
            // ducking envelope pointing at music the project no longer has.
            let tracks: Vec<AudioMixTrack> = match &manifest.music_cues[place].track_id {
                Some(track_id) => if is_played_on(&music_cues, track_id.as_str()) {
                    manifest.audio_mix.tracks.duplicate()
                } else {
                    remove_named(&manifest.audio_mix.tracks, track_id.as_str())
                },
                None => manifest.audio_mix.tracks.duplicate(),
            };
            let audio_mix = AudioMix { tracks, ..manifest.audio_mix.duplicate() };
            Ok(VideoProjectManifest { music_cues, audio_mix, ..manifest.duplicate() })
        },
        None => Err(
            refuse_named(
                VideoErrorCode::MissingReference,
                "music cue ",
                cue_id,
                " does not exist",
                "operations.cue_id",
            ),
        ),
    }
}

// ---------------------------------------------------------------------------------------------
// Where a cue starts
// ---------------------------------------------------------------------------------------------
/// The first clip of the tracks from a place on that performs a turn.
pub open spec fn clip_of_turn_from(tracks: Seq<TimelineTrackModel>, turn_id: Seq<char>, track: int, clip: int) -> Option<
    TimelineClipModel,
>
    decreases tracks.len() - track, tracks[track].clips.len() - clip,
{
    if track < 0 || track >= tracks.len() || clip < 0 {
        None
    } else if clip >= tracks[track].clips.len() {
        clip_of_turn_from(tracks, turn_id, track + 1, 0)
    } else if tracks[track].clips[clip].turn_id == Some(turn_id) {
        Some(tracks[track].clips[clip])
    } else {
        clip_of_turn_from(tracks, turn_id, track, clip + 1)
    }
}

/// Whether an artifact is the take of a turn.
pub open spec fn is_turn_take(bindings: Seq<NarrationBindingModel>, artifact: Option<Seq<char>>) -> bool {
    exists|i: int|
        0 <= i < bindings.len() && (#[trigger] bindings[i]).turn_id is Some && artifact == Some(
            bindings[i].render_artifact_id,
        )
}

/// Whether a clip plays the take of a turn.
pub open spec fn performs(m: VideoProjectManifestModel, clip: TimelineClipModel) -> bool {
    is_turn_take(m.narration_bindings, clip.media.render_artifact_id)
}

pub open spec fn clip_end(clip: TimelineClipModel) -> int {
    clip.timeline_start_us.0 + clip.timeline_duration_us.0
}

pub open spec fn later_end(best: Option<int>, end: int) -> Option<int> {
    match best {
        Some(known) => if end > known {
            Some(end)
        } else {
            Some(known)
        },
        None => Some(end),
    }
}

/// The latest end of a performed clip, among the clips of a track from a place on.
pub open spec fn last_word_in(m: VideoProjectManifestModel, clips: Seq<TimelineClipModel>, index: int, best: Option<int>) -> Option<
    int,
>
    decreases clips.len() - index,
{
    if index < 0 || index >= clips.len() {
        best
    } else if performs(m, clips[index]) {
        last_word_in(m, clips, index + 1, later_end(best, clip_end(clips[index])))
    } else {
        last_word_in(m, clips, index + 1, best)
    }
}

pub open spec fn last_word_fault_in(m: VideoProjectManifestModel, clips: Seq<TimelineClipModel>, index: int) -> Option<Fault>
    decreases clips.len() - index,
{
    if index < 0 || index >= clips.len() {
        None
    } else {
        or_else(
            unless(performs(m, clips[index]) ==> on_clock(clip_end(clips[index])), addition_fault()),
            last_word_fault_in(m, clips, index + 1),
        )
    }
}

/// The latest end of a performed clip on the tracks from a place on.
pub open spec fn last_word_from(m: VideoProjectManifestModel, index: int, best: Option<int>) -> Option<int>
    decreases m.tracks.len() - index,
{
    if index < 0 || index >= m.tracks.len() {
        best
    } else {
        last_word_from(m, index + 1, last_word_in(m, m.tracks[index].clips, 0, best))
    }
}

pub open spec fn last_word_fault_from(m: VideoProjectManifestModel, index: int) -> Option<Fault>
    decreases m.tracks.len() - index,
{
    if index < 0 || index >= m.tracks.len() {
        None
    } else {
        or_else(
            last_word_fault_in(m, m.tracks[index].clips, 0),
            last_word_fault_from(m, index + 1),
        )
    }
}

/// Why a cue has no moment to start on.
pub open spec fn cue_start_fault(m: VideoProjectManifestModel, anchor: CueAnchorModel) -> Option<Fault> {
    match anchor {
        CueAnchorModel::Scene { scene_id } => unless(
            holds::<ReviewedScene>(m.reviewed_scenes, scene_id),
            absent("scene "@, scene_id, " does not exist"@, "operations.cue_id"@),
        ),
        CueAnchorModel::Turn { turn_id } => unless(
            clip_of_turn_from(m.tracks, turn_id, 0, 0) is Some,
            absent(
                "dialogue turn "@,
                turn_id,
                " has no narration on the timeline yet"@,
                "operations.cue_id"@,
            ),
        ),
        CueAnchorModel::AfterFinalTurn => or_else(
            last_word_fault_from(m, 0),
            unless(
                last_word_from(m, 0, None) is Some,
                fault_at(
                    VideoErrorCode::MissingReference,
                    "an outro needs narration on the timeline to resolve after"@,
                    "operations.cue_id"@,
                ),
            ),
        ),
    }
}

/// Where a cue starts on the timeline.
pub open spec fn cue_start(m: VideoProjectManifestModel, anchor: CueAnchorModel) -> int {
    match anchor {
        CueAnchorModel::Scene { scene_id } => find::<ReviewedScene>(
            m.reviewed_scenes,
            scene_id,
        )->0.timeline_start_us.0 as int,
        CueAnchorModel::Turn { turn_id } => clip_of_turn_from(
            m.tracks,
            turn_id,
            0,
            0,
        )->0.timeline_start_us.0 as int,
        CueAnchorModel::AfterFinalTurn => last_word_from(m, 0, None)->0,
    }
}

fn find_clip_of_turn(tracks: &Vec<TimelineTrack>, turn_id: &str) -> (result: Option<Microseconds>)
    ensures
        match result {
            Some(start) => clip_of_turn_from(tracks.deep_view(), turn_id@, 0, 0) is Some && clip_of_turn_from(
                tracks.deep_view(),
                turn_id@,
                0,
                0,
            )->0.timeline_start_us == start,
            None => clip_of_turn_from(tracks.deep_view(), turn_id@, 0, 0) is None,
        },
{
    let ghost model = tracks.deep_view();
    let mut track: usize = 0;
    while track < tracks.len()
        invariant
            track <= tracks.len(),
            model == tracks.deep_view(),
            clip_of_turn_from(model, turn_id@, 0, 0) == clip_of_turn_from(model, turn_id@, track as int, 0),
        decreases tracks.len() - track,
    {
        let clips: &Vec<TimelineClip> = &tracks[track].clips;
        assert(model[track as int].clips == clips.deep_view());
        let mut clip: usize = 0;
        while clip < clips.len()
            invariant
                clip <= clips.len(),
                track < tracks.len(),
                model == tracks.deep_view(),
                model[track as int].clips == clips.deep_view(),
                clip_of_turn_from(model, turn_id@, 0, 0) == clip_of_turn_from(
                    model,
                    turn_id@,
                    track as int,
                    clip as int,
                ),
            decreases clips.len() - clip,
        {
            assert(model[track as int].clips[clip as int] == clips[clip as int].deep_view());
            if is_text(&clips[clip].turn_id, turn_id) {
                return Some(clips[clip].timeline_start_us);
            }
            clip += 1;
        }
        track += 1;
    }
    None
}

fn is_take_of_turn(bindings: &Vec<NarrationBinding>, artifact: &Option<String>) -> (result: bool)
    ensures
        result == is_turn_take(bindings.deep_view(), artifact.deep_view()),
{
    let ghost model = bindings.deep_view();
    let mut index: usize = 0;
    while index < bindings.len()
        invariant
            index <= bindings.len(),
            model == bindings.deep_view(),
            forall|i: int|
                0 <= i < index ==> !((#[trigger] model[i]).turn_id is Some && artifact.deep_view() == Some(
                    model[i].render_artifact_id,
                )),
        decreases bindings.len() - index,
    {
        assert(model[index as int] == bindings[index as int].deep_view());
        if bindings[index].turn_id.is_some() && is_text(artifact, bindings[index].render_artifact_id.as_str()) {
            return true;
        }
        index += 1;
    }
    false
}

fn find_last_word(manifest: &VideoProjectManifest) -> (result: VideoResult<Option<i64>>)
    ensures
        refusal(result) == last_word_fault_from(manifest.deep_view(), 0),
        result matches Ok(end) ==> match end {
            Some(instant) => last_word_from(manifest.deep_view(), 0, None) == Some(instant as int),
            None => last_word_from(manifest.deep_view(), 0, None) is None,
        },
{
    let ghost m = manifest.deep_view();
    let mut latest: Option<i64> = None;
    let ghost mut best: Option<int> = None;
    let mut track: usize = 0;
    while track < manifest.tracks.len()
        invariant
            track <= manifest.tracks.len(),
            m == manifest.deep_view(),
            latest is Some <==> best is Some,
            latest matches Some(end) ==> best == Some(end as int),
            last_word_from(m, 0, None) == last_word_from(m, track as int, best),
            last_word_fault_from(m, 0) == last_word_fault_from(m, track as int),
        decreases manifest.tracks.len() - track,
    {
        let clips: &Vec<TimelineClip> = &manifest.tracks[track].clips;
        let ghost model = clips.deep_view();
        assert(m.tracks[track as int].clips == model);
        let ghost entry = best;
        let mut clip: usize = 0;
        while clip < clips.len()
            invariant
                clip <= clips.len(),
                track < manifest.tracks.len(),
                m == manifest.deep_view(),
                model == clips.deep_view(),
                m.tracks[track as int].clips == model,
                latest is Some <==> best is Some,
                latest matches Some(end) ==> best == Some(end as int),
                last_word_in(m, model, 0, entry) == last_word_in(m, model, clip as int, best),
                last_word_fault_in(m, model, 0) == last_word_fault_in(m, model, clip as int),
                last_word_fault_from(m, 0) == last_word_fault_from(m, track as int),
            decreases clips.len() - clip,
        {
            assert(model[clip as int] == clips[clip as int].deep_view());
            if is_take_of_turn(&manifest.narration_bindings, &clips[clip].media.render_artifact_id) {
                let end: Microseconds = clips[clip].timeline_start_us.checked_add(
                    clips[clip].timeline_duration_us,
                )?;
                let later: bool = match latest {
                    Some(known) => end.0 > known,
                    None => true,
                };
                if later {
                    latest = Some(end.0);
                }
                proof {
                    best = later_end(best, end.0 as int);
                }
            }
            clip += 1;
        }
        track += 1;
    }
    Ok(latest)
}

/// Where a cue begins on the project clock.
///
/// Resolving the anchor at placement time, from the timeline as it stands, is what lets a cue be
/// authored before the scenes and takes it refers to are final.
pub fn cue_timeline_start(manifest: &VideoProjectManifest, anchor: &CueAnchor) -> (result: VideoResult<Microseconds>)
    ensures
        refusal(result) == cue_start_fault(manifest.deep_view(), anchor.deep_view()),
        result matches Ok(start) ==> start.0 == cue_start(manifest.deep_view(), anchor.deep_view()),
{
    match anchor {
        CueAnchor::Scene { scene_id } => match find_named(&manifest.reviewed_scenes, scene_id.as_str()) {
            Some(scene) => Ok(scene.timeline_start_us),
            None => Err(
                refuse_named(
                    VideoErrorCode::MissingReference,
                    "scene ",
                    scene_id.as_str(),
                    " does not exist",
                    "operations.cue_id",
                ),
            ),
        },
        CueAnchor::Turn { turn_id } => match find_clip_of_turn(&manifest.tracks, turn_id.as_str()) {
            Some(start) => Ok(start),
            None => Err(
                // A turn with no clip has not been narrated, so there is no moment to start on.
                refuse_named(
                    VideoErrorCode::MissingReference,
                    "dialogue turn ",
                    turn_id.as_str(),
                    " has no narration on the timeline yet",
                    "operations.cue_id",
                ),
            ),
        },
        CueAnchor::AfterFinalTurn => match find_last_word(manifest)? {
            Some(end) => Ok(Microseconds(end)),
            None => Err(
                refuse(
                    VideoErrorCode::MissingReference,
                    "an outro needs narration on the timeline to resolve after",
                    "operations.cue_id",
                ),
            ),
        },
    }
}

// ---------------------------------------------------------------------------------------------
// Placing a cue
// ---------------------------------------------------------------------------------------------
/// Music that is too short for its cue is reported for regeneration.
pub open spec fn fit_fault(cue: MusicCueModel, length: Microseconds) -> Option<Fault> {
    unless(
        cue.target_duration_us.0 <= length.0,
        fault_at(
            VideoErrorCode::CueFitFailed,
            "the generated music is shorter than its cue"@,
            "operations.cue_id"@,
        ),
    )
}

/// Where in the generated music a cue ends: it plays the first stretch, as long as the cue asks.
pub fn fit_cue(cue: &MusicCue, music_duration_us: Microseconds) -> (result: VideoResult<Microseconds>)
    ensures
        refusal(result) == fit_fault(cue.deep_view(), music_duration_us),
        result matches Ok(end) ==> end == cue.target_duration_us,
{
    if cue.target_duration_us.0 > music_duration_us.0 {
        return Err(
            refuse(
                VideoErrorCode::CueFitFailed,
                "the generated music is shorter than its cue",
                "operations.cue_id",
            ),
        );
    }
    Ok(cue.target_duration_us)
}

pub open spec fn music_track_id(cue_id: Seq<char>) -> Seq<char> {
    "music-"@ + cue_id
}

/// The track that a placed cue plays on.
pub open spec fn music_track(m: VideoProjectManifestModel, cue: MusicCueModel, source_asset_id: Seq<char>) -> TimelineTrackModel {
    TimelineTrackModel {
        id: music_track_id(cue.id),
        kind: TrackKind::Audio,
        clips: seq![
            TimelineClipModel {
                id: "music-clip-"@ + cue.id,
                scene_id: None,
                turn_id: None,
                media: MediaReferenceModel {
                    source_asset_id: Some(source_asset_id),
                    render_artifact_id: None,
                },
                source_range: range_between(0, cue.target_duration_us.0 as int),
                timeline_start_us: Microseconds(cue_start(m, cue.anchor) as i64),
                timeline_duration_us: cue.target_duration_us,
                playback_rate: RationalRate { numerator: 1, denominator: 1 },
                gain_db_milli: 0,
                muted: false,
                crop: None,
            },
        ],
        preserve_gaps: false,
    }
}

/// A cue that has found its music and its track.
pub open spec fn placed_cue(cue: MusicCueModel, source_asset_id: Seq<char>) -> MusicCueModel {
    MusicCueModel {
        source_asset_id: Some(source_asset_id),
        track_id: Some(music_track_id(cue.id)),
        ..cue
    }
}

/// The project with the track of a placed cue.
pub open spec fn with_music_track(m: VideoProjectManifestModel, cue: MusicCueModel, source_asset_id: Seq<char>) -> VideoProjectManifestModel {
    VideoProjectManifestModel { tracks: m.tracks.push(music_track(m, cue, source_asset_id)), ..m }
}

/// The rules on the music that a cue is placed from.
pub open spec fn music_source_fault(m: VideoProjectManifestModel, source_asset_id: Seq<char>) -> Option<Fault> {
    match find::<SourceAsset>(m.source_assets, source_asset_id) {
        Some(source) => unless(
            source.kind == SourceAssetKind::SoundArMusic,
            fault_at(
                VideoErrorCode::InvalidCue,
                "a music cue can only be placed from registered soundAr music"@,
                "operations.source_asset_id"@,
            ),
        ),
        None => Some(
            absent("source asset "@, source_asset_id, " does not exist"@, "operations.source_asset_id"@),
        ),
    }
}

/// The rules on the place of a cue on the timeline.
pub open spec fn cue_place_fault(m: VideoProjectManifestModel, cue: MusicCueModel) -> Option<Fault> {
    let end = cue_start(m, cue.anchor) + cue.target_duration_us.0;
    or_else(
        cue_start_fault(m, cue.anchor),
        or_else(
            unless(
                !holds::<TimelineTrack>(m.tracks, music_track_id(cue.id)),
                fault_at(
                    VideoErrorCode::DuplicateId,
                    "timeline track "@ + music_track_id(cue.id) + " already exists"@,
                    "operations.cue_id"@,
                ),
            ),
            or_else(
                unless(on_clock(end), addition_fault()),
                unless(
                    end <= m.timeline_duration_us.0,
                    fault_at(
                        VideoErrorCode::InvalidCue,
                        "the cue does not fit inside the project timeline at its anchor"@,
                        "operations.cue_id"@,
                    ),
                ),
            ),
        ),
    )
}

pub open spec fn place_cue_fault(m: VideoProjectManifestModel, cue_id: Seq<char>, source_asset_id: Seq<char>) -> Option<Fault> {
    match find::<MusicCue>(m.music_cues, cue_id) {
        Some(cue) => or_else(
            unless(
                cue.source_asset_id is None,
                fault_at(
                    VideoErrorCode::InvalidCue,
                    "music cue "@ + cue_id + " already has music placed"@,
                    "operations.cue_id"@,
                ),
            ),
            or_else(
                music_source_fault(m, source_asset_id),
                or_else(
                    fit_fault(
                        cue,
                        find::<SourceAsset>(m.source_assets, source_asset_id)->0.probe.duration_us,
                    ),
                    or_else(
                        cue_place_fault(m, cue),
                        or_else(
                            range_fault(0, cue.target_duration_us.0 as int),
                            set_cue_fault(
                                with_music_track(m, cue, source_asset_id),
                                placed_cue(cue, source_asset_id),
                            ),
                        ),
                    ),
                ),
            ),
        ),
        None => Some(missing_cue_fault(cue_id)),
    }
}

pub open spec fn place_cue_result(
    m: VideoProjectManifestModel,
    cue_id: Seq<char>,
    source_asset_id: Seq<char>,
    bed: BedDucking,
) -> VideoProjectManifestModel {
    let cue = find::<MusicCue>(m.music_cues, cue_id)->0;
    set_cue_result(
        with_music_track(m, cue, source_asset_id),
        placed_cue(cue, source_asset_id),
        bed,
    )
}

fn find_music<'a>(manifest: &'a VideoProjectManifest, source_asset_id: &str) -> (result: VideoResult<&'a SourceAsset>)
    ensures
        refusal(result) == music_source_fault(manifest.deep_view(), source_asset_id@),
        result matches Ok(source) ==> find::<SourceAsset>(
            manifest.deep_view().source_assets,
            source_asset_id@,
        ) == Some(source.deep_view()),
{
    match find_named(&manifest.source_assets, source_asset_id) {
        Some(source) => if source.kind == SourceAssetKind::SoundArMusic {
            Ok(source)
        } else {
            Err(
                refuse(
                    VideoErrorCode::InvalidCue,
                    "a music cue can only be placed from registered soundAr music",
                    "operations.source_asset_id",
                ),
            )
        },
        None => Err(
            refuse_named(
                VideoErrorCode::MissingReference,
                "source asset ",
                source_asset_id,
                " does not exist",
                "operations.source_asset_id",
            ),
        ),
    }
}

fn find_cue_place(manifest: &VideoProjectManifest, cue: &MusicCue) -> (result: VideoResult<Microseconds>)
    ensures
        refusal(result) == cue_place_fault(manifest.deep_view(), cue.deep_view()),
        result matches Ok(start) ==> start.0 == cue_start(manifest.deep_view(), cue.deep_view().anchor),
{
    let start: Microseconds = cue_timeline_start(manifest, &cue.anchor)?;
    let track_id: String = text_concat("music-", cue.id.as_str());
    if has_name(&manifest.tracks, track_id.as_str()) {
        return Err(
            refuse_named(
                VideoErrorCode::DuplicateId,
                "timeline track ",
                track_id.as_str(),
                " already exists",
                "operations.cue_id",
            ),
        );
    }
    let end: Microseconds = start.checked_add(cue.target_duration_us)?;
    if end.0 > manifest.timeline_duration_us.0 {
        return Err(
            refuse(
                VideoErrorCode::InvalidCue,
                "the cue does not fit inside the project timeline at its anchor",
                "operations.cue_id",
            ),
        );
    }
    Ok(start)
}

/// Places generated music on the timeline for a planned cue: fits it to the cue's target, positions
/// it at the cue's anchor, and gives a bed its ducking envelope.
pub fn place_music_cue(manifest: &VideoProjectManifest, cue_id: &str, source_asset_id: &str, bed: BedDucking) -> (result: VideoResult<
    VideoProjectManifest,
>)
    ensures
        refusal(result) == place_cue_fault(manifest.deep_view(), cue_id@, source_asset_id@),
        result matches Ok(edited) ==> edited.deep_view() == place_cue_result(
            manifest.deep_view(),
            cue_id@,
            source_asset_id@,
            bed,
        ),
{
    let ghost m = manifest.deep_view();
    match find_named(&manifest.music_cues, cue_id) {
        Some(cue) => {
            proof {
                crate::model::lemma_place_from::<MusicCue>(m.music_cues, cue_id@, 0);
            }
            if !cue.needs_generation() {
                return Err(
                    refuse_named(
                        VideoErrorCode::InvalidCue,
                        "music cue ",
                        cue_id,
                        " already has music placed",
                        "operations.cue_id",
                    ),
                );
            }
            let source: &SourceAsset = find_music(manifest, source_asset_id)?;
            // Fitting before placing means a cue that could not be made to land on its target is
            // reported for regeneration rather than placed at the wrong length.
            let source_end: Microseconds = fit_cue(cue, source.probe.duration_us)?;
            let start: Microseconds = find_cue_place(manifest, cue)?;
            let source_range: TimeRange = TimeRange::new(0, source_end.0)?;
            let clip = TimelineClip {
                id: text_concat("music-clip-", cue.id.as_str()),
                scene_id: None,
                turn_id: None,
                media: MediaReference {
                    source_asset_id: Some(source_asset_id.to_owned()),
                    render_artifact_id: None,
                },
                source_range,
                timeline_start_us: start,
                timeline_duration_us: cue.target_duration_us,
                playback_rate: RationalRate::one(),
                gain_db_milli: 0,
                muted: false,
                crop: None,
            };
            let ghost clip_model = clip.deep_view();
            let mut clips: Vec<TimelineClip> = Vec::new();
            clips.push(clip);
            assert(clips.deep_view() =~= seq![clip_model]);
            // Music occupies part of the timeline, so this track deliberately does not partition it.
            let track = TimelineTrack {
                id: text_concat("music-", cue.id.as_str()),
                kind: TrackKind::Audio,
                clips,
                preserve_gaps: false,
            };
            assert(track.deep_view() == music_track(m, cue.deep_view(), source_asset_id@));
            let tracks: Vec<TimelineTrack> = with_last(&manifest.tracks, track);
            let prepared = VideoProjectManifest { tracks, ..manifest.duplicate() };
            let placed = MusicCue {
                source_asset_id: Some(source_asset_id.to_owned()),
                track_id: Some(text_concat("music-", cue.id.as_str())),
                ..cue.duplicate()
            };
            set_music_cue(&prepared, &placed, bed)
        },
        None => Err(
            refuse_named(
                VideoErrorCode::MissingReference,
                "music cue ",
                cue_id,
                " does not exist",
                "operations.cue_id",
            ),
        ),
    }
}

// ---------------------------------------------------------------------------------------------
// Sound
// ---------------------------------------------------------------------------------------------
impl Validate for SoundAsset {
    open spec fn fault_of(model: SoundAssetModel) -> Option<Fault> {
        or_else(
            identifier_fault(model.id, "sound_assets.id"@),
            identifier_fault(model.source_asset_id, "sound_assets.source_asset_id"@),
        )
    }

    fn validate(&self) -> (result: VideoResult<()>) {
        validate_identifier(self.id.as_str(), "sound_assets.id")?;
        validate_identifier(self.source_asset_id.as_str(), "sound_assets.source_asset_id")
    }
}

impl Validate for SoundLayer {
    open spec fn fault_of(model: SoundLayerModel) -> Option<Fault> {
        or_else(
            identifier_fault(model.id, "sound_layers.id"@),
            or_else(
                identifier_fault(model.asset_id, "sound_layers.asset_id"@),
                TimeRange::fault_of(model.range),
            ),
        )
    }

    fn validate(&self) -> (result: VideoResult<()>) {
        validate_identifier(self.id.as_str(), "sound_layers.id")?;
        validate_identifier(self.asset_id.as_str(), "sound_layers.asset_id")?;
        self.range.validate()
    }
}

/// Whether a managed source is already the sound of another name.
pub open spec fn is_labelled(assets: Seq<SoundAssetModel>, source_asset_id: Seq<char>, asset_id: Seq<char>) -> bool {
    exists|i: int|
        0 <= i < assets.len() && (#[trigger] assets[i]).source_asset_id == source_asset_id && assets[i].id
            != asset_id
}

pub open spec fn sound_asset(source: SourceAssetModel, asset_id: Seq<char>, name: Seq<char>, tags: Seq<Seq<char>>) -> SoundAssetModel {
    SoundAssetModel {
        id: asset_id,
        name,
        source_asset_id: source.id,
        tags,
        created_at: source.provenance.imported_at,
    }
}

pub open spec fn register_fault(
    m: VideoProjectManifestModel,
    asset_id: Seq<char>,
    source_asset_id: Seq<char>,
    name: Seq<char>,
    tags: Seq<Seq<char>>,
) -> Option<Fault> {
    match find::<SourceAsset>(m.source_assets, source_asset_id) {
        Some(source) => or_else(
            unless(
                source.probe.has_audio,
                fault_at(
                    VideoErrorCode::InvalidAsset,
                    "sound design needs media that actually contains audio"@,
                    "operations.source_asset_id"@,
                ),
            ),
            or_else(
                unless(
                    !is_labelled(m.sound_assets, source_asset_id, asset_id),
                    fault_at(
                        VideoErrorCode::DuplicateId,
                        "that managed source is already registered as a sound asset"@,
                        "operations.source_asset_id"@,
                    ),
                ),
                SoundAsset::fault_of(sound_asset(source, asset_id, name, tags)),
            ),
        ),
        None => Some(
            absent(
                "source asset "@,
                source_asset_id,
                " is not registered in this project"@,
                "operations.source_asset_id"@,
            ),
        ),
    }
}

pub open spec fn register_result(
    m: VideoProjectManifestModel,
    asset_id: Seq<char>,
    source_asset_id: Seq<char>,
    name: Seq<char>,
    tags: Seq<Seq<char>>,
) -> VideoProjectManifestModel {
    VideoProjectManifestModel {
        sound_assets: put::<SoundAsset>(
            m.sound_assets,
            sound_asset(find::<SourceAsset>(m.source_assets, source_asset_id)->0, asset_id, name, tags),
        ),
        ..m
    }
}

fn is_source_labelled(assets: &Vec<SoundAsset>, source_asset_id: &str, asset_id: &str) -> (result: bool)
    ensures
        result == is_labelled(assets.deep_view(), source_asset_id@, asset_id@),
{
    let ghost model = assets.deep_view();
    let mut index: usize = 0;
    while index < assets.len()
        invariant
            index <= assets.len(),
            model == assets.deep_view(),
            forall|i: int|
                0 <= i < index ==> !((#[trigger] model[i]).source_asset_id == source_asset_id@ && model[i].id
                    != asset_id@),
        decreases assets.len() - index,
    {
        assert(model[index as int] == assets[index as int].deep_view());
        if text_eq(assets[index].source_asset_id.as_str(), source_asset_id) && !text_eq(
            assets[index].id.as_str(),
            asset_id,
        ) {
            return true;
        }
        index += 1;
    }
    false
}

/// Registers already-imported managed media as a tagged sound-design asset.
///
/// One managed source is one sound. Registering it twice would let two labels drift apart while
/// describing identical audio.
pub fn register_sound_asset(
    manifest: &VideoProjectManifest,
    asset_id: &str,
    source_asset_id: &str,
    name: &str,
    tags: &Vec<String>,
) -> (result: VideoResult<VideoProjectManifest>)
    ensures
        refusal(result) == register_fault(
            manifest.deep_view(),
            asset_id@,
            source_asset_id@,
            name@,
            tags.deep_view(),
        ),
        result matches Ok(edited) ==> edited.deep_view() == register_result(
            manifest.deep_view(),
            asset_id@,
            source_asset_id@,
            name@,
            tags.deep_view(),
        ),
{
    match find_named(&manifest.source_assets, source_asset_id) {
        Some(source) => {
            proof {
                crate::model::lemma_place_from::<SourceAsset>(
                    manifest.deep_view().source_assets,
                    source_asset_id@,
                    0,
                );
            }
            if !source.probe.has_audio {
                return Err(
                    refuse(
                        VideoErrorCode::InvalidAsset,
                        "sound design needs media that actually contains audio",
                        "operations.source_asset_id",
                    ),
                );
            }
            if is_source_labelled(&manifest.sound_assets, source_asset_id, asset_id) {
                return Err(
                    refuse(
                        VideoErrorCode::DuplicateId,
                        "that managed source is already registered as a sound asset",
                        "operations.source_asset_id",
                    ),
                );
            }
            let asset = SoundAsset {
                id: asset_id.to_owned(),
                name: name.to_owned(),
                source_asset_id: source_asset_id.to_owned(),
                tags: tags.duplicate(),
                created_at: source.provenance.imported_at.clone(),
            };
            asset.validate()?;
            let sound_assets: Vec<SoundAsset> = put_named(&manifest.sound_assets, asset);
            Ok(VideoProjectManifest { sound_assets, ..manifest.duplicate() })
        },
        None => Err(
            refuse_named(
                VideoErrorCode::MissingReference,
                "source asset ",
                source_asset_id,
                " is not registered in this project",
                "operations.source_asset_id",
            ),
        ),
    }
}

pub open spec fn remove_asset_fault(m: VideoProjectManifestModel, asset_id: Seq<char>) -> Option<Fault> {
    unless(
        holds::<SoundAsset>(m.sound_assets, asset_id),
        absent("sound asset "@, asset_id, " does not exist"@, "operations.asset_id"@),
    )
}

/// What keeps every placement of another sound.
pub open spec fn uses_of_others(asset_id: Seq<char>) -> spec_fn(SoundLayerModel) -> bool {
    |layer: SoundLayerModel| layer.asset_id != asset_id
}

pub open spec fn remove_asset_result(m: VideoProjectManifestModel, asset_id: Seq<char>) -> VideoProjectManifestModel {
    VideoProjectManifestModel {
        sound_assets: kept(m.sound_assets, other_than::<SoundAsset>(asset_id)),
        sound_layers: kept(m.sound_layers, uses_of_others(asset_id)),
        ..m
    }
}

/// Removes one sound-design asset and every placement that used it.
pub fn remove_sound_asset(manifest: &VideoProjectManifest, asset_id: &str) -> (result: VideoResult<VideoProjectManifest>)
    ensures
        refusal(result) == remove_asset_fault(manifest.deep_view(), asset_id@),
        result matches Ok(edited) ==> edited.deep_view() == remove_asset_result(manifest.deep_view(), asset_id@),
{
    if !has_name(&manifest.sound_assets, asset_id) {
        return Err(
            refuse_named(
                VideoErrorCode::MissingReference,
                "sound asset ",
                asset_id,
                " does not exist",
                "operations.asset_id",
            ),
        );
    }
    let sound_assets: Vec<SoundAsset> = remove_named(&manifest.sound_assets, asset_id);
    // A placement without its asset cannot be rendered, so removing the sound removes its uses.
    let ghost model = manifest.sound_layers.deep_view();
    let ghost keep = uses_of_others(asset_id@);
    let mut sound_layers: Vec<SoundLayer> = Vec::new();
    let mut index: usize = 0;
    assert(sound_layers.deep_view() + kept(model, keep) =~= kept(model, keep));
    while index < manifest.sound_layers.len()
        invariant
            index <= manifest.sound_layers.len(),
            model == manifest.sound_layers.deep_view(),
            keep == uses_of_others(asset_id@),
            sound_layers.deep_view() + kept_from(model, keep, index as int) == kept(model, keep),
        decreases manifest.sound_layers.len() - index,
    {
        let layer: &SoundLayer = &manifest.sound_layers[index];
        let ghost own = model[index as int];
        assert(own == layer.deep_view());
        if !text_eq(layer.asset_id.as_str(), asset_id) {
            let ghost before = sound_layers.deep_view();
            let ghost rest = kept_from(model, keep, index + 1);
            sound_layers.push(layer.duplicate());
            assert(sound_layers.deep_view() =~= before.push(own));
            assert(sound_layers.deep_view() + rest =~= before + (seq![own] + rest));
        }
        index += 1;
    }
    assert(sound_layers.deep_view() =~= kept(model, keep));
    Ok(VideoProjectManifest { sound_assets, sound_layers, ..manifest.duplicate() })
}

pub open spec fn set_sound_fault(m: VideoProjectManifestModel, layer: SoundLayerModel) -> Option<Fault> {
    or_else(
        SoundLayer::fault_of(layer),
        unless(
            holds::<SoundAsset>(m.sound_assets, layer.asset_id),
            absent("sound asset "@, layer.asset_id, " is not registered"@, "operations.layer.asset_id"@),
        ),
    )
}

pub open spec fn set_sound_result(m: VideoProjectManifestModel, layer: SoundLayerModel) -> VideoProjectManifestModel {
    VideoProjectManifestModel { sound_layers: put::<SoundLayer>(m.sound_layers, layer), ..m }
}

/// Adds or replaces one sound-design placement. Placements use registered sounds only.
pub fn set_sound_layer(manifest: &VideoProjectManifest, layer: &SoundLayer) -> (result: VideoResult<VideoProjectManifest>)
    ensures
        refusal(result) == set_sound_fault(manifest.deep_view(), layer.deep_view()),
        result matches Ok(edited) ==> edited.deep_view() == set_sound_result(
            manifest.deep_view(),
            layer.deep_view(),
        ),
{
    layer.validate()?;
    if !has_name(&manifest.sound_assets, layer.asset_id.as_str()) {
        return Err(
            refuse_named(
                VideoErrorCode::MissingReference,
                "sound asset ",
                layer.asset_id.as_str(),
                " is not registered",
                "operations.layer.asset_id",
            ),
        );
    }
    let sound_layers: Vec<SoundLayer> = put_named(&manifest.sound_layers, layer.duplicate());
    Ok(VideoProjectManifest { sound_layers, ..manifest.duplicate() })
}

pub open spec fn remove_sound_fault(m: VideoProjectManifestModel, layer_id: Seq<char>) -> Option<Fault> {
    unless(
        holds::<SoundLayer>(m.sound_layers, layer_id),
        absent("sound placement "@, layer_id, " does not exist"@, "operations.layer_id"@),
    )
}

pub open spec fn remove_sound_result(m: VideoProjectManifestModel, layer_id: Seq<char>) -> VideoProjectManifestModel {
    VideoProjectManifestModel {
        sound_layers: kept(m.sound_layers, other_than::<SoundLayer>(layer_id)),
        ..m
    }
}

/// Removes one sound-design placement.
pub fn remove_sound_layer(manifest: &VideoProjectManifest, layer_id: &str) -> (result: VideoResult<VideoProjectManifest>)
    ensures
        refusal(result) == remove_sound_fault(manifest.deep_view(), layer_id@),
        result matches Ok(edited) ==> edited.deep_view() == remove_sound_result(manifest.deep_view(), layer_id@),
{
    if !has_name(&manifest.sound_layers, layer_id) {
        return Err(
            refuse_named(
                VideoErrorCode::MissingReference,
                "sound placement ",
                layer_id,
                " does not exist",
                "operations.layer_id",
            ),
        );
    }
    let sound_layers: Vec<SoundLayer> = remove_named(&manifest.sound_layers, layer_id);
    Ok(VideoProjectManifest { sound_layers, ..manifest.duplicate() })
}

// ---------------------------------------------------------------------------------------------
// What a cue and a sound keep to
// ---------------------------------------------------------------------------------------------
/// Whether a clip plays the take of a turn that a binding names.
pub open spec fn plays_take(clip: TimelineClipModel, binding: NarrationBindingModel) -> bool {
    binding.turn_id is Some && clip.media.render_artifact_id == Some(binding.render_artifact_id)
}

/// A cue anchored after the final turn starts where no narration follows: on every track, each clip that plays
/// the take of a turn has ended by then, and one of them ends exactly there. It is refused where no take plays.
pub proof fn an_outro_follows_the_last_word(m: VideoProjectManifestModel) -> (last: (int, int, int))
    ensures
        cue_start_fault(m, CueAnchorModel::AfterFinalTurn) is None ==> {
            let (track, clip, binding) = last;
            let start = cue_start(m, CueAnchorModel::AfterFinalTurn);
            &&& 0 <= track < m.tracks.len()
            &&& 0 <= clip < m.tracks[track].clips.len()
            &&& 0 <= binding < m.narration_bindings.len()
            &&& plays_take(m.tracks[track].clips[clip], m.narration_bindings[binding])
            &&& m.tracks[track].clips[clip].timeline_start_us.0 + m.tracks[track].clips[clip].timeline_duration_us.0
                == start
            &&& forall|t: int, c: int, b: int|
                0 <= t < m.tracks.len() && 0 <= c < m.tracks[t].clips.len() && 0 <= b < m.narration_bindings.len()
                    && #[trigger] plays_take(m.tracks[t].clips[c], m.narration_bindings[b])
                    ==> m.tracks[t].clips[c].timeline_start_us.0 + m.tracks[t].clips[c].timeline_duration_us.0 <= start
        },
        (forall|t: int, c: int, b: int|
            0 <= t < m.tracks.len() && 0 <= c < m.tracks[t].clips.len() && 0 <= b < m.narration_bindings.len()
                ==> !#[trigger] plays_take(m.tracks[t].clips[c], m.narration_bindings[b])) ==> cue_start_fault(
            m,
            CueAnchorModel::AfterFinalTurn,
        ) is Some,
{
    let (track, clip) = lemma_last_word_from(m, 0, None);
    if last_word_from(m, 0, None) is Some {
        assert(performs(m, m.tracks[track].clips[clip]));
        let artifact = m.tracks[track].clips[clip].media.render_artifact_id;
        let binding = choose|b: int|
            0 <= b < m.narration_bindings.len() && (#[trigger] m.narration_bindings[b]).turn_id is Some && artifact
                == Some(m.narration_bindings[b].render_artifact_id);
        assert(plays_take(m.tracks[track].clips[clip], m.narration_bindings[binding]));
        assert forall|t: int, c: int, b: int|
            0 <= t < m.tracks.len() && 0 <= c < m.tracks[t].clips.len() && 0 <= b < m.narration_bindings.len()
                && #[trigger] plays_take(m.tracks[t].clips[c], m.narration_bindings[b])
            implies m.tracks[t].clips[c].timeline_start_us.0 + m.tracks[t].clips[c].timeline_duration_us.0
            <= last_word_from(m, 0, None)->0 by {
            assert(performs(m, m.tracks[t].clips[c]));
        }
        (track, clip, binding)
    } else {
        (0, 0, 0)
    }
}

proof fn lemma_last_word_in(m: VideoProjectManifestModel, clips: Seq<TimelineClipModel>, from: int, best: Option<int>) -> (clip: int)
    requires
        0 <= from <= clips.len(),
    ensures
        ({
            let found = last_word_in(m, clips, from, best);
            &&& best is Some ==> found is Some && best->0 <= found->0
            &&& forall|c: int|
                from <= c < clips.len() && performs(m, #[trigger] clips[c]) ==> found is Some && clip_end(clips[c])
                    <= found->0
            &&& found != best ==> from <= clip < clips.len() && performs(m, clips[clip]) && found == Some(
                clip_end(clips[clip]),
            )
        }),
    decreases clips.len() - from,
{
    if from < clips.len() {
        let next = if performs(m, clips[from]) {
            later_end(best, clip_end(clips[from]))
        } else {
            best
        };
        let clip = lemma_last_word_in(m, clips, from + 1, next);
        if last_word_in(m, clips, from + 1, next) == next {
            from
        } else {
            clip
        }
    } else {
        from
    }
}

proof fn lemma_last_word_from(m: VideoProjectManifestModel, from: int, best: Option<int>) -> (place: (int, int))
    requires
        0 <= from <= m.tracks.len(),
    ensures
        ({
            let found = last_word_from(m, from, best);
            &&& best is Some ==> found is Some && best->0 <= found->0
            &&& forall|t: int, c: int|
                from <= t < m.tracks.len() && 0 <= c < m.tracks[t].clips.len() && performs(
                    m,
                    #[trigger] m.tracks[t].clips[c],
                ) ==> found is Some && clip_end(m.tracks[t].clips[c]) <= found->0
            &&& found != best ==> from <= place.0 < m.tracks.len() && 0 <= place.1 < m.tracks[place.0].clips.len()
                && performs(m, m.tracks[place.0].clips[place.1]) && found == Some(
                clip_end(m.tracks[place.0].clips[place.1]),
            )
        }),
    decreases m.tracks.len() - from,
{
    if from < m.tracks.len() {
        let clips = m.tracks[from].clips;
        let next = last_word_in(m, clips, 0, best);
        let clip = lemma_last_word_in(m, clips, 0, best);
        let place = lemma_last_word_from(m, from + 1, next);
        assert forall|t: int, c: int|
            from <= t < m.tracks.len() && 0 <= c < m.tracks[t].clips.len() && performs(
                m,
                #[trigger] m.tracks[t].clips[c],
            ) implies last_word_from(m, from, best) is Some && clip_end(m.tracks[t].clips[c]) <= last_word_from(
            m,
            from,
            best,
        )->0 by {
            if t == from {
                assert(performs(m, clips[c]));
            }
        }
        if last_word_from(m, from + 1, next) == next {
            (from, clip)
        } else {
            place
        }
    } else {
        (from, 0)
    }
}

/// A cue anchored to a turn starts with the first clip that performs it, and one anchored to a scene with the
/// scene; both are refused where there is none.
pub proof fn a_cue_starts_with_its_anchor(m: VideoProjectManifestModel, id: Seq<char>) -> (place: (int, int))
    ensures
        cue_start_fault(m, CueAnchorModel::Turn { turn_id: id }) is None <==> exists|t: int, c: int|
            0 <= t < m.tracks.len() && 0 <= c < m.tracks[t].clips.len() && (#[trigger] m.tracks[t].clips[c]).turn_id
                == Some(id),
        cue_start_fault(m, CueAnchorModel::Turn { turn_id: id }) is None ==> {
            let (track, clip) = place;
            &&& 0 <= track < m.tracks.len()
            &&& 0 <= clip < m.tracks[track].clips.len()
            &&& m.tracks[track].clips[clip].turn_id == Some(id)
            &&& cue_start(m, CueAnchorModel::Turn { turn_id: id }) == m.tracks[track].clips[clip].timeline_start_us.0
            &&& forall|t: int, c: int|
                0 <= t < m.tracks.len() && 0 <= c < m.tracks[t].clips.len() && (t < track || (t == track && c < clip))
                    ==> (#[trigger] m.tracks[t].clips[c]).turn_id != Some(id)
        },
        cue_start_fault(m, CueAnchorModel::Scene { scene_id: id }) is None <==> exists|i: int|
            0 <= i < m.reviewed_scenes.len() && (#[trigger] m.reviewed_scenes[i]).id == id,
        cue_start_fault(m, CueAnchorModel::Scene { scene_id: id }) is None ==> exists|i: int|
            0 <= i < m.reviewed_scenes.len() && (#[trigger] m.reviewed_scenes[i]).id == id
                && m.reviewed_scenes[i].timeline_start_us.0 == cue_start(m, CueAnchorModel::Scene { scene_id: id }),
{
    what_is_found_bears_the_name::<ReviewedScene>(m.reviewed_scenes, id);
    match place_of::<ReviewedScene>(m.reviewed_scenes, id) {
        Some(at) => {
            assert(m.reviewed_scenes[at].id == id);
        },
        None => {
            assert forall|i: int| 0 <= i < m.reviewed_scenes.len() implies (#[trigger] m.reviewed_scenes[i]).id != id by {
                assert(ReviewedScene::name_of(m.reviewed_scenes[i]) != id);
            }
        },
    }
    let place = lemma_clip_of_turn(m.tracks, id, 0, 0);
    if clip_of_turn_from(m.tracks, id, 0, 0) is Some {
        assert(m.tracks[place.0].clips[place.1].turn_id == Some(id));
    }
    place
}

proof fn lemma_clip_of_turn(tracks: Seq<TimelineTrackModel>, turn_id: Seq<char>, track: int, clip: int) -> (place: (int, int))
    requires
        0 <= track <= tracks.len(),
        track < tracks.len() ==> 0 <= clip <= tracks[track].clips.len(),
        0 <= clip,
    ensures
        match clip_of_turn_from(tracks, turn_id, track, clip) {
            Some(found) => {
                &&& track <= place.0 < tracks.len()
                &&& 0 <= place.1 < tracks[place.0].clips.len()
                &&& place.0 == track ==> clip <= place.1
                &&& found == tracks[place.0].clips[place.1]
                &&& found.turn_id == Some(turn_id)
                &&& forall|t: int, c: int|
                    track <= t < tracks.len() && (t == track ==> clip <= c) && 0 <= c < tracks[t].clips.len() && (t
                        < place.0 || (t == place.0 && c < place.1)) ==> (#[trigger] tracks[t].clips[c]).turn_id != Some(
                        turn_id,
                    )
            },
            None => forall|t: int, c: int|
                track <= t < tracks.len() && (t == track ==> clip <= c) && 0 <= c < tracks[t].clips.len()
                    ==> (#[trigger] tracks[t].clips[c]).turn_id != Some(turn_id),
        },
    decreases tracks.len() - track, tracks[track].clips.len() - clip,
{
    if track >= tracks.len() {
        (track, clip)
    } else if clip >= tracks[track].clips.len() {
        lemma_clip_of_turn(tracks, turn_id, track + 1, 0)
    } else if tracks[track].clips[clip].turn_id == Some(turn_id) {
        (track, clip)
    } else {
        lemma_clip_of_turn(tracks, turn_id, track, clip + 1)
    }
}

/// A placed cue plays its music from the start, at the music's own speed, for as long as the cue asks and no
/// longer than the music or the timeline goes. It starts where its anchor says, on a new audio track behind all
/// others, which stay as they were, and the cue knows its music and its track.
pub proof fn a_placed_cue_plays_its_music(
    m: VideoProjectManifestModel,
    cue_id: Seq<char>,
    source_asset_id: Seq<char>,
    bed: BedDucking,
)
    requires
        place_cue_fault(m, cue_id, source_asset_id) is None,
    ensures
        ({
            let after = place_cue_result(m, cue_id, source_asset_id, bed);
            let cue = find::<MusicCue>(m.music_cues, cue_id)->0;
            let placed = find::<MusicCue>(after.music_cues, cue_id);
            let source = find::<SourceAsset>(m.source_assets, source_asset_id);
            let track = after.tracks.last();
            let clip = track.clips[0];
            &&& find::<MusicCue>(m.music_cues, cue_id) is Some
            &&& cue.source_asset_id is None
            &&& source is Some && source->0.kind == SourceAssetKind::SoundArMusic
            &&& after.tracks.len() == m.tracks.len() + 1
            &&& forall|t: int| 0 <= t < m.tracks.len() ==> #[trigger] after.tracks[t] == m.tracks[t]
            &&& forall|t: int| 0 <= t < m.tracks.len() ==> (#[trigger] m.tracks[t]).id != track.id
            &&& track.kind == TrackKind::Audio
            &&& track.clips.len() == 1
            &&& clip.media.source_asset_id == Some(source_asset_id)
            &&& clip.media.render_artifact_id is None
            &&& clip.source_range.start_us.0 == 0
            &&& clip.source_range.end_us == cue.target_duration_us
            &&& clip.timeline_duration_us == cue.target_duration_us
            &&& clip.playback_rate.numerator == clip.playback_rate.denominator
            &&& !clip.muted
            &&& clip.timeline_start_us.0 == cue_start(m, cue.anchor)
            &&& 0 < cue.target_duration_us.0 <= source->0.probe.duration_us.0
            &&& clip.timeline_start_us.0 + clip.timeline_duration_us.0 <= m.timeline_duration_us.0
            &&& placed is Some
            &&& placed->0.source_asset_id == Some(source_asset_id)
            &&& placed->0.track_id == Some(track.id)
            &&& placed->0 == MusicCueModel {
                source_asset_id: placed->0.source_asset_id,
                track_id: placed->0.track_id,
                ..cue
            }
            &&& forall|other: Seq<char>|
                other != cue_id ==> #[trigger] find::<MusicCue>(after.music_cues, other) == find::<MusicCue>(
                    m.music_cues,
                    other,
                )
            &&& after.timeline_duration_us == m.timeline_duration_us
            &&& after.captions == m.captions
            &&& after.reviewed_scenes == m.reviewed_scenes
        }),
{
    let cue = find::<MusicCue>(m.music_cues, cue_id)->0;
    what_is_found_bears_the_name::<MusicCue>(m.music_cues, cue_id);
    what_is_found_bears_the_name::<TimelineTrack>(m.tracks, music_track_id(cue.id));
    assert(cue.id == cue_id);
    lemma_anchor_on_clock(m, cue.anchor);
    let placed = placed_cue(cue, source_asset_id);
    assert(MusicCue::name_of(placed) == cue_id);
    what_is_put_is_found::<MusicCue>(m.music_cues, placed);
    assert forall|t: int| 0 <= t < m.tracks.len() implies (#[trigger] m.tracks[t]).id != music_track_id(cue.id) by {
        assert(TimelineTrack::name_of(m.tracks[t]) != music_track_id(cue.id));
    }
}

proof fn lemma_anchor_on_clock(m: VideoProjectManifestModel, anchor: CueAnchorModel)
    requires
        cue_start_fault(m, anchor) is None,
    ensures
        on_clock(cue_start(m, anchor)),
{
    if anchor is AfterFinalTurn {
        let (t, c) = lemma_last_word_from(m, 0, None);
        lemma_last_words_on_clock(m, 0, t, c);
    }
}

proof fn lemma_last_words_on_clock(m: VideoProjectManifestModel, from: int, track: int, clip: int)
    requires
        0 <= from <= track < m.tracks.len(),
        0 <= clip < m.tracks[track].clips.len(),
        performs(m, m.tracks[track].clips[clip]),
        last_word_fault_from(m, from) is None,
    ensures
        on_clock(clip_end(m.tracks[track].clips[clip])),
    decreases track - from,
{
    if from < track {
        lemma_last_words_on_clock(m, from + 1, track, clip);
    } else {
        lemma_last_word_on_clock(m, m.tracks[track].clips, 0, clip);
    }
}

proof fn lemma_last_word_on_clock(m: VideoProjectManifestModel, clips: Seq<TimelineClipModel>, from: int, clip: int)
    requires
        0 <= from <= clip < clips.len(),
        performs(m, clips[clip]),
        last_word_fault_in(m, clips, from) is None,
    ensures
        on_clock(clip_end(clips[clip])),
    decreases clip - from,
{
    if from < clip {
        lemma_last_word_on_clock(m, clips, from + 1, clip);
    }
}

/// A bed on a track gives way to speech: the track is mixed at the cue's gain and ducks, as it was asked to,
/// against an audio track other than its own that plays a narration take. Other tracks are mixed as before.
pub proof fn a_bed_gives_way_to_speech(m: VideoProjectManifestModel, cue: MusicCueModel, bed: BedDucking) -> (speech: int)
    requires
        set_cue_fault(m, cue) is None,
        cue.role == CueRole::Bed,
        cue.track_id is Some,
    ensures
        ({
            let after = set_cue_result(m, cue, bed);
            let mixed = find::<AudioMixTrack>(after.audio_mix.tracks, cue.track_id->0);
            let ducking = mixed->0.ducking;
            &&& mixed is Some
            &&& mixed->0.gain_db_milli == cue.gain_db_milli
            &&& ducking is Some
            &&& ducking->0.reduction_db_milli == bed.reduction_db_milli
            &&& ducking->0.attack_us == bed.attack_us
            &&& ducking->0.release_us == bed.release_us
            &&& 0 <= speech < m.tracks.len()
            &&& ducking->0.sidechain_track_id == m.tracks[speech].id
            &&& m.tracks[speech].kind == TrackKind::Audio
            &&& m.tracks[speech].id != cue.track_id->0
            &&& exists|c: int, b: int|
                0 <= c < m.tracks[speech].clips.len() && 0 <= b < m.narration_bindings.len()
                    && #[trigger] m.tracks[speech].clips[c].media.render_artifact_id == Some(
                    #[trigger] m.narration_bindings[b].render_artifact_id,
                )
            &&& forall|other: Seq<char>|
                other != cue.track_id->0 ==> #[trigger] find::<AudioMixTrack>(after.audio_mix.tracks, other) == find::<
                    AudioMixTrack,
                >(m.audio_mix.tracks, other)
            &&& find::<MusicCue>(after.music_cues, cue.id) == Some(cue)
            &&& after.tracks == m.tracks
        }),
{
    let track_id = cue.track_id->0;
    let speech = lemma_speech_track(m, track_id, 0);
    let envelope = bed.under(m.tracks[speech].id);
    let before = m.audio_mix.tracks;
    what_is_found_bears_the_name::<AudioMixTrack>(before, track_id);
    let mixed = match place_of::<AudioMixTrack>(before, track_id) {
        Some(place) => AudioMixTrackModel {
            gain_db_milli: cue.gain_db_milli,
            ducking: Some(envelope),
            ..before[place]
        },
        None => AudioMixTrackModel {
            track_id,
            gain_db_milli: cue.gain_db_milli,
            pan_milli: 0,
            ducking: Some(envelope),
        },
    };
    assert(AudioMixTrack::name_of(mixed) == track_id);
    assert(set_cue_result(m, cue, bed).audio_mix.tracks == put::<AudioMixTrack>(before, mixed));
    what_is_put_is_found::<AudioMixTrack>(before, mixed);
    what_is_put_is_found::<MusicCue>(m.music_cues, cue);
    assert(MusicCue::name_of(cue) == cue.id);
    let c = choose|c: int|
        0 <= c < m.tracks[speech].clips.len() && is_take(
            m.narration_bindings,
            (#[trigger] m.tracks[speech].clips[c]).media.render_artifact_id,
        );
    let artifact = m.tracks[speech].clips[c].media.render_artifact_id;
    let b = choose|b: int|
        0 <= b < m.narration_bindings.len() && artifact == Some((#[trigger] m.narration_bindings[b]).render_artifact_id);
    assert(m.tracks[speech].clips[c].media.render_artifact_id == Some(m.narration_bindings[b].render_artifact_id));
    speech
}

proof fn lemma_speech_track(m: VideoProjectManifestModel, exclude: Seq<char>, from: int) -> (place: int)
    requires
        0 <= from <= m.tracks.len(),
    ensures
        match speech_track_from(m, exclude, from) {
            Some(id) => from <= place < m.tracks.len() && m.tracks[place].id == id && carries_speech(
                m,
                m.tracks[place],
                exclude,
            ),
            None => true,
        },
    decreases m.tracks.len() - from,
{
    if from < m.tracks.len() && !carries_speech(m, m.tracks[from], exclude) {
        lemma_speech_track(m, exclude, from + 1)
    } else {
        from
    }
}

/// Music that is no bed never ducks on its own account: setting it changes the gain of its track and nothing
/// else of the mix.
pub proof fn a_sting_only_sets_its_gain(m: VideoProjectManifestModel, cue: MusicCueModel, bed: BedDucking, index: int)
    requires
        cue.role != CueRole::Bed,
        0 <= index < m.audio_mix.tracks.len(),
    ensures
        ({
            let after = set_cue_result(m, cue, bed);
            let mixed = after.audio_mix.tracks[index];
            &&& after.audio_mix.tracks.len() == m.audio_mix.tracks.len()
            &&& mixed == AudioMixTrackModel { gain_db_milli: mixed.gain_db_milli, ..m.audio_mix.tracks[index] }
            &&& mixed.gain_db_milli == m.audio_mix.tracks[index].gain_db_milli || (mixed.gain_db_milli
                == cue.gain_db_milli && cue.track_id == Some(mixed.track_id))
            &&& cue.track_id is Some && find::<AudioMixTrack>(m.audio_mix.tracks, cue.track_id->0) is Some ==> find::<
                AudioMixTrack,
            >(after.audio_mix.tracks, cue.track_id->0)->0.gain_db_milli == cue.gain_db_milli
            &&& find::<MusicCue>(after.music_cues, cue.id) == Some(cue)
        }),
{
    what_is_put_is_found::<MusicCue>(m.music_cues, cue);
    assert(MusicCue::name_of(cue) == cue.id);
    if let Some(track_id) = cue.track_id {
        let before = m.audio_mix.tracks;
        what_is_found_bears_the_name::<AudioMixTrack>(before, track_id);
        if let Some(place) = place_of::<AudioMixTrack>(before, track_id) {
            let mixed = AudioMixTrackModel { gain_db_milli: cue.gain_db_milli, ..before[place] };
            assert(AudioMixTrack::name_of(mixed) == track_id);
            what_is_put_is_found::<AudioMixTrack>(before, mixed);
        }
    }
}

/// A removed cue is gone and every other stays; its track leaves the mix only where no other cue plays on it,
/// and no other track leaves.
pub proof fn a_removed_cue_takes_only_its_own_track(m: VideoProjectManifestModel, cue_id: Seq<char>)
    requires
        remove_cue_fault(m, cue_id) is None,
    ensures
        ({
            let after = remove_cue_result(m, cue_id);
            let cue = find::<MusicCue>(m.music_cues, cue_id)->0;
            &&& find::<MusicCue>(m.music_cues, cue_id) is Some
            &&& after.music_cues.len() == m.music_cues.len() - 1
            &&& forall|i: int|
                0 <= i < m.music_cues.len() && (#[trigger] m.music_cues[i]).id != cue_id ==> after.music_cues.contains(
                    m.music_cues[i],
                )
            &&& forall|i: int|
                0 <= i < m.audio_mix.tracks.len() ==> {
                    let mixed = #[trigger] m.audio_mix.tracks[i];
                    let shared = exists|k: int|
                        0 <= k < after.music_cues.len() && (#[trigger] after.music_cues[k]).track_id == Some(
                            mixed.track_id,
                        );
                    after.audio_mix.tracks.contains(mixed) <==> cue.track_id != Some(mixed.track_id) || shared
                }
            &&& after.tracks == m.tracks
        }),
{
    let place = place_of::<MusicCue>(m.music_cues, cue_id)->0;
    what_is_found_bears_the_name::<MusicCue>(m.music_cues, cue_id);
    let after = remove_cue_result(m, cue_id);
    let left = m.music_cues.remove(place);
    assert forall|i: int| 0 <= i < m.music_cues.len() && (#[trigger] m.music_cues[i]).id != cue_id implies left.contains(
        m.music_cues[i],
    ) by {
        assert(MusicCue::name_of(m.music_cues[place]) == cue_id);
        if i < place {
            assert(left[i] == m.music_cues[i]);
        } else {
            assert(left[i - 1] == m.music_cues[i]);
        }
    }
    let keep = other_than::<AudioMixTrack>(m.music_cues[place].track_id->0);
    let places = what_is_kept_keeps_its_order(m.audio_mix.tracks, keep);
    assert forall|i: int| 0 <= i < m.audio_mix.tracks.len() implies {
        let mixed = #[trigger] m.audio_mix.tracks[i];
        let shared = exists|k: int|
            0 <= k < after.music_cues.len() && (#[trigger] after.music_cues[k]).track_id == Some(mixed.track_id);
        after.audio_mix.tracks.contains(mixed) <==> m.music_cues[place].track_id != Some(mixed.track_id) || shared
    } by {
        let mixed = m.audio_mix.tracks[i];
        if after.audio_mix.tracks == kept(m.audio_mix.tracks, keep) {
            if keep(mixed) {
                what_is_kept_stays(m.audio_mix.tracks, keep, 0, i);
            } else if after.audio_mix.tracks.contains(mixed) {
                let k = choose|k: int| 0 <= k < after.audio_mix.tracks.len() && after.audio_mix.tracks[k] == mixed;
                assert(keep(m.audio_mix.tracks[places[k]]));
            }
        }
    }
}

/// A registered sound is found by its name, and is the audio of the source that it was made from. Registering it
/// twice changes nothing, and places nothing.
pub proof fn a_registered_sound_is_found(
    m: VideoProjectManifestModel,
    asset_id: Seq<char>,
    source_asset_id: Seq<char>,
    name: Seq<char>,
    tags: Seq<Seq<char>>,
)
    requires
        register_fault(m, asset_id, source_asset_id, name, tags) is None,
    ensures
        ({
            let after = register_result(m, asset_id, source_asset_id, name, tags);
            let asset = find::<SoundAsset>(after.sound_assets, asset_id);
            let source = find::<SourceAsset>(m.source_assets, source_asset_id);
            &&& source is Some && source->0.probe.has_audio
            &&& asset is Some
            &&& asset->0.source_asset_id == source_asset_id
            &&& asset->0.name == name
            &&& asset->0.tags == tags
            &&& asset->0.created_at == source->0.provenance.imported_at
            &&& after.sound_layers == m.sound_layers
            &&& forall|other: Seq<char>|
                other != asset_id ==> #[trigger] find::<SoundAsset>(after.sound_assets, other) == find::<SoundAsset>(
                    m.sound_assets,
                    other,
                )
            &&& forall|i: int|
                0 <= i < m.sound_assets.len() && (#[trigger] m.sound_assets[i]).source_asset_id == source_asset_id
                    ==> m.sound_assets[i].id == asset_id
            &&& register_result(after, asset_id, source_asset_id, name, tags) == after
        }),
{
    let source = find::<SourceAsset>(m.source_assets, source_asset_id)->0;
    what_is_found_bears_the_name::<SourceAsset>(m.source_assets, source_asset_id);
    let asset = sound_asset(source, asset_id, name, tags);
    assert(SoundAsset::name_of(asset) == asset_id);
    what_is_put_is_found::<SoundAsset>(m.sound_assets, asset);
    let after = register_result(m, asset_id, source_asset_id, name, tags);
    what_is_found_bears_the_name::<SoundAsset>(after.sound_assets, asset_id);
    assert(put::<SoundAsset>(after.sound_assets, asset) =~= after.sound_assets);
}

/// When a sound goes, all its placements go with it, and no other sound or placement does.
pub proof fn a_removed_sound_takes_its_placements(m: VideoProjectManifestModel, asset_id: Seq<char>)
    requires
        remove_asset_fault(m, asset_id) is None,
    ensures
        ({
            let after = remove_asset_result(m, asset_id);
            &&& find::<SoundAsset>(after.sound_assets, asset_id) is None
            &&& forall|i: int|
                0 <= i < after.sound_layers.len() ==> (#[trigger] after.sound_layers[i]).asset_id != asset_id
            &&& forall|i: int|
                0 <= i < m.sound_layers.len() && (#[trigger] m.sound_layers[i]).asset_id != asset_id
                    ==> after.sound_layers.contains(m.sound_layers[i])
            &&& forall|i: int|
                0 <= i < m.sound_assets.len() && (#[trigger] m.sound_assets[i]).id != asset_id
                    ==> after.sound_assets.contains(m.sound_assets[i])
            &&& after.source_assets == m.source_assets
        }),
{
    let after = remove_asset_result(m, asset_id);
    let keep = other_than::<SoundAsset>(asset_id);
    let places = what_is_kept_keeps_its_order(m.sound_assets, keep);
    let uses = what_is_kept_keeps_its_order(m.sound_layers, uses_of_others(asset_id));
    what_is_found_bears_the_name::<SoundAsset>(after.sound_assets, asset_id);
    if let Some(place) = place_of::<SoundAsset>(after.sound_assets, asset_id) {
        assert(keep(m.sound_assets[places[place]]));
    }
    assert forall|i: int| 0 <= i < after.sound_layers.len() implies (#[trigger] after.sound_layers[i]).asset_id
        != asset_id by {
        assert(uses_of_others(asset_id)(m.sound_layers[uses[i]]));
    }
    assert forall|i: int|
        0 <= i < m.sound_layers.len() && (#[trigger] m.sound_layers[i]).asset_id
            != asset_id implies after.sound_layers.contains(m.sound_layers[i]) by {
        what_is_kept_stays(m.sound_layers, uses_of_others(asset_id), 0, i);
    }
    assert forall|i: int|
        0 <= i < m.sound_assets.len() && (#[trigger] m.sound_assets[i]).id != asset_id implies after.sound_assets.contains(
        m.sound_assets[i],
    ) by {
        what_is_kept_stays(m.sound_assets, keep, 0, i);
    }
}

/// A placement that was set is found by its name, of a sound that is registered; removing it again takes it and no
/// other placement.
pub proof fn a_set_placement_is_found_until_it_is_removed(m: VideoProjectManifestModel, layer: SoundLayerModel)
    requires
        set_sound_fault(m, layer) is None,
    ensures
        ({
            let after = set_sound_result(m, layer);
            let gone = remove_sound_result(after, layer.id);
            &&& find::<SoundAsset>(m.sound_assets, layer.asset_id) is Some
            &&& find::<SoundLayer>(after.sound_layers, layer.id) == Some(layer)
            &&& forall|other: Seq<char>|
                other != layer.id ==> #[trigger] find::<SoundLayer>(after.sound_layers, other) == find::<SoundLayer>(
                    m.sound_layers,
                    other,
                )
            &&& remove_sound_fault(after, layer.id) is None
            &&& find::<SoundLayer>(gone.sound_layers, layer.id) is None
            &&& forall|i: int|
                0 <= i < m.sound_layers.len() && (#[trigger] m.sound_layers[i]).id != layer.id
                    ==> gone.sound_layers.contains(m.sound_layers[i])
        }),
{
    assert(SoundLayer::name_of(layer) == layer.id);
    what_is_put_is_found::<SoundLayer>(m.sound_layers, layer);
    let after = set_sound_result(m, layer);
    let gone = remove_sound_result(after, layer.id);
    let keep = other_than::<SoundLayer>(layer.id);
    let places = what_is_kept_keeps_its_order(after.sound_layers, keep);
    what_is_found_bears_the_name::<SoundLayer>(gone.sound_layers, layer.id);
    if let Some(place) = place_of::<SoundLayer>(gone.sound_layers, layer.id) {
        assert(keep(after.sound_layers[places[place]]));
    }
    assert forall|i: int|
        0 <= i < m.sound_layers.len() && (#[trigger] m.sound_layers[i]).id != layer.id implies gone.sound_layers.contains(
        m.sound_layers[i],
    ) by {
        assert(SoundLayer::name_of(m.sound_layers[i]) != layer.id);
        assert(after.sound_layers[i] == m.sound_layers[i]);
        what_is_kept_stays(after.sound_layers, keep, 0, i);
    }
}

} // verus!
