//! The media that a render reads, and how it is handed to the renderer.

use crate::error::{fault, or_else, refusal, unless, Fault, VideoError, VideoErrorCode, VideoResult};
use crate::manifest::{
    MediaReferenceModel, TimelineClip, TimelineClipModel, TimelineTrack, TimelineTrackModel, TrackKind, VisualAsset,
    VisualAssetModel, VideoProjectManifest, VideoProjectManifestModel, VisualLayer, VisualLayerModel,
};
use crate::model::{
    find, find_named, has_name, holds, kept, kept_from, place_of, what_is_found_bears_the_name,
    what_is_kept_keeps_its_order, Model, Named,
};
use crate::notation::{ffmpeg_time, seconds_of, seconds_read_as_their_microseconds};
use crate::text::{number_in, text_concat, text_concat3};
use crate::time::{on_clock, Microseconds};
use vstd::prelude::*;

verus! {

/// How a media file is handed to the renderer: by some arguments, or not at all.
#[derive(Clone, Debug, PartialEq, Eq)]
pub enum MediaInput {
    Allowed(Vec<String>),
    Refused(String),
}

/// How a media file is handed to the renderer, as mathematical values.
pub enum MediaInputModel {
    Allowed(Seq<Seq<char>>),
    Refused(Seq<char>),
}

impl DeepView for MediaInput {
    type V = MediaInputModel;

    open spec fn deep_view(&self) -> MediaInputModel {
        match self {
            MediaInput::Allowed(args) => MediaInputModel::Allowed(args.deep_view()),
            MediaInput::Refused(reason) => MediaInputModel::Refused(reason@),
        }
    }
}

/// A managed file as it was found.
#[derive(Clone, Debug, PartialEq, Eq)]
pub struct ResolvedMedia {
    /// The identifier of the media, with or without its namespace.
    pub id: String,
    /// Why the file could not be opened.
    pub unopened: Option<String>,
    pub is_file: bool,
    pub input: MediaInput,
}

/// What a [`ResolvedMedia`] holds, as mathematical values.
pub struct ResolvedMediaModel {
    pub id: Seq<char>,
    pub unopened: Option<Seq<char>>,
    pub is_file: bool,
    pub input: MediaInputModel,
}

impl DeepView for ResolvedMedia {
    type V = ResolvedMediaModel;

    open spec fn deep_view(&self) -> ResolvedMediaModel {
        ResolvedMediaModel {
            id: self.id@,
            unopened: self.unopened.deep_view(),
            is_file: self.is_file,
            input: self.input.deep_view(),
        }
    }
}

impl Named for ResolvedMedia {
    open spec fn name_of(model: ResolvedMediaModel) -> Seq<char> {
        model.id
    }

    fn name(&self) -> (name: &String) {
        &self.id
    }
}

/// The file of some media: by its identifier within its namespace, or by its bare identifier.
pub open spec fn media_of(resolved: Seq<ResolvedMediaModel>, namespace: Seq<char>, id: Seq<char>) -> Option<
    ResolvedMediaModel,
> {
    match find::<ResolvedMedia>(resolved, namespace + id) {
        Some(media) => Some(media),
        None => find::<ResolvedMedia>(resolved, id),
    }
}

fn find_media<'a>(resolved: &'a Vec<ResolvedMedia>, namespace: &str, id: &str) -> (result: Option<&'a ResolvedMedia>)
    ensures
        match result {
            Some(media) => media_of(resolved.deep_view(), namespace@, id@) == Some(media.deep_view()),
            None => media_of(resolved.deep_view(), namespace@, id@) is None,
        },
{
    let name: String = text_concat(namespace, id);
    match find_named(resolved, name.as_str()) {
        Some(media) => Some(media),
        None => find_named(resolved, id),
    }
}

/// The arguments that hand some media over, where it is allowed.
pub open spec fn input_args(media: Option<ResolvedMediaModel>) -> Seq<Seq<char>> {
    match media {
        Some(found) => match found.input {
            MediaInputModel::Allowed(args) => args,
            MediaInputModel::Refused(_) => Seq::empty(),
        },
        None => Seq::empty(),
    }
}

/// Why some media cannot be found.
pub open spec fn missing_fault(
    media: Option<ResolvedMediaModel>,
    kind: Seq<char>,
    id: Seq<char>,
    must_be_file: bool,
) -> Option<Fault> {
    match media {
        None => Some(
            fault(VideoErrorCode::MissingReference, kind + id + " has no resolved managed file"@),
        ),
        Some(found) => or_else(
            match found.unopened {
                Some(reason) => Some(
                    fault(VideoErrorCode::InvalidAsset, kind + id + " could not be opened: "@ + reason),
                ),
                None => None,
            },
            unless(
                found.is_file || !must_be_file,
                fault(VideoErrorCode::InvalidAsset, kind + id + " is not a regular file"@),
            ),
        ),
    }
}

/// Why some media that was found cannot be handed over.
pub open spec fn policy_fault(media: Option<ResolvedMediaModel>, kind: Seq<char>, id: Seq<char>) -> Option<Fault> {
    match media {
        Some(found) => match found.input {
            MediaInputModel::Allowed(_) => None,
            MediaInputModel::Refused(reason) => Some(
                fault(VideoErrorCode::InvalidAsset, kind + id + " failed local-input policy: "@ + reason),
            ),
        },
        None => None,
    }
}

fn media_error(code: VideoErrorCode, kind: &str, id: &str, what: &str, reason: &str) -> (error: VideoError)
    ensures
        error.deep_view() == fault(code, kind@ + id@ + what@ + reason@),
{
    let mut message: String = text_concat3(kind, id, what);
    message.append(reason);
    VideoError::new(code, message.as_str())
}

fn plain_error(code: VideoErrorCode, kind: &str, id: &str, what: &str) -> (error: VideoError)
    ensures
        error.deep_view() == fault(code, kind@ + id@ + what@),
{
    let message: String = text_concat3(kind, id, what);
    VideoError::new(code, message.as_str())
}

fn open_media<'a>(media: Option<&'a ResolvedMedia>, kind: &str, id: &str, must_be_file: bool) -> (result: VideoResult<
    &'a ResolvedMedia,
>)
    ensures
        ({
            let view = match media {
                Some(found) => Some(found.deep_view()),
                None => None,
            };
            &&& refusal(result) == missing_fault(view, kind@, id@, must_be_file)
            &&& result matches Ok(found) ==> media == Some(found)
        }),
{
    match media {
        None => Err(
            plain_error(VideoErrorCode::MissingReference, kind, id, " has no resolved managed file"),
        ),
        Some(found) => {
            if let Some(reason) = &found.unopened {
                return Err(
                    media_error(
                        VideoErrorCode::InvalidAsset,
                        kind,
                        id,
                        " could not be opened: ",
                        reason.as_str(),
                    ),
                );
            }
            if !found.is_file && must_be_file {
                return Err(plain_error(VideoErrorCode::InvalidAsset, kind, id, " is not a regular file"));
            }
            Ok(found)
        },
    }
}

/// The arguments that hand some media over.
fn read_media<'a>(found: &'a ResolvedMedia, kind: &str, id: &str) -> (result: VideoResult<&'a Vec<String>>)
    ensures
        refusal(result) == policy_fault(Some(found.deep_view()), kind@, id@),
        result matches Ok(args) ==> args.deep_view() == input_args(Some(found.deep_view())),
{
    match &found.input {
        MediaInput::Allowed(args) => Ok(args),
        MediaInput::Refused(reason) => Err(
            media_error(
                VideoErrorCode::InvalidAsset,
                kind,
                id,
                " failed local-input policy: ",
                reason.as_str(),
            ),
        ),
    }
}

/// Appends texts to a list.
pub fn push_all(target: &mut Vec<String>, more: &Vec<String>)
    ensures
        final(target).deep_view() == old(target).deep_view() + more.deep_view(),
{
    let ghost before = target.deep_view();
    let ghost model = more.deep_view();
    let mut place: usize = 0;
    assert(target.deep_view() =~= before + model.take(0));
    while place < more.len()
        invariant
            place <= more.len(),
            model == more.deep_view(),
            target.deep_view() == before + model.take(place as int),
        decreases more.len() - place,
    {
        assert(model[place as int] == more[place as int]@);
        let ghost so_far = target.deep_view();
        target.push(more[place].clone());
        assert(target.deep_view() =~= so_far.push(model[place as int]));
        assert(model.take(place + 1) =~= model.take(place as int).push(model[place as int]));
        assert(target.deep_view() =~= before + model.take(place + 1));
        place += 1;
    }
    assert(model.take(model.len() as int) =~= model);
}

/// Appends one text to a list.
pub fn push_one(target: &mut Vec<String>, text: &str)
    ensures
        final(target).deep_view() == old(target).deep_view().push(text@),
{
    let ghost before = target.deep_view();
    target.push(String::from_str(text));
    assert(target.deep_view() =~= before.push(text@));
}

// ---------------------------------------------------------------------------------------------
// Tracks and clips
// ---------------------------------------------------------------------------------------------
pub open spec fn of_kind(kind: TrackKind) -> spec_fn(TimelineTrackModel) -> bool {
    |track: TimelineTrackModel| track.kind == kind
}

/// The tracks of a kind.
pub open spec fn tracks_of(m: VideoProjectManifestModel, kind: TrackKind) -> Seq<TimelineTrackModel> {
    kept(m.tracks, of_kind(kind))
}

/// The tracks of a kind.
pub fn select_tracks(manifest: &VideoProjectManifest, kind: TrackKind) -> (result: Vec<TimelineTrack>)
    ensures
        result.deep_view() == tracks_of(manifest.deep_view(), kind),
{
    let ghost model = manifest.deep_view().tracks;
    let ghost keep = of_kind(kind);
    let ghost whole = kept(model, keep);
    let mut result: Vec<TimelineTrack> = Vec::new();
    let mut place: usize = 0;
    assert(result.deep_view() + whole =~= whole);
    while place < manifest.tracks.len()
        invariant
            place <= manifest.tracks.len(),
            model == manifest.tracks.deep_view(),
            keep == of_kind(kind),
            result.deep_view() + kept_from(model, keep, place as int) == whole,
        decreases manifest.tracks.len() - place,
    {
        let ghost own = model[place as int];
        assert(own == manifest.tracks[place as int].deep_view());
        if manifest.tracks[place].kind == kind {
            let ghost before = result.deep_view();
            let ghost rest = kept_from(model, keep, place + 1);
            result.push(manifest.tracks[place].duplicate());
            assert(result.deep_view() =~= before.push(own));
            assert(result.deep_view() + rest =~= before + (seq![own] + rest));
        }
        place += 1;
    }
    assert(result.deep_view() =~= whole);
    result
}

/// Clips with those of a track, from one on, that are not among them yet.
pub open spec fn with_clips_from(inputs: Seq<TimelineClipModel>, clips: Seq<TimelineClipModel>, place: int) -> Seq<
    TimelineClipModel,
>
    decreases clips.len() - place,
{
    if place < 0 || place >= clips.len() {
        inputs
    } else if holds::<TimelineClip>(inputs, clips[place].id) {
        with_clips_from(inputs, clips, place + 1)
    } else {
        with_clips_from(inputs.push(clips[place]), clips, place + 1)
    }
}

/// Clips with those of tracks, from one on, that are not among them yet.
pub open spec fn with_tracks_from(inputs: Seq<TimelineClipModel>, tracks: Seq<TimelineTrackModel>, place: int) -> Seq<
    TimelineClipModel,
>
    decreases tracks.len() - place,
{
    if place < 0 || place >= tracks.len() {
        inputs
    } else {
        with_tracks_from(with_clips_from(inputs, tracks[place].clips, 0), tracks, place + 1)
    }
}

/// The clips that a render reads: those of the picture track, then those of the sound tracks.
pub open spec fn input_clips(m: VideoProjectManifestModel) -> Seq<TimelineClipModel> {
    with_tracks_from(
        with_tracks_from(Seq::empty(), tracks_of(m, TrackKind::Video), 0),
        tracks_of(m, TrackKind::Audio),
        0,
    )
}

/// Collects the clips of tracks that are not collected yet.
pub fn collect_clips(inputs: &mut Vec<TimelineClip>, tracks: &Vec<TimelineTrack>)
    ensures
        final(inputs).deep_view() == with_tracks_from(old(inputs).deep_view(), tracks.deep_view(), 0),
{
    let ghost model = tracks.deep_view();
    let ghost whole = with_tracks_from(inputs.deep_view(), model, 0);
    let mut track: usize = 0;
    while track < tracks.len()
        invariant
            track <= tracks.len(),
            model == tracks.deep_view(),
            whole == with_tracks_from(inputs.deep_view(), model, track as int),
        decreases tracks.len() - track,
    {
        let clips: &Vec<TimelineClip> = &tracks[track].clips;
        let ghost own = clips.deep_view();
        assert(model[track as int].clips == own);
        let ghost reached = with_clips_from(inputs.deep_view(), own, 0);
        let mut place: usize = 0;
        while place < clips.len()
            invariant
                place <= clips.len(),
                own == clips.deep_view(),
                reached == with_clips_from(inputs.deep_view(), own, place as int),
            decreases clips.len() - place,
        {
            assert(own[place as int] == clips[place as int].deep_view());
            if !has_name(inputs, clips[place].id.as_str()) {
                let ghost before = inputs.deep_view();
                inputs.push(clips[place].duplicate());
                assert(inputs.deep_view() =~= before.push(own[place as int]));
            }
            place += 1;
        }
        track += 1;
    }
}

/// The namespace of a clip's media, with the colon behind it.
pub open spec fn media_namespace(media: MediaReferenceModel) -> Seq<char> {
    if media.source_asset_id is Some {
        "source:"@
    } else {
        "artifact:"@
    }
}

/// The identifier of a clip's media.
pub open spec fn media_id(media: MediaReferenceModel) -> Seq<char> {
    match (media.source_asset_id, media.render_artifact_id) {
        (Some(id), _) => id,
        (None, Some(id)) => id,
        (None, None) => ""@,
    }
}

pub open spec fn clip_media(resolved: Seq<ResolvedMediaModel>, clip: TimelineClipModel) -> Option<ResolvedMediaModel> {
    media_of(resolved, media_namespace(clip.media), media_id(clip.media))
}

/// Why a clip cannot be read.
pub open spec fn clip_fault(resolved: Seq<ResolvedMediaModel>, clip: TimelineClipModel) -> Option<Fault> {
    or_else(
        missing_fault(clip_media(resolved, clip), "timeline media "@, media_id(clip.media), true),
        or_else(
            unless(
                on_clock(clip.source_range.length()),
                fault(VideoErrorCode::ArithmeticOverflow, "time range duration overflowed"@),
            ),
            policy_fault(clip_media(resolved, clip), "timeline media "@, media_id(clip.media)),
        ),
    )
}

pub open spec fn clip_faults_from(resolved: Seq<ResolvedMediaModel>, clips: Seq<TimelineClipModel>, place: int) -> Option<Fault>
    decreases clips.len() - place,
{
    if place < 0 || place >= clips.len() {
        None
    } else {
        or_else(clip_fault(resolved, clips[place]), clip_faults_from(resolved, clips, place + 1))
    }
}

/// Arguments with those that read a clip from where it starts for as long as it plays.
pub open spec fn with_clip_args(args: Seq<Seq<char>>, resolved: Seq<ResolvedMediaModel>, clip: TimelineClipModel) -> Seq<
    Seq<char>,
> {
    args.push("-ss"@).push(seconds_of(clip.source_range.start())).push("-t"@).push(
        seconds_of(clip.source_range.length()),
    ) + input_args(clip_media(resolved, clip))
}

/// Arguments with those that read the first clips.
pub open spec fn clip_args_to(
    args: Seq<Seq<char>>,
    resolved: Seq<ResolvedMediaModel>,
    clips: Seq<TimelineClipModel>,
    count: int,
) -> Seq<Seq<char>>
    decreases count,
{
    if count <= 0 {
        args
    } else {
        with_clip_args(clip_args_to(args, resolved, clips, count - 1), resolved, clips[count - 1])
    }
}

fn push_clip_args(args: &mut Vec<String>, resolved: &Vec<ResolvedMedia>, clip: &TimelineClip) -> (result: VideoResult<()>)
    ensures
        refusal(result) == clip_fault(resolved.deep_view(), clip.deep_view()),
        result is Ok ==> final(args).deep_view() == with_clip_args(
            old(args).deep_view(),
            resolved.deep_view(),
            clip.deep_view(),
        ),
{
    let namespace: &str = if clip.media.source_asset_id.is_some() {
        "source:"
    } else {
        "artifact:"
    };
    let id: &str = match (&clip.media.source_asset_id, &clip.media.render_artifact_id) {
        (Some(source), _) => source.as_str(),
        (None, Some(artifact)) => artifact.as_str(),
        (None, None) => "",
    };
    let found: &ResolvedMedia = open_media(find_media(resolved, namespace, id), "timeline media ", id, true)?;
    let length: Microseconds = clip.source_range.duration()?;
    let input: &Vec<String> = read_media(found, "timeline media ", id)?;
    let start_text: String = ffmpeg_time(clip.source_range.start_us);
    let length_text: String = ffmpeg_time(length);
    push_one(args, "-ss");
    push_one(args, start_text.as_str());
    push_one(args, "-t");
    push_one(args, length_text.as_str());
    push_all(args, input);
    Ok(())
}

/// Adds the arguments that read the clips, each from where it starts for as long as it plays.
pub fn append_clip_args(args: &mut Vec<String>, resolved: &Vec<ResolvedMedia>, clips: &Vec<TimelineClip>) -> (result:
    VideoResult<()>)
    ensures
        refusal(result) == clip_faults_from(resolved.deep_view(), clips.deep_view(), 0),
        result is Ok ==> final(args).deep_view() == clip_args_to(
            old(args).deep_view(),
            resolved.deep_view(),
            clips.deep_view(),
            clips.deep_view().len() as int,
        ),
{
    let ghost before = args.deep_view();
    let ghost known = resolved.deep_view();
    let ghost model = clips.deep_view();
    let mut place: usize = 0;
    while place < clips.len()
        invariant
            place <= clips.len(),
            known == resolved.deep_view(),
            model == clips.deep_view(),
            args.deep_view() == clip_args_to(before, known, model, place as int),
            clip_faults_from(known, model, 0) == clip_faults_from(known, model, place as int),
        decreases clips.len() - place,
    {
        assert(model[place as int] == clips[place as int].deep_view());
        push_clip_args(args, resolved, &clips[place])?;
        place += 1;
    }
    assert(model.len() == clips.len());
    Ok(())
}

// ---------------------------------------------------------------------------------------------
// Pictures
// ---------------------------------------------------------------------------------------------
/// Pictures with those of the layers, from one on, that are not among them yet.
pub open spec fn with_assets_from(
    seen: Seq<VisualAssetModel>,
    assets: Seq<VisualAssetModel>,
    layers: Seq<VisualLayerModel>,
    place: int,
) -> Seq<VisualAssetModel>
    decreases layers.len() - place,
{
    if place < 0 || place >= layers.len() {
        seen
    } else if holds::<VisualAsset>(seen, layers[place].asset_id) {
        with_assets_from(seen, assets, layers, place + 1)
    } else {
        with_assets_from(
            seen.push(find::<VisualAsset>(assets, layers[place].asset_id)->0),
            assets,
            layers,
            place + 1,
        )
    }
}

/// The pictures that a render reads.
pub open spec fn input_assets(m: VideoProjectManifestModel) -> Seq<VisualAssetModel> {
    with_assets_from(Seq::empty(), m.visual_assets, m.visual_layers, 0)
}

pub open spec fn asset_media(resolved: Seq<ResolvedMediaModel>, asset: VisualAssetModel) -> Option<ResolvedMediaModel> {
    media_of(resolved, "visual:"@, asset.id)
}

/// Why the pictures of the layers, from one on, cannot be read.
pub open spec fn asset_faults_from(
    resolved: Seq<ResolvedMediaModel>,
    seen: Seq<VisualAssetModel>,
    assets: Seq<VisualAssetModel>,
    layers: Seq<VisualLayerModel>,
    place: int,
) -> Option<Fault>
    decreases layers.len() - place,
{
    if place < 0 || place >= layers.len() {
        None
    } else if holds::<VisualAsset>(seen, layers[place].asset_id) {
        asset_faults_from(resolved, seen, assets, layers, place + 1)
    } else {
        match find::<VisualAsset>(assets, layers[place].asset_id) {
            None => Some(
                fault(
                    VideoErrorCode::MissingReference,
                    "visual layer "@ + layers[place].id + " has no managed asset"@,
                ),
            ),
            Some(asset) => or_else(
                missing_fault(asset_media(resolved, asset), "visual asset "@, asset.id, false),
                or_else(
                    policy_fault(asset_media(resolved, asset), "visual asset "@, asset.id),
                    asset_faults_from(resolved, seen.push(asset), assets, layers, place + 1),
                ),
            ),
        }
    }
}

/// Arguments with those that show a picture for as long as it is wanted.
pub open spec fn with_asset_args(
    args: Seq<Seq<char>>,
    resolved: Seq<ResolvedMediaModel>,
    frame_rate: Seq<char>,
    asset: VisualAssetModel,
) -> Seq<Seq<char>> {
    args.push("-loop"@).push("1"@).push("-framerate"@).push(frame_rate) + input_args(asset_media(resolved, asset))
}

/// Arguments with those that show the pictures of the layers, from one on.
pub open spec fn asset_args_from(
    args: Seq<Seq<char>>,
    resolved: Seq<ResolvedMediaModel>,
    frame_rate: Seq<char>,
    seen: Seq<VisualAssetModel>,
    assets: Seq<VisualAssetModel>,
    layers: Seq<VisualLayerModel>,
    place: int,
) -> Seq<Seq<char>>
    decreases layers.len() - place,
{
    if place < 0 || place >= layers.len() {
        args
    } else if holds::<VisualAsset>(seen, layers[place].asset_id) {
        asset_args_from(args, resolved, frame_rate, seen, assets, layers, place + 1)
    } else {
        let asset = find::<VisualAsset>(assets, layers[place].asset_id)->0;
        asset_args_from(
            with_asset_args(args, resolved, frame_rate, asset),
            resolved,
            frame_rate,
            seen.push(asset),
            assets,
            layers,
            place + 1,
        )
    }
}

/// Adds the arguments that show the pictures of the layers, and lists those pictures.
pub fn append_asset_args(
    args: &mut Vec<String>,
    resolved: &Vec<ResolvedMedia>,
    frame_rate: &str,
    assets: &Vec<VisualAsset>,
    layers: &Vec<VisualLayer>,
) -> (result: VideoResult<Vec<VisualAsset>>)
    ensures
        refusal(result) == asset_faults_from(
            resolved.deep_view(),
            Seq::empty(),
            assets.deep_view(),
            layers.deep_view(),
            0,
        ),
        result matches Ok(seen) ==> {
            &&& seen.deep_view() == with_assets_from(Seq::empty(), assets.deep_view(), layers.deep_view(), 0)
            &&& final(args).deep_view() == asset_args_from(
                old(args).deep_view(),
                resolved.deep_view(),
                frame_rate@,
                Seq::empty(),
                assets.deep_view(),
                layers.deep_view(),
                0,
            )
        },
{
    let ghost known = resolved.deep_view();
    let ghost all = assets.deep_view();
    let ghost model = layers.deep_view();
    let ghost whole = asset_args_from(args.deep_view(), known, frame_rate@, Seq::empty(), all, model, 0);
    let ghost reached = with_assets_from(Seq::empty(), all, model, 0);
    let mut seen: Vec<VisualAsset> = Vec::new();
    let mut place: usize = 0;
    assert(seen.deep_view() =~= Seq::empty());
    while place < layers.len()
        invariant
            place <= layers.len(),
            known == resolved.deep_view(),
            all == assets.deep_view(),
            model == layers.deep_view(),
            whole == asset_args_from(
                args.deep_view(),
                known,
                frame_rate@,
                seen.deep_view(),
                all,
                model,
                place as int,
            ),
            reached == with_assets_from(seen.deep_view(), all, model, place as int),
            asset_faults_from(known, Seq::empty(), all, model, 0) == asset_faults_from(
                known,
                seen.deep_view(),
                all,
                model,
                place as int,
            ),
        decreases layers.len() - place,
    {
        let layer: &VisualLayer = &layers[place];
        assert(model[place as int] == layer.deep_view());
        if !has_name(&seen, layer.asset_id.as_str()) {
            match find_named(assets, layer.asset_id.as_str()) {
                Some(asset) => {
                    let media: Option<&ResolvedMedia> = find_media(resolved, "visual:", asset.id.as_str());
                    let found: &ResolvedMedia = open_media(media, "visual asset ", asset.id.as_str(), false)?;
                    let input: &Vec<String> = read_media(found, "visual asset ", asset.id.as_str())?;
                    push_one(args, "-loop");
                    push_one(args, "1");
                    push_one(args, "-framerate");
                    push_one(args, frame_rate);
                    push_all(args, input);
                    let ghost before = seen.deep_view();
                    seen.push(asset.duplicate());
                    assert(seen.deep_view() =~= before.push(asset.deep_view()));
                },
                None => {
                    return Err(
                        plain_error(
                            VideoErrorCode::MissingReference,
                            "visual layer ",
                            layer.id.as_str(),
                            " has no managed asset",
                        ),
                    );
                },
            }
        }
        place += 1;
    }
    Ok(seen)
}

/// Each clip is read by at least four arguments.
pub proof fn lemma_clip_args(
    args: Seq<Seq<char>>,
    resolved: Seq<ResolvedMediaModel>,
    clips: Seq<TimelineClipModel>,
    count: int,
)
    requires
        0 <= count <= clips.len(),
    ensures
        clip_args_to(args, resolved, clips, count).len() >= args.len() + 4 * count,
    decreases count,
{
    if count > 0 {
        lemma_clip_args(args, resolved, clips, count - 1);
    }
}

/// Each picture is shown by at least four arguments.
pub proof fn lemma_asset_args(
    args: Seq<Seq<char>>,
    resolved: Seq<ResolvedMediaModel>,
    frame_rate: Seq<char>,
    seen: Seq<VisualAssetModel>,
    assets: Seq<VisualAssetModel>,
    layers: Seq<VisualLayerModel>,
    place: int,
)
    requires
        0 <= place,
    ensures
        asset_args_from(args, resolved, frame_rate, seen, assets, layers, place).len() - args.len() >= 4 * (
        with_assets_from(seen, assets, layers, place).len() - seen.len()),
    decreases layers.len() - place,
{
    if place < layers.len() {
        let asset = find::<VisualAsset>(assets, layers[place].asset_id)->0;
        if holds::<VisualAsset>(seen, layers[place].asset_id) {
            lemma_asset_args(args, resolved, frame_rate, seen, assets, layers, place + 1);
        } else {
            lemma_asset_args(
                with_asset_args(args, resolved, frame_rate, asset),
                resolved,
                frame_rate,
                seen.push(asset),
                assets,
                layers,
                place + 1,
            );
        }
    }
}

/// A render reads each clip that is seen or heard once, and nothing else: every clip of a video or an audio track
/// is among the inputs by its name, no name is there twice, and every input is a clip of such a track.
pub proof fn every_clip_is_read_once(m: VideoProjectManifestModel)
    ensures
        forall|t: int, c: int|
            0 <= t < m.tracks.len() && (m.tracks[t].kind == TrackKind::Video || m.tracks[t].kind == TrackKind::Audio)
                && 0 <= c < m.tracks[t].clips.len() ==> exists|i: int|
                0 <= i < input_clips(m).len() && (#[trigger] input_clips(m)[i]).id
                    == #[trigger] m.tracks[t].clips[c].id,
        forall|i: int, j: int|
            0 <= i < j < input_clips(m).len() ==> input_clips(m)[i].id != input_clips(m)[j].id,
        forall|i: int|
            0 <= i < input_clips(m).len() ==> exists|t: int, c: int|
                0 <= t < m.tracks.len() && (m.tracks[t].kind == TrackKind::Video || m.tracks[t].kind
                    == TrackKind::Audio) && 0 <= c < m.tracks[t].clips.len() && #[trigger] input_clips(m)[i]
                    == #[trigger] m.tracks[t].clips[c],
{
    let video = tracks_of(m, TrackKind::Video);
    let audio = tracks_of(m, TrackKind::Audio);
    let seen = what_is_kept_keeps_its_order(m.tracks, of_kind(TrackKind::Video));
    let heard = what_is_kept_keeps_its_order(m.tracks, of_kind(TrackKind::Audio));
    let first = with_tracks_from(Seq::empty(), video, 0);
    let all = input_clips(m);
    lemma_with_tracks(Seq::empty(), video, 0);
    lemma_with_tracks(first, audio, 0);
    assert forall|t: int, c: int|
        0 <= t < m.tracks.len() && (m.tracks[t].kind == TrackKind::Video || m.tracks[t].kind == TrackKind::Audio) && 0
            <= c < m.tracks[t].clips.len() implies exists|i: int|
        0 <= i < all.len() && (#[trigger] all[i]).id == #[trigger] m.tracks[t].clips[c].id by {
        let keep = of_kind(m.tracks[t].kind);
        assert(keep(m.tracks[t]));
        if m.tracks[t].kind == TrackKind::Video {
            assert(seen.contains(t));
            let k = choose|k: int| 0 <= k < seen.len() && seen[k] == t;
            assert(video[k] == m.tracks[t]);
            assert(is_read(first, video[k].clips[c].id));
            let i = choose|i: int| 0 <= i < first.len() && (#[trigger] first[i]).id == video[k].clips[c].id;
            assert(all[i] == first[i]);
        } else {
            assert(heard.contains(t));
            let k = choose|k: int| 0 <= k < heard.len() && heard[k] == t;
            assert(audio[k] == m.tracks[t]);
            assert(is_read(all, audio[k].clips[c].id));
        }
    }
    assert forall|i: int| 0 <= i < all.len() implies exists|t: int, c: int|
        0 <= t < m.tracks.len() && (m.tracks[t].kind == TrackKind::Video || m.tracks[t].kind == TrackKind::Audio) && 0
            <= c < m.tracks[t].clips.len() && #[trigger] all[i] == #[trigger] m.tracks[t].clips[c] by {
        if i < first.len() {
            assert(first[i] == all[i]);
            let (k, c) = choose|k: int, c: int|
                0 <= k < video.len() && 0 <= c < video[k].clips.len() && first[i] == #[trigger] video[k].clips[c];
            assert(video[k] == m.tracks[seen[k]]);
            assert(of_kind(TrackKind::Video)(m.tracks[seen[k]]));
            assert(all[i] == m.tracks[seen[k]].clips[c]);
        } else {
            let (k, c) = choose|k: int, c: int|
                0 <= k < audio.len() && 0 <= c < audio[k].clips.len() && all[i] == #[trigger] audio[k].clips[c];
            assert(audio[k] == m.tracks[heard[k]]);
            assert(of_kind(TrackKind::Audio)(m.tracks[heard[k]]));
            assert(all[i] == m.tracks[heard[k]].clips[c]);
        }
    }
}

/// Whether a clip of a name is among some clips.
pub open spec fn is_read(inputs: Seq<TimelineClipModel>, id: Seq<char>) -> bool {
    exists|i: int| 0 <= i < inputs.len() && (#[trigger] inputs[i]).id == id
}

proof fn lemma_with_clips(inputs: Seq<TimelineClipModel>, clips: Seq<TimelineClipModel>, from: int)
    requires
        0 <= from <= clips.len(),
        forall|i: int, j: int| 0 <= i < j < inputs.len() ==> inputs[i].id != inputs[j].id,
    ensures
        ({
            let all = with_clips_from(inputs, clips, from);
            &&& inputs.len() <= all.len()
            &&& forall|i: int| 0 <= i < inputs.len() ==> #[trigger] all[i] == inputs[i]
            &&& forall|i: int, j: int| 0 <= i < j < all.len() ==> all[i].id != all[j].id
            &&& forall|c: int| from <= c < clips.len() ==> is_read(all, (#[trigger] clips[c]).id)
            &&& forall|i: int|
                inputs.len() <= i < all.len() ==> exists|c: int| from <= c < clips.len() && #[trigger] all[i] == #[trigger] clips[c]
        }),
    decreases clips.len() - from,
{
    if from < clips.len() {
        let all = with_clips_from(inputs, clips, from);
        what_is_found_bears_the_name::<TimelineClip>(inputs, clips[from].id);
        if holds::<TimelineClip>(inputs, clips[from].id) {
            lemma_with_clips(inputs, clips, from + 1);
            let at = place_of::<TimelineClip>(inputs, clips[from].id)->0;
            assert(all[at] == inputs[at]);
            assert(is_read(all, clips[from].id));
            assert forall|i: int| inputs.len() <= i < all.len() implies exists|c: int|
                from <= c < clips.len() && #[trigger] all[i] == #[trigger] clips[c] by {
                let c = choose|c: int| from + 1 <= c < clips.len() && all[i] == #[trigger] clips[c];
                assert(all[i] == clips[c]);
            }
        } else {
            let more = inputs.push(clips[from]);
            assert forall|i: int, j: int| 0 <= i < j < more.len() implies more[i].id != more[j].id by {
                if j == inputs.len() {
                    assert(TimelineClip::name_of(inputs[i]) != clips[from].id);
                }
            }
            lemma_with_clips(more, clips, from + 1);
            assert(all[inputs.len() as int] == more[inputs.len() as int]);
            assert(is_read(all, clips[from].id));
            assert forall|i: int| 0 <= i < inputs.len() implies #[trigger] all[i] == inputs[i] by {
                assert(all[i] == more[i]);
            }
            assert forall|i: int| inputs.len() <= i < all.len() implies exists|c: int|
                from <= c < clips.len() && #[trigger] all[i] == #[trigger] clips[c] by {
                if i == inputs.len() {
                    assert(all[i] == clips[from]);
                } else {
                    let c = choose|c: int| from + 1 <= c < clips.len() && all[i] == #[trigger] clips[c];
                    assert(all[i] == clips[c]);
                }
            }
        }
    }
}

proof fn lemma_with_tracks(inputs: Seq<TimelineClipModel>, tracks: Seq<TimelineTrackModel>, from: int)
    requires
        0 <= from <= tracks.len(),
        forall|i: int, j: int| 0 <= i < j < inputs.len() ==> inputs[i].id != inputs[j].id,
    ensures
        ({
            let all = with_tracks_from(inputs, tracks, from);
            &&& inputs.len() <= all.len()
            &&& forall|i: int| 0 <= i < inputs.len() ==> #[trigger] all[i] == inputs[i]
            &&& forall|i: int, j: int| 0 <= i < j < all.len() ==> all[i].id != all[j].id
            &&& forall|t: int, c: int|
                from <= t < tracks.len() && 0 <= c < tracks[t].clips.len() ==> is_read(
                    all,
                    (#[trigger] tracks[t].clips[c]).id,
                )
            &&& forall|i: int|
                inputs.len() <= i < all.len() ==> exists|t: int, c: int|
                    from <= t < tracks.len() && 0 <= c < tracks[t].clips.len() && #[trigger] all[i]
                        == #[trigger] tracks[t].clips[c]
        }),
    decreases tracks.len() - from,
{
    if from < tracks.len() {
        let clips = tracks[from].clips;
        let next = with_clips_from(inputs, clips, 0);
        let all = with_tracks_from(inputs, tracks, from);
        lemma_with_clips(inputs, clips, 0);
        lemma_with_tracks(next, tracks, from + 1);
        assert forall|i: int| 0 <= i < inputs.len() implies #[trigger] all[i] == inputs[i] by {
            assert(all[i] == next[i]);
        }
        assert forall|t: int, c: int| from <= t < tracks.len() && 0 <= c < tracks[t].clips.len() implies is_read(
            all,
            (#[trigger] tracks[t].clips[c]).id,
        ) by {
            if t == from {
                assert(is_read(next, clips[c].id));
                let i = choose|i: int| 0 <= i < next.len() && (#[trigger] next[i]).id == clips[c].id;
                assert(all[i] == next[i]);
            }
        }
        assert forall|i: int| inputs.len() <= i < all.len() implies exists|t: int, c: int|
            from <= t < tracks.len() && 0 <= c < tracks[t].clips.len() && #[trigger] all[i]
                == #[trigger] tracks[t].clips[c] by {
            if i < next.len() {
                assert(all[i] == next[i]);
                let c = choose|c: int| 0 <= c < clips.len() && next[i] == #[trigger] clips[c];
                assert(all[i] == tracks[from].clips[c]);
            } else {
                let (t, c) = choose|t: int, c: int|
                    from + 1 <= t < tracks.len() && 0 <= c < tracks[t].clips.len() && all[i]
                        == #[trigger] tracks[t].clips[c];
                assert(all[i] == tracks[t].clips[c]);
            }
        }
    }
}

/// A clip is read from where it starts in its source for as long as it plays of it: the seconds behind `-ss` read as
/// the start of its source range, and those behind `-t` as the range's length.
pub proof fn a_clip_is_read_where_it_plays(
    args: Seq<Seq<char>>,
    resolved: Seq<ResolvedMediaModel>,
    clip: TimelineClipModel,
) -> (texts: (Seq<char>, Seq<char>, Seq<char>, Seq<char>))
    requires
        clip.source_range.valid(),
    ensures
        ({
            let after = with_clip_args(args, resolved, clip);
            let at = args.len() as int;
            &&& after.len() == at + 4 + input_args(clip_media(resolved, clip)).len()
            &&& after.take(at) == args
            &&& after[at] == "-ss"@
            &&& after[at + 1] == texts.0 + "."@ + texts.1
            &&& texts.1.len() == 6
            &&& 1_000_000 * number_in(texts.0) + number_in(texts.1) == clip.source_range.start_us.0
            &&& after[at + 2] == "-t"@
            &&& after[at + 3] == texts.2 + "."@ + texts.3
            &&& texts.3.len() == 6
            &&& 1_000_000 * number_in(texts.2) + number_in(texts.3) == clip.source_range.end_us.0
                - clip.source_range.start_us.0
        }),
{
    let start = seconds_read_as_their_microseconds(clip.source_range.start());
    let length = seconds_read_as_their_microseconds(clip.source_range.length());
    assert(with_clip_args(args, resolved, clip).take(args.len() as int) =~= args);
    (start.0, start.1, length.0, length.1)
}

} // verus!
