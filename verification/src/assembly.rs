//! The command that renders a reviewed timeline.
//!
//! Media timing is read from the timeline's tracks alone. Each clip is sought on its source's own clock,
//! deliberate holes become explicit black or silent segments, and captions are burned from a subtitle
//! document. Commands never involve a shell, and hardware and software plans are deterministic.

use crate::canvas::{dimensions, profile_dimensions, AssemblyOptions, RenderProfile};
use crate::error::{fault, or_else, refusal, unless, Fault, VideoError, VideoErrorCode, VideoResult};
use crate::filters::{
    append_audio_track_filters, append_video_track_filters, audio_fault, audio_filters, blank_filter,
    clip_media_has_audio, has_sound, labels_to, mix_filter, number_label, numbered, quiet_filter, tenths_text,
    video_fault, video_filters, write_blank, write_labels, write_quiet, write_tenths, Picture, PictureModel,
};
use crate::inputs::{
    append_asset_args, append_clip_args, asset_args_from, asset_faults_from, clip_args_to, clip_faults_from,
    collect_clips, input_assets, input_clips, lemma_asset_args, lemma_clip_args, of_kind, push_one, select_tracks,
    tracks_of, ResolvedMedia, ResolvedMediaModel,
};
use crate::layers::{append_visual_layer_filters, composed, layer_faults_from, layer_filters_to, stacked};
use crate::manifest::{
    AudioMixTrack, LayoutPlanModel, LayoutRole, TimelineClip, TimelineClipModel, TimelineTrack, TimelineTrackModel,
    TrackKind, VideoProjectManifest, VideoProjectManifestModel, VisualAsset,
};
use crate::model::{find, find_named, what_is_found_bears_the_name, what_is_kept_keeps_its_order, Model};
use crate::notation::{escape, escaped, ffmpeg_time, seconds_of, Place};
use crate::spans::complete_spans;
use crate::subtitles::{canvas_fits, lemma_canvas};
use crate::text::{decimal, decimal_text, digit_char, digit_value, number_in, text_concat3};
use crate::time::Validate;
use crate::words::{join_first, joined};
use vstd::prelude::*;

verus! {

/// What encodes the pictures.
#[derive(Clone, Copy, Debug, PartialEq, Eq, Structural)]
pub enum VideoEncoder {
    H264Nvenc,
    Libx264,
    Image,
    AudioOnly,
}

/// How much work a render is.
#[derive(Clone, Copy, Debug, PartialEq, Eq, Structural)]
pub enum RenderWorkloadClass {
    Light,
    Medium,
    Heavy,
}

/// A command that renders.
#[derive(Clone, Debug, PartialEq, Eq)]
pub struct RenderCommand {
    pub program: String,
    pub args: Vec<String>,
    pub output: String,
    pub encoder: VideoEncoder,
    pub emits_progress: bool,
}

/// What a [`RenderCommand`] holds, as mathematical values.
pub struct RenderCommandModel {
    pub program: Seq<char>,
    pub args: Seq<Seq<char>>,
    pub output: Seq<char>,
    pub encoder: VideoEncoder,
    pub emits_progress: bool,
}

impl DeepView for RenderCommand {
    type V = RenderCommandModel;

    open spec fn deep_view(&self) -> RenderCommandModel {
        RenderCommandModel {
            program: self.program@,
            args: self.args.deep_view(),
            output: self.output@,
            encoder: self.encoder,
            emits_progress: self.emits_progress,
        }
    }
}

/// The command that renders a timeline, and the one to fall back on.
#[derive(Clone, Debug, PartialEq, Eq)]
pub struct RenderCommandPlan {
    pub profile: RenderProfile,
    pub workload_class: RenderWorkloadClass,
    pub primary: RenderCommand,
    pub software_fallback: Option<RenderCommand>,
}

/// What a [`RenderCommandPlan`] holds, as mathematical values.
pub struct RenderCommandPlanModel {
    pub profile: RenderProfile,
    pub workload_class: RenderWorkloadClass,
    pub primary: RenderCommandModel,
    pub software_fallback: Option<RenderCommandModel>,
}

impl DeepView for RenderCommandPlan {
    type V = RenderCommandPlanModel;

    open spec fn deep_view(&self) -> RenderCommandPlanModel {
        RenderCommandPlanModel {
            profile: self.profile,
            workload_class: self.workload_class,
            primary: self.primary.deep_view(),
            software_fallback: self.software_fallback.deep_view(),
        }
    }
}

// ---------------------------------------------------------------------------------------------
// The tracks that can be assembled
// ---------------------------------------------------------------------------------------------
/// Whether a track from a place on needs a composition that the timeline does not have.
pub open spec fn unbound_from(tracks: Seq<TimelineTrackModel>, place: int) -> bool
    decreases tracks.len() - place,
{
    if place < 0 || place >= tracks.len() {
        false
    } else {
        ((tracks[place].kind == TrackKind::Overlay || tracks[place].kind == TrackKind::Caption)
            && tracks[place].clips.len() > 0) || unbound_from(tracks, place + 1)
    }
}

pub open spec fn tracks_fault(m: VideoProjectManifestModel) -> Option<Fault> {
    or_else(
        unless(
            tracks_of(m, TrackKind::Video).len() <= 1,
            fault(
                VideoErrorCode::InvalidTrack,
                "assembly supports one canonical primary video track"@,
            ),
        ),
        unless(
            !unbound_from(m.tracks, 0),
            fault(
                VideoErrorCode::InvalidTrack,
                "overlay and caption media tracks require an explicit composition binding; use layout elements and manifest captions"@,
            ),
        ),
    )
}

fn check_tracks(manifest: &VideoProjectManifest, video_tracks: &Vec<TimelineTrack>) -> (result: VideoResult<()>)
    requires
        video_tracks.deep_view() == tracks_of(manifest.deep_view(), TrackKind::Video),
    ensures
        refusal(result) == tracks_fault(manifest.deep_view()),
{
    let ghost model = manifest.deep_view().tracks;
    assert(video_tracks.deep_view().len() == video_tracks.len());
    if video_tracks.len() > 1 {
        return Err(
            VideoError::new(
                VideoErrorCode::InvalidTrack,
                "assembly supports one canonical primary video track",
            ),
        );
    }
    let mut place: usize = 0;
    while place < manifest.tracks.len()
        invariant
            place <= manifest.tracks.len(),
            model == manifest.tracks.deep_view(),
            model == manifest.deep_view().tracks,
            tracks_of(manifest.deep_view(), TrackKind::Video).len() <= 1,
            unbound_from(model, 0) == unbound_from(model, place as int),
        decreases manifest.tracks.len() - place,
    {
        let track: &TimelineTrack = &manifest.tracks[place];
        assert(model[place as int] == track.deep_view());
        assert(track.clips.deep_view().len() == track.clips.len());
        if (track.kind == TrackKind::Overlay || track.kind == TrackKind::Caption) && track.clips.len() > 0 {
            return Err(
                VideoError::new(
                    VideoErrorCode::InvalidTrack,
                    "overlay and caption media tracks require an explicit composition binding; use layout elements and manifest captions",
                ),
            );
        }
        place += 1;
    }
    Ok(())
}

// ---------------------------------------------------------------------------------------------
// Pictures
// ---------------------------------------------------------------------------------------------
pub open spec fn upper_hex_digit(value: int) -> char {
    if value < 10 {
        digit_char(value as nat)
    } else if value == 10 {
        'A'
    } else if value == 11 {
        'B'
    } else if value == 12 {
        'C'
    } else if value == 13 {
        'D'
    } else if value == 14 {
        'E'
    } else {
        'F'
    }
}

/// A byte as two hexadecimal digits.
pub open spec fn upper_hex_byte(value: u8) -> Seq<char> {
    seq![upper_hex_digit(value as int / 16), upper_hex_digit(value as int % 16)]
}

/// The colour behind everything.
pub open spec fn background_of(layout: LayoutPlanModel) -> Seq<char> {
    "0x"@ + upper_hex_byte(layout.background_rgba[0]) + upper_hex_byte(layout.background_rgba[1]) + upper_hex_byte(
        layout.background_rgba[2],
    )
}

fn to_upper_hex(value: u8) -> (c: char)
    requires
        value < 16,
    ensures
        c == upper_hex_digit(value as int),
{
    if value == 0 {
        '0'
    } else if value == 1 {
        '1'
    } else if value == 2 {
        '2'
    } else if value == 3 {
        '3'
    } else if value == 4 {
        '4'
    } else if value == 5 {
        '5'
    } else if value == 6 {
        '6'
    } else if value == 7 {
        '7'
    } else if value == 8 {
        '8'
    } else if value == 9 {
        '9'
    } else if value == 10 {
        'A'
    } else if value == 11 {
        'B'
    } else if value == 12 {
        'C'
    } else if value == 13 {
        'D'
    } else if value == 14 {
        'E'
    } else {
        'F'
    }
}

fn push_hex(text: &mut String, value: u8)
    ensures
        final(text)@ == old(text)@ + upper_hex_byte(value),
{
    text.push(to_upper_hex(value / 16));
    text.push(to_upper_hex(value % 16));
    assert(text@ =~= old(text)@ + upper_hex_byte(value));
}

pub open spec fn frame_rate_of(m: VideoProjectManifestModel) -> Seq<char> {
    decimal(m.frame_rate.numerator as nat) + "/"@ + decimal(m.frame_rate.denominator as nat)
}

fn write_frame_rate(manifest: &VideoProjectManifest) -> (text: String)
    ensures
        text@ == frame_rate_of(manifest.deep_view()),
{
    let numerator: String = decimal_text(manifest.frame_rate.numerator as u64);
    let denominator: String = decimal_text(manifest.frame_rate.denominator as u64);
    text_concat3(numerator.as_str(), "/", denominator.as_str())
}

/// How the pictures of a project are rendered.
pub open spec fn picture_of(m: VideoProjectManifestModel, options: AssemblyOptions) -> PictureModel {
    let size = dimensions(options.profile, m.layout);
    PictureModel {
        width: size.0,
        height: size.1,
        frame_rate: frame_rate_of(m),
        layout: options.portrait_layout,
        background: background_of(m.layout),
    }
}

fn plan_picture(manifest: &VideoProjectManifest, options: &AssemblyOptions) -> (picture: Picture)
    ensures
        picture.deep_view() == picture_of(manifest.deep_view(), *options),
{
    let size: (u32, u32) = profile_dimensions(options.profile, &manifest.layout);
    let mut background: String = String::from_str("0x");
    push_hex(&mut background, manifest.layout.background_rgba[0]);
    push_hex(&mut background, manifest.layout.background_rgba[1]);
    push_hex(&mut background, manifest.layout.background_rgba[2]);
    Picture {
        width: size.0,
        height: size.1,
        frame_rate: write_frame_rate(manifest),
        layout: options.portrait_layout,
        background,
    }
}

// ---------------------------------------------------------------------------------------------
// The filter graph
// ---------------------------------------------------------------------------------------------
/// Filters, and the names of the picture and the sound that they make so far.
pub struct GraphModel {
    pub filters: Seq<Seq<char>>,
    pub video: Seq<char>,
    pub audio: Seq<char>,
}

struct Graph {
    filters: Vec<String>,
    video: String,
    audio: String,
}

impl DeepView for Graph {
    type V = GraphModel;

    closed spec fn deep_view(&self) -> GraphModel {
        GraphModel { filters: self.filters.deep_view(), video: self.video@, audio: self.audio@ }
    }
}

/// The picture of the picture track, or of nothing.
pub open spec fn base_filters(m: VideoProjectManifestModel, options: AssemblyOptions) -> Seq<Seq<char>> {
    let tracks = tracks_of(m, TrackKind::Video);
    let picture = picture_of(m, options);
    if tracks.len() > 0 {
        video_filters(
            picture,
            tracks[0],
            input_clips(m),
            complete_spans(tracks[0], m.gaps, m.timeline_duration_us.0 as int),
        )
    } else {
        seq![blank_filter(picture, m.timeline_duration_us.0 as int, "assembled_video"@)]
    }
}

/// The filters that make the picture, layers included.
pub open spec fn picture_filters(m: VideoProjectManifestModel, options: AssemblyOptions) -> Seq<Seq<char>> {
    let picture = picture_of(m, options);
    layer_filters_to(
        base_filters(m, options),
        "assembled_video"@,
        stacked(m.visual_layers),
        input_assets(m),
        input_clips(m).len() as int,
        picture.width as int,
        picture.height as int,
        m.visual_layers.len() as int,
    )
}

pub open spec fn picture_name(m: VideoProjectManifestModel) -> Seq<char> {
    composed("assembled_video"@, m.visual_layers.len() as int)
}

pub open spec fn picture_fault(m: VideoProjectManifestModel) -> Option<Fault> {
    let tracks = tracks_of(m, TrackKind::Video);
    or_else(
        if tracks.len() > 0 {
            video_fault(tracks[0], m.gaps, m.timeline_duration_us.0 as int, input_clips(m))
        } else {
            None
        },
        layer_faults_from(stacked(m.visual_layers), input_assets(m), 0),
    )
}

/// Filters with those of the first sound tracks.
pub open spec fn sound_filters_to(
    filters: Seq<Seq<char>>,
    m: VideoProjectManifestModel,
    tracks: Seq<TimelineTrackModel>,
    mixed: bool,
    count: int,
) -> Seq<Seq<char>>
    decreases count,
{
    if count <= 0 {
        filters
    } else {
        let track = tracks[count - 1];
        sound_filters_to(filters, m, tracks, mixed, count - 1) + audio_filters(
            m,
            track,
            input_clips(m),
            complete_spans(track, m.gaps, m.timeline_duration_us.0 as int),
            if mixed {
                find::<AudioMixTrack>(m.audio_mix.tracks, track.id)
            } else {
                None
            },
            count - 1,
        )
    }
}

pub open spec fn sound_faults_from(m: VideoProjectManifestModel, tracks: Seq<TimelineTrackModel>, place: int) -> Option<Fault>
    decreases tracks.len() - place,
{
    if place < 0 || place >= tracks.len() {
        None
    } else {
        or_else(audio_fault(m, tracks[place], input_clips(m)), sound_faults_from(m, tracks, place + 1))
    }
}

/// The tracks that are heard. Imported media first has one picture track; until its sound is put on a
/// track of its own, the sound within it is kept.
pub open spec fn heard_tracks(m: VideoProjectManifestModel) -> Seq<TimelineTrackModel> {
    if tracks_of(m, TrackKind::Audio).len() > 0 {
        tracks_of(m, TrackKind::Audio)
    } else {
        tracks_of(m, TrackKind::Video)
    }
}

/// Whether the tracks that are heard are sound tracks, which the mix knows.
pub open spec fn is_mixed(m: VideoProjectManifestModel) -> bool {
    tracks_of(m, TrackKind::Audio).len() > 0
}

/// The name of the sound that some tracks make together.
pub open spec fn sound_name(count: int) -> Seq<char> {
    if count == 1 {
        numbered("atrack"@, 0)
    } else {
        "assembled_audio"@
    }
}

/// Filters with the one that puts the sound of some tracks together.
pub open spec fn with_mix(filters: Seq<Seq<char>>, m: VideoProjectManifestModel, count: int) -> Seq<Seq<char>> {
    let length = m.timeline_duration_us.0 as int;
    if count == 0 {
        filters.push(quiet_filter(length, "assembled_audio"@))
    } else if count == 1 {
        filters
    } else {
        filters.push(
            labels_to("atrack"@, count) + "amix=inputs="@ + decimal(count as nat)
                + ":normalize=0:dropout_transition=0,atrim=duration="@ + seconds_of(length)
                + ",asetpts=PTS-STARTPTS[assembled_audio]"@,
        )
    }
}

/// The picture and the sound of a timeline.
pub open spec fn mixed_graph(m: VideoProjectManifestModel, options: AssemblyOptions) -> GraphModel {
    let tracks = heard_tracks(m);
    GraphModel {
        filters: with_mix(
            sound_filters_to(
                picture_filters(m, options),
                m,
                tracks,
                is_mixed(m),
                tracks.len() as int,
            ),
            m,
            tracks.len() as int,
        ),
        video: picture_name(m),
        audio: sound_name(tracks.len() as int),
    }
}

pub open spec fn graph_fault(m: VideoProjectManifestModel) -> Option<Fault> {
    or_else(picture_fault(m), sound_faults_from(m, heard_tracks(m), 0))
}

fn make_picture(
    manifest: &VideoProjectManifest,
    options: &AssemblyOptions,
    video_tracks: &Vec<TimelineTrack>,
    inputs: &Vec<TimelineClip>,
    assets: &Vec<VisualAsset>,
) -> (result: VideoResult<(Vec<String>, String)>)
    requires
        canvas_fits(manifest.deep_view()),
        video_tracks.deep_view() == tracks_of(manifest.deep_view(), TrackKind::Video),
        inputs.deep_view() == input_clips(manifest.deep_view()),
        assets.deep_view() == input_assets(manifest.deep_view()),
        inputs.len() + assets.len() <= usize::MAX,
    ensures
        refusal(result) == picture_fault(manifest.deep_view()),
        result matches Ok(made) ==> made.0.deep_view() == picture_filters(manifest.deep_view(), *options) && made.1@
            == picture_name(manifest.deep_view()),
{
    let ghost m = manifest.deep_view();
    let picture: Picture = plan_picture(manifest, options);
    let mut filters: Vec<String> = Vec::new();
    assert(filters.deep_view() =~= Seq::empty());
    assert(video_tracks.deep_view().len() == video_tracks.len());
    assert(inputs.deep_view().len() == inputs.len());
    if video_tracks.len() > 0 {
        assert(tracks_of(m, TrackKind::Video)[0] == video_tracks[0].deep_view());
        append_video_track_filters(
            &mut filters,
            &picture,
            &video_tracks[0],
            &manifest.gaps,
            manifest.timeline_duration_us,
            inputs,
        )?;
        assert(filters.deep_view() =~= base_filters(m, *options));
    } else {
        let blank: String = write_blank(&picture, manifest.timeline_duration_us, "assembled_video");
        push_one(&mut filters, blank.as_str());
        assert(filters.deep_view() =~= base_filters(m, *options));
    }
    let label: String = append_visual_layer_filters(
        &mut filters,
        "assembled_video",
        &manifest.visual_layers,
        assets,
        inputs.len(),
        picture.width,
        picture.height,
    )?;
    Ok((filters, label))
}

fn add_sound(
    filters: &mut Vec<String>,
    manifest: &VideoProjectManifest,
    tracks: &Vec<TimelineTrack>,
    mixed: bool,
    inputs: &Vec<TimelineClip>,
) -> (result: VideoResult<()>)
    requires
        inputs.deep_view() == input_clips(manifest.deep_view()),
    ensures
        refusal(result) == sound_faults_from(manifest.deep_view(), tracks.deep_view(), 0),
        result is Ok ==> final(filters).deep_view() == sound_filters_to(
            old(filters).deep_view(),
            manifest.deep_view(),
            tracks.deep_view(),
            mixed,
            tracks.deep_view().len() as int,
        ),
{
    let ghost m = manifest.deep_view();
    let ghost model = tracks.deep_view();
    let ghost before = filters.deep_view();
    let mut place: usize = 0;
    while place < tracks.len()
        invariant
            place <= tracks.len(),
            m == manifest.deep_view(),
            model == tracks.deep_view(),
            inputs.deep_view() == input_clips(m),
            filters.deep_view() == sound_filters_to(before, m, model, mixed, place as int),
            sound_faults_from(m, model, 0) == sound_faults_from(m, model, place as int),
        decreases tracks.len() - place,
    {
        let track: &TimelineTrack = &tracks[place];
        assert(model[place as int] == track.deep_view());
        let mix: Option<&AudioMixTrack> = if mixed {
            find_named(&manifest.audio_mix.tracks, track.id.as_str())
        } else {
            None
        };
        append_audio_track_filters(filters, manifest, track, inputs, mix, place)?;
        place += 1;
    }
    assert(model.len() == tracks.len());
    Ok(())
}

fn add_mix(filters: &mut Vec<String>, manifest: &VideoProjectManifest, count: usize) -> (label: String)
    ensures
        final(filters).deep_view() == with_mix(old(filters).deep_view(), manifest.deep_view(), count as int),
        label@ == sound_name(count as int),
{
    if count == 0 {
        let quiet: String = write_quiet(manifest.timeline_duration_us, "assembled_audio");
        push_one(filters, quiet.as_str());
        String::from_str("assembled_audio")
    } else if count == 1 {
        number_label("atrack", 0)
    } else {
        let number: String = decimal_text(count as u64);
        let length: String = ffmpeg_time(manifest.timeline_duration_us);
        let mut text: String = write_labels("atrack", count);
        text.append("amix=inputs=");
        text.append(number.as_str());
        text.append(":normalize=0:dropout_transition=0,atrim=duration=");
        text.append(length.as_str());
        text.append(",asetpts=PTS-STARTPTS[assembled_audio]");
        push_one(filters, text.as_str());
        String::from_str("assembled_audio")
    }
}

// ---------------------------------------------------------------------------------------------
// What a listener sees, what a viewer reads, and how loud it is
// ---------------------------------------------------------------------------------------------
/// Whether the layout asks for a waveform.
pub open spec fn draws_waveform(layout: LayoutPlanModel) -> bool {
    exists|i: int| 0 <= i < layout.elements.len() && (#[trigger] layout.elements[i]).role == LayoutRole::Waveform
}

/// Whether the sound is drawn: there is no picture of its own, or the layout asks for it.
pub open spec fn wants_waveform(m: VideoProjectManifestModel) -> bool {
    let tracks = tracks_of(m, TrackKind::Video);
    tracks.len() == 0 || tracks[0].clips.len() == 0 || draws_waveform(m.layout)
}

/// Whether a track from a place on plays media that has sound.
pub open spec fn any_sound_from(m: VideoProjectManifestModel, tracks: Seq<TimelineTrackModel>, place: int) -> bool
    decreases tracks.len() - place,
{
    if place < 0 || place >= tracks.len() {
        false
    } else {
        clips_sound(m, tracks[place].clips) || any_sound_from(m, tracks, place + 1)
    }
}

pub open spec fn clips_sound(m: VideoProjectManifestModel, clips: Seq<TimelineClipModel>) -> bool {
    exists|i: int| 0 <= i < clips.len() && has_sound(m, #[trigger] clips[i])
}

/// Whether the sound of the timeline is drawn.
pub open spec fn shows_waveform(m: VideoProjectManifestModel) -> bool {
    wants_waveform(m) && any_sound_from(m, heard_tracks(m), 0)
}

pub open spec fn waveform_width(width: int) -> int {
    let shown = width - width / 6;
    let least = if shown < 2 {
        2
    } else {
        shown
    };
    if least < width {
        least
    } else {
        width
    }
}

pub open spec fn waveform_height(height: int) -> int {
    let shown = height / 4;
    let least = if shown < 2 {
        2
    } else {
        shown
    };
    if least < height {
        least
    } else {
        height
    }
}

/// A graph with the sound drawn over the picture, where it is.
pub open spec fn with_waveform(graph: GraphModel, m: VideoProjectManifestModel, picture: PictureModel) -> GraphModel {
    if shows_waveform(m) {
        GraphModel {
            filters: graph.filters.push(
                "["@ + graph.audio + "]asplit=2[waveform_audio][audio_for_master]"@,
            ).push(
                "[waveform_audio]showwaves=s="@ + decimal(waveform_width(picture.width as int) as nat) + "x"@ + decimal(
                    waveform_height(picture.height as int) as nat,
                ) + ":mode=line:colors=0xE5E7EB@0.75:rate="@ + picture.frame_rate + ",format=rgba[waveform_visual]"@,
            ).push(
                "["@ + graph.video
                    + "][waveform_visual]overlay=(W-w)/2:(H-h)/2:shortest=1[assembled_video_waveform]"@,
            ),
            video: "assembled_video_waveform"@,
            audio: "audio_for_master"@,
        }
    } else {
        graph
    }
}

/// A graph with the subtitles burned in, where they are.
pub open spec fn with_subtitles(graph: GraphModel, options: AssemblyOptions, subtitles: Option<Seq<char>>) -> GraphModel {
    match subtitles {
        Some(path) => if options.burn_captions {
            GraphModel {
                filters: graph.filters.push(
                    "["@ + graph.video + "]subtitles=filename='"@ + escaped(Place::FilterPath, path)
                        + "'[video_output]"@,
                ),
                video: "video_output"@,
                ..graph
            }
        } else {
            graph
        },
        None => graph,
    }
}

/// A graph with the loudness that the mix asks for.
pub open spec fn with_loudness(graph: GraphModel, m: VideoProjectManifestModel) -> GraphModel {
    GraphModel {
        filters: graph.filters.push(
            "["@ + graph.audio + "]loudnorm=I="@ + tenths_text(m.audio_mix.target_lufs_milli as int) + ":TP="@
                + tenths_text(m.audio_mix.true_peak_db_milli as int) + ":LRA=11[audio_output]"@,
        ),
        ..graph
    }
}

/// The filter graph of a timeline.
pub open spec fn graph_of(m: VideoProjectManifestModel, options: AssemblyOptions, subtitles: Option<Seq<char>>) -> GraphModel {
    with_loudness(
        with_subtitles(
            with_waveform(mixed_graph(m, options), m, picture_of(m, options)),
            options,
            subtitles,
        ),
        m,
    )
}

fn asks_for_waveform(manifest: &VideoProjectManifest, video_tracks: &Vec<TimelineTrack>) -> (result: bool)
    requires
        video_tracks.deep_view() == tracks_of(manifest.deep_view(), TrackKind::Video),
    ensures
        result == wants_waveform(manifest.deep_view()),
{
    let ghost elements = manifest.deep_view().layout.elements;
    assert(video_tracks.deep_view().len() == video_tracks.len());
    if video_tracks.len() == 0 {
        return true;
    }
    assert(tracks_of(manifest.deep_view(), TrackKind::Video)[0] == video_tracks[0].deep_view());
    assert(video_tracks[0].deep_view().clips.len() == video_tracks[0].clips.len());
    if video_tracks[0].clips.len() == 0 {
        return true;
    }
    let mut place: usize = 0;
    while place < manifest.layout.elements.len()
        invariant
            place <= manifest.layout.elements.len(),
            elements == manifest.layout.elements.deep_view(),
            forall|i: int| 0 <= i < place ==> (#[trigger] elements[i]).role != LayoutRole::Waveform,
        decreases manifest.layout.elements.len() - place,
    {
        assert(elements[place as int] == manifest.layout.elements[place as int].deep_view());
        if manifest.layout.elements[place].role == LayoutRole::Waveform {
            assert(draws_waveform(manifest.deep_view().layout));
            return true;
        }
        place += 1;
    }
    assert(!draws_waveform(manifest.deep_view().layout));
    false
}

fn hears_anything(manifest: &VideoProjectManifest, tracks: &Vec<TimelineTrack>) -> (result: bool)
    ensures
        result == any_sound_from(manifest.deep_view(), tracks.deep_view(), 0),
{
    let ghost m = manifest.deep_view();
    let ghost model = tracks.deep_view();
    let mut track: usize = 0;
    while track < tracks.len()
        invariant
            track <= tracks.len(),
            m == manifest.deep_view(),
            model == tracks.deep_view(),
            any_sound_from(m, model, 0) == any_sound_from(m, model, track as int),
        decreases tracks.len() - track,
    {
        let clips: &Vec<TimelineClip> = &tracks[track].clips;
        let ghost own = clips.deep_view();
        assert(model[track as int].clips == own);
        let mut place: usize = 0;
        while place < clips.len()
            invariant
                place <= clips.len(),
                track < tracks.len(),
                m == manifest.deep_view(),
                model == tracks.deep_view(),
                own == clips.deep_view(),
                model[track as int].clips == own,
                any_sound_from(m, model, 0) == any_sound_from(m, model, track as int),
                forall|i: int| 0 <= i < place ==> !has_sound(m, #[trigger] own[i]),
            decreases clips.len() - place,
        {
            assert(own[place as int] == clips[place as int].deep_view());
            if clip_media_has_audio(manifest, &clips[place]) {
                assert(clips_sound(m, own));
                assert(model.len() == tracks.len());
                return true;
            }
            place += 1;
        }
        assert(!clips_sound(m, own));
        track += 1;
    }
    false
}

fn add_waveform(graph: Graph, picture: &Picture) -> (result: Graph)
    ensures
        result.deep_view() == (GraphModel {
            filters: graph.deep_view().filters.push(
                "["@ + graph.deep_view().audio + "]asplit=2[waveform_audio][audio_for_master]"@,
            ).push(
                "[waveform_audio]showwaves=s="@ + decimal(
                    waveform_width(picture.deep_view().width as int) as nat,
                ) + "x"@ + decimal(waveform_height(picture.deep_view().height as int) as nat)
                    + ":mode=line:colors=0xE5E7EB@0.75:rate="@ + picture.deep_view().frame_rate
                    + ",format=rgba[waveform_visual]"@,
            ).push(
                "["@ + graph.deep_view().video
                    + "][waveform_visual]overlay=(W-w)/2:(H-h)/2:shortest=1[assembled_video_waveform]"@,
            ),
            video: "assembled_video_waveform"@,
            audio: "audio_for_master"@,
        }),
{
    let shown: u32 = picture.width - picture.width / 6;
    let width: u32 = if shown < 2 {
        2
    } else {
        shown
    };
    let quarter: u32 = picture.height / 4;
    let height: u32 = if quarter < 2 {
        2
    } else {
        quarter
    };
    let wide: String = decimal_text(if width < picture.width {
        width
    } else {
        picture.width
    } as u64);
    let high: String = decimal_text(if height < picture.height {
        height
    } else {
        picture.height
    } as u64);
    let split: String = text_concat3("[", graph.audio.as_str(), "]asplit=2[waveform_audio][audio_for_master]");
    let mut waves: String = text_concat3("[waveform_audio]showwaves=s=", wide.as_str(), "x");
    waves.append(high.as_str());
    waves.append(":mode=line:colors=0xE5E7EB@0.75:rate=");
    waves.append(picture.frame_rate.as_str());
    waves.append(",format=rgba[waveform_visual]");
    let over: String = text_concat3(
        "[",
        graph.video.as_str(),
        "][waveform_visual]overlay=(W-w)/2:(H-h)/2:shortest=1[assembled_video_waveform]",
    );
    let mut filters: Vec<String> = graph.filters;
    push_one(&mut filters, split.as_str());
    push_one(&mut filters, waves.as_str());
    push_one(&mut filters, over.as_str());
    Graph {
        filters,
        video: String::from_str("assembled_video_waveform"),
        audio: String::from_str("audio_for_master"),
    }
}

fn add_subtitles(graph: Graph, options: &AssemblyOptions, subtitles: &Option<String>) -> (result: Graph)
    ensures
        result.deep_view() == with_subtitles(graph.deep_view(), *options, subtitles.deep_view()),
{
    match subtitles {
        Some(path) => if options.burn_captions {
            let file: String = escape(Place::FilterPath, path.as_str());
            let mut text: String = text_concat3("[", graph.video.as_str(), "]subtitles=filename='");
            text.append(file.as_str());
            text.append("'[video_output]");
            let mut filters: Vec<String> = graph.filters;
            push_one(&mut filters, text.as_str());
            Graph { filters, video: String::from_str("video_output"), audio: graph.audio }
        } else {
            graph
        },
        None => graph,
    }
}

fn add_loudness(graph: Graph, manifest: &VideoProjectManifest) -> (result: Graph)
    ensures
        result.deep_view() == with_loudness(graph.deep_view(), manifest.deep_view()),
{
    let loudness: String = write_tenths(manifest.audio_mix.target_lufs_milli);
    let peak: String = write_tenths(manifest.audio_mix.true_peak_db_milli);
    let mut text: String = text_concat3("[", graph.audio.as_str(), "]loudnorm=I=");
    text.append(loudness.as_str());
    text.append(":TP=");
    text.append(peak.as_str());
    text.append(":LRA=11[audio_output]");
    let mut filters: Vec<String> = graph.filters;
    push_one(&mut filters, text.as_str());
    Graph { filters, video: graph.video, audio: graph.audio }
}

fn build_graph(
    manifest: &VideoProjectManifest,
    options: &AssemblyOptions,
    subtitles: &Option<String>,
    video_tracks: &Vec<TimelineTrack>,
    inputs: &Vec<TimelineClip>,
    assets: &Vec<VisualAsset>,
) -> (result: VideoResult<Graph>)
    requires
        canvas_fits(manifest.deep_view()),
        video_tracks.deep_view() == tracks_of(manifest.deep_view(), TrackKind::Video),
        inputs.deep_view() == input_clips(manifest.deep_view()),
        assets.deep_view() == input_assets(manifest.deep_view()),
        inputs.len() + assets.len() <= usize::MAX,
    ensures
        refusal(result) == graph_fault(manifest.deep_view()),
        result matches Ok(graph) ==> graph.deep_view() == graph_of(
            manifest.deep_view(),
            *options,
            subtitles.deep_view(),
        ),
{
    let ghost m = manifest.deep_view();
    let made: (Vec<String>, String) = make_picture(manifest, options, video_tracks, inputs, assets)?;
    let mut filters: Vec<String> = made.0;
    let audio_tracks: Vec<TimelineTrack> = select_tracks(manifest, TrackKind::Audio);
    assert(audio_tracks.deep_view().len() == audio_tracks.len());
    let mixed: bool = audio_tracks.len() > 0;
    let heard: &Vec<TimelineTrack> = if mixed {
        &audio_tracks
    } else {
        video_tracks
    };
    assert(heard.deep_view() == heard_tracks(m));
    assert(heard.deep_view().len() == heard.len());
    add_sound(&mut filters, manifest, heard, mixed, inputs)?;
    let label: String = add_mix(&mut filters, manifest, heard.len());
    let mut graph = Graph { filters, video: made.1, audio: label };
    assert(graph.deep_view() == mixed_graph(m, *options));
    let picture: Picture = plan_picture(manifest, options);
    if asks_for_waveform(manifest, video_tracks) && hears_anything(manifest, heard) {
        graph = add_waveform(graph, &picture);
    }
    assert(graph.deep_view() == with_waveform(mixed_graph(m, *options), m, picture_of(m, *options)));
    Ok(add_loudness(add_subtitles(graph, options, subtitles), manifest))
}

// ---------------------------------------------------------------------------------------------
// Arguments
// ---------------------------------------------------------------------------------------------
pub open spec fn first_args() -> Seq<Seq<char>> {
    seq![
        "-hide_banner"@,
        "-loglevel"@,
        "error"@,
        "-nostdin"@,
        "-n"@,
        "-progress"@,
        "pipe:2"@,
        "-stats_period"@,
        "0.25"@,
    ]
}

/// The arguments that read the media.
pub open spec fn media_args(m: VideoProjectManifestModel, resolved: Seq<ResolvedMediaModel>) -> Seq<Seq<char>> {
    asset_args_from(
        clip_args_to(first_args(), resolved, input_clips(m), input_clips(m).len() as int),
        resolved,
        frame_rate_of(m),
        Seq::empty(),
        m.visual_assets,
        m.visual_layers,
        0,
    )
}

pub open spec fn media_faults(m: VideoProjectManifestModel, resolved: Seq<ResolvedMediaModel>) -> Option<Fault> {
    or_else(
        clip_faults_from(resolved, input_clips(m), 0),
        asset_faults_from(resolved, Seq::empty(), m.visual_assets, m.visual_layers, 0),
    )
}

/// The arguments up to those of the output.
pub open spec fn graph_args(
    m: VideoProjectManifestModel,
    resolved: Seq<ResolvedMediaModel>,
    options: AssemblyOptions,
    subtitles: Option<Seq<char>>,
) -> Seq<Seq<char>> {
    let graph = graph_of(m, options, subtitles);
    media_args(m, resolved) + seq![
        "-map_metadata"@,
        "-1"@,
        "-map_chapters"@,
        "-1"@,
        "-filter_complex"@,
        joined(graph.filters, ";"@, graph.filters.len() as int),
        "-map"@,
        "["@ + graph.video + "]"@,
        "-map"@,
        "[audio_output]"@,
    ]
}

pub open spec fn nvenc_preset(profile: RenderProfile) -> Seq<char> {
    match profile {
        RenderProfile::Proxy => "p2"@,
        RenderProfile::Preview => "p3"@,
        RenderProfile::Final => "p5"@,
    }
}

pub open spec fn nvenc_quality(profile: RenderProfile) -> Seq<char> {
    match profile {
        RenderProfile::Proxy => "29"@,
        RenderProfile::Preview => "24"@,
        RenderProfile::Final => "19"@,
    }
}

pub open spec fn software_preset(profile: RenderProfile) -> Seq<char> {
    match profile {
        RenderProfile::Proxy => "ultrafast"@,
        RenderProfile::Preview => "veryfast"@,
        RenderProfile::Final => "medium"@,
    }
}

pub open spec fn software_quality(profile: RenderProfile) -> Seq<char> {
    match profile {
        RenderProfile::Proxy => "28"@,
        RenderProfile::Preview => "24"@,
        RenderProfile::Final => "19"@,
    }
}

pub open spec fn audio_rate(profile: RenderProfile) -> Seq<char> {
    match profile {
        RenderProfile::Proxy => "96k"@,
        RenderProfile::Preview => "128k"@,
        RenderProfile::Final => "192k"@,
    }
}

pub open spec fn encoder_args(profile: RenderProfile, encoder: VideoEncoder) -> Seq<Seq<char>> {
    match encoder {
        VideoEncoder::H264Nvenc => seq![
            "-c:v"@,
            "h264_nvenc"@,
            "-preset"@,
            nvenc_preset(profile),
            "-tune"@,
            "hq"@,
            "-rc"@,
            "vbr"@,
            "-cq"@,
            nvenc_quality(profile),
            "-b:v"@,
            "0"@,
        ],
        VideoEncoder::Libx264 => seq![
            "-c:v"@,
            "libx264"@,
            "-preset"@,
            software_preset(profile),
            "-crf"@,
            software_quality(profile),
        ],
        VideoEncoder::Image => Seq::empty(),
        VideoEncoder::AudioOnly => Seq::empty(),
    }
}

pub open spec fn container_args(profile: RenderProfile, output: Seq<char>) -> Seq<Seq<char>> {
    seq![
        "-pix_fmt"@,
        "yuv420p"@,
        "-c:a"@,
        "aac"@,
        "-b:a"@,
        audio_rate(profile),
        "-ar"@,
        "48000"@,
        "-movflags"@,
        "+faststart"@,
        "-shortest"@,
        "-f"@,
        "mp4"@,
        output,
    ]
}

/// Arguments with those that encode and write the output.
pub open spec fn output_args(args: Seq<Seq<char>>, output: Seq<char>, profile: RenderProfile, encoder: VideoEncoder) -> Seq<
    Seq<char>,
> {
    args + encoder_args(profile, encoder) + container_args(profile, output)
}

fn push_encoder(args: &mut Vec<String>, profile: RenderProfile, encoder: VideoEncoder)
    ensures
        final(args).deep_view() == old(args).deep_view() + encoder_args(profile, encoder),
{
    let ghost before = args.deep_view();
    match encoder {
        VideoEncoder::H264Nvenc => {
            push_one(args, "-c:v");
            push_one(args, "h264_nvenc");
            push_one(args, "-preset");
            push_one(args, match profile {
                RenderProfile::Proxy => "p2",
                RenderProfile::Preview => "p3",
                RenderProfile::Final => "p5",
            });
            push_one(args, "-tune");
            push_one(args, "hq");
            push_one(args, "-rc");
            push_one(args, "vbr");
            push_one(args, "-cq");
            push_one(args, match profile {
                RenderProfile::Proxy => "29",
                RenderProfile::Preview => "24",
                RenderProfile::Final => "19",
            });
            push_one(args, "-b:v");
            push_one(args, "0");
        },
        VideoEncoder::Libx264 => {
            push_one(args, "-c:v");
            push_one(args, "libx264");
            push_one(args, "-preset");
            push_one(args, match profile {
                RenderProfile::Proxy => "ultrafast",
                RenderProfile::Preview => "veryfast",
                RenderProfile::Final => "medium",
            });
            push_one(args, "-crf");
            push_one(args, match profile {
                RenderProfile::Proxy => "28",
                RenderProfile::Preview => "24",
                RenderProfile::Final => "19",
            });
        },
        VideoEncoder::Image => {},
        VideoEncoder::AudioOnly => {},
    }
    assert(args.deep_view() =~= before + encoder_args(profile, encoder));
}

fn push_container(args: &mut Vec<String>, profile: RenderProfile, output: &str)
    ensures
        final(args).deep_view() == old(args).deep_view() + container_args(profile, output@),
{
    let ghost before = args.deep_view();
    push_one(args, "-pix_fmt");
    push_one(args, "yuv420p");
    push_one(args, "-c:a");
    push_one(args, "aac");
    push_one(args, "-b:a");
    push_one(args, match profile {
        RenderProfile::Proxy => "96k",
        RenderProfile::Preview => "128k",
        RenderProfile::Final => "192k",
    });
    push_one(args, "-ar");
    push_one(args, "48000");
    push_one(args, "-movflags");
    push_one(args, "+faststart");
    push_one(args, "-shortest");
    push_one(args, "-f");
    push_one(args, "mp4");
    push_one(args, output);
    assert(args.deep_view() =~= before + container_args(profile, output@));
}

fn render_output_arguments(args: &Vec<String>, output: &str, profile: RenderProfile, encoder: VideoEncoder) -> (result:
    Vec<String>)
    ensures
        result.deep_view() == output_args(args.deep_view(), output@, profile, encoder),
{
    let mut result: Vec<String> = args.duplicate();
    push_encoder(&mut result, profile, encoder);
    push_container(&mut result, profile, output);
    result
}

// ---------------------------------------------------------------------------------------------
// The plan
// ---------------------------------------------------------------------------------------------
pub open spec fn workload_of(profile: RenderProfile) -> RenderWorkloadClass {
    match profile {
        RenderProfile::Proxy => RenderWorkloadClass::Light,
        RenderProfile::Preview => RenderWorkloadClass::Medium,
        RenderProfile::Final => RenderWorkloadClass::Heavy,
    }
}

pub open spec fn command_of(
    program: Seq<char>,
    args: Seq<Seq<char>>,
    output: Seq<char>,
    profile: RenderProfile,
    encoder: VideoEncoder,
) -> RenderCommandModel {
    RenderCommandModel {
        program,
        args: output_args(args, output, profile, encoder),
        output,
        encoder,
        emits_progress: true,
    }
}

/// The plan that renders a timeline: in hardware with software to fall back on, or in software.
pub open spec fn render_plan(
    program: Seq<char>,
    m: VideoProjectManifestModel,
    resolved: Seq<ResolvedMediaModel>,
    subtitles: Option<Seq<char>>,
    output: Seq<char>,
    options: AssemblyOptions,
    hardware: bool,
) -> RenderCommandPlanModel {
    let args = graph_args(m, resolved, options, subtitles);
    let software = command_of(program, args, output, options.profile, VideoEncoder::Libx264);
    RenderCommandPlanModel {
        profile: options.profile,
        workload_class: workload_of(options.profile),
        primary: if hardware {
            command_of(program, args, output, options.profile, VideoEncoder::H264Nvenc)
        } else {
            software
        },
        software_fallback: if hardware {
            Some(software)
        } else {
            None
        },
    }
}

/// Why a timeline cannot be rendered.
pub open spec fn render_fault(m: VideoProjectManifestModel, resolved: Seq<ResolvedMediaModel>) -> Option<Fault> {
    or_else(
        VideoProjectManifest::fault_of(m),
        or_else(tracks_fault(m), or_else(media_faults(m, resolved), graph_fault(m))),
    )
}

fn push_first(args: &mut Vec<String>)
    ensures
        final(args).deep_view() == old(args).deep_view() + first_args(),
{
    let ghost before = args.deep_view();
    push_one(args, "-hide_banner");
    push_one(args, "-loglevel");
    push_one(args, "error");
    push_one(args, "-nostdin");
    push_one(args, "-n");
    push_one(args, "-progress");
    push_one(args, "pipe:2");
    push_one(args, "-stats_period");
    push_one(args, "0.25");
    assert(args.deep_view() =~= before + first_args());
}

/// The clips and the pictures that a render reads, with the arguments that read them.
struct Reading {
    args: Vec<String>,
    inputs: Vec<TimelineClip>,
    assets: Vec<VisualAsset>,
}

fn read_media(manifest: &VideoProjectManifest, resolved: &Vec<ResolvedMedia>, video_tracks: &Vec<TimelineTrack>) -> (result:
    VideoResult<Reading>)
    requires
        video_tracks.deep_view() == tracks_of(manifest.deep_view(), TrackKind::Video),
    ensures
        refusal(result) == media_faults(manifest.deep_view(), resolved.deep_view()),
        result matches Ok(reading) ==> {
            &&& reading.args.deep_view() == media_args(manifest.deep_view(), resolved.deep_view())
            &&& reading.inputs.deep_view() == input_clips(manifest.deep_view())
            &&& reading.assets.deep_view() == input_assets(manifest.deep_view())
            &&& reading.inputs.len() + reading.assets.len() <= usize::MAX
        },
{
    let ghost m = manifest.deep_view();
    let ghost known = resolved.deep_view();
    let audio_tracks: Vec<TimelineTrack> = select_tracks(manifest, TrackKind::Audio);
    let mut inputs: Vec<TimelineClip> = Vec::new();
    assert(inputs.deep_view() =~= Seq::empty());
    collect_clips(&mut inputs, video_tracks);
    collect_clips(&mut inputs, &audio_tracks);
    let mut args: Vec<String> = Vec::new();
    assert(args.deep_view() =~= Seq::empty());
    push_first(&mut args);
    assert(args.deep_view() =~= first_args());
    append_clip_args(&mut args, resolved, &inputs)?;
    let ghost with_clips = args.deep_view();
    let frame_rate: String = write_frame_rate(manifest);
    let assets: Vec<VisualAsset> = append_asset_args(
        &mut args,
        resolved,
        frame_rate.as_str(),
        &manifest.visual_assets,
        &manifest.visual_layers,
    )?;
    proof {
        lemma_clip_args(first_args(), known, input_clips(m), input_clips(m).len() as int);
        lemma_asset_args(
            with_clips,
            known,
            frame_rate_of(m),
            Seq::empty(),
            m.visual_assets,
            m.visual_layers,
            0,
        );
        assert(args.deep_view().len() == args.len());
        assert(inputs.deep_view().len() == inputs.len());
        assert(assets.deep_view().len() == assets.len());
    }
    Ok(Reading { args, inputs, assets })
}

fn push_graph(args: &mut Vec<String>, graph: &Graph)
    ensures
        final(args).deep_view() == old(args).deep_view() + seq![
            "-map_metadata"@,
            "-1"@,
            "-map_chapters"@,
            "-1"@,
            "-filter_complex"@,
            joined(graph.deep_view().filters, ";"@, graph.deep_view().filters.len() as int),
            "-map"@,
            "["@ + graph.deep_view().video + "]"@,
            "-map"@,
            "[audio_output]"@,
        ],
{
    let ghost before = args.deep_view();
    assert(graph.filters.deep_view().len() == graph.filters.len());
    let chain: String = join_first(&graph.filters, ";", graph.filters.len());
    let video: String = text_concat3("[", graph.video.as_str(), "]");
    push_one(args, "-map_metadata");
    push_one(args, "-1");
    push_one(args, "-map_chapters");
    push_one(args, "-1");
    push_one(args, "-filter_complex");
    push_one(args, chain.as_str());
    push_one(args, "-map");
    push_one(args, video.as_str());
    push_one(args, "-map");
    push_one(args, "[audio_output]");
    assert(args.deep_view() =~= before + seq![
        "-map_metadata"@,
        "-1"@,
        "-map_chapters"@,
        "-1"@,
        "-filter_complex"@,
        chain@,
        "-map"@,
        video@,
        "-map"@,
        "[audio_output]"@,
    ]);
}

fn make_command(program: &str, args: &Vec<String>, output: &str, profile: RenderProfile, encoder: VideoEncoder) -> (command:
    RenderCommand)
    ensures
        command.deep_view() == command_of(program@, args.deep_view(), output@, profile, encoder),
{
    RenderCommand {
        program: String::from_str(program),
        args: render_output_arguments(args, output, profile, encoder),
        output: String::from_str(output),
        encoder,
        emits_progress: true,
    }
}

/// Builds one deterministic plan for the reviewed timeline. Scene-level cache callers can use the same
/// clip and range data to render unchanged segments beforehand, then bind those artifacts back into the
/// tracks without changing timeline math.
///
/// Paths arrive resolved: the program, the media files as they were found, the subtitle document and
/// the output.
pub fn build_timeline_render_plan(
    program: &str,
    manifest: &VideoProjectManifest,
    resolved_sources: &Vec<ResolvedMedia>,
    subtitles: &Option<String>,
    output: &str,
    options: &AssemblyOptions,
    h264_nvenc_runtime: bool,
) -> (result: VideoResult<RenderCommandPlan>)
    ensures
        refusal(result) == render_fault(manifest.deep_view(), resolved_sources.deep_view()),
        result matches Ok(plan) ==> plan.deep_view() == render_plan(
            program@,
            manifest.deep_view(),
            resolved_sources.deep_view(),
            subtitles.deep_view(),
            output@,
            *options,
            h264_nvenc_runtime,
        ),
{
    let ghost m = manifest.deep_view();
    manifest.validate_strict()?;
    proof {
        lemma_canvas(m);
    }
    let video_tracks: Vec<TimelineTrack> = select_tracks(manifest, TrackKind::Video);
    check_tracks(manifest, &video_tracks)?;
    let reading: Reading = read_media(manifest, resolved_sources, &video_tracks)?;
    let graph: Graph = build_graph(
        manifest,
        options,
        subtitles,
        &video_tracks,
        &reading.inputs,
        &reading.assets,
    )?;
    let mut args: Vec<String> = reading.args;
    push_graph(&mut args, &graph);
    assert(args.deep_view() == graph_args(m, resolved_sources.deep_view(), *options, subtitles.deep_view()));
    let software: RenderCommand = make_command(program, &args, output, options.profile, VideoEncoder::Libx264);
    let workload_class: RenderWorkloadClass = match options.profile {
        RenderProfile::Proxy => RenderWorkloadClass::Light,
        RenderProfile::Preview => RenderWorkloadClass::Medium,
        RenderProfile::Final => RenderWorkloadClass::Heavy,
    };
    if h264_nvenc_runtime {
        let hardware: RenderCommand = make_command(
            program,
            &args,
            output,
            options.profile,
            VideoEncoder::H264Nvenc,
        );
        Ok(
            RenderCommandPlan {
                profile: options.profile,
                workload_class,
                primary: hardware,
                software_fallback: Some(software),
            },
        )
    } else {
        Ok(
            RenderCommandPlan {
                profile: options.profile,
                workload_class,
                primary: software,
                software_fallback: None,
            },
        )
    }
}

/// A plan for the hardware encoder falls back on the very command that is planned without it.
pub proof fn hardware_falls_back_on_software(
    program: Seq<char>,
    m: VideoProjectManifestModel,
    resolved: Seq<ResolvedMediaModel>,
    subtitles: Option<Seq<char>>,
    output: Seq<char>,
    options: AssemblyOptions,
)
    ensures
        ({
            let hardware = render_plan(program, m, resolved, subtitles, output, options, true);
            let software = render_plan(program, m, resolved, subtitles, output, options, false);
            &&& hardware.software_fallback == Some(software.primary)
            &&& software.software_fallback is None
            &&& software.primary.encoder == VideoEncoder::Libx264
        }),
{
}

/// A better profile is encoded better: each codec is asked for less loss, and the sound for more bits, in a final
/// than in a preview and in a preview than in a proxy; and a heavier profile is counted as more work.
pub proof fn better_profiles_are_encoded_better()
    ensures
        number_in(software_quality(RenderProfile::Final)) < number_in(software_quality(RenderProfile::Preview))
            < number_in(software_quality(RenderProfile::Proxy)),
        number_in(nvenc_quality(RenderProfile::Final)) < number_in(nvenc_quality(RenderProfile::Preview)) < number_in(
            nvenc_quality(RenderProfile::Proxy),
        ),
        number_in(audio_rate(RenderProfile::Final).drop_last()) > number_in(
            audio_rate(RenderProfile::Preview).drop_last(),
        ) > number_in(audio_rate(RenderProfile::Proxy).drop_last()),
        number_in(software_quality(RenderProfile::Final)) == number_in(nvenc_quality(RenderProfile::Final)),
        number_in(software_quality(RenderProfile::Preview)) == number_in(nvenc_quality(RenderProfile::Preview)),
        workload_of(RenderProfile::Proxy) == RenderWorkloadClass::Light,
        workload_of(RenderProfile::Final) == RenderWorkloadClass::Heavy,
{
    reveal_strlit("19");
    reveal_strlit("24");
    reveal_strlit("28");
    reveal_strlit("29");
    reveal_strlit("96k");
    reveal_strlit("128k");
    reveal_strlit("192k");
    lemma_two_digits("19"@);
    lemma_two_digits("24"@);
    lemma_two_digits("28"@);
    lemma_two_digits("29"@);
    lemma_two_digits("96k"@.drop_last());
    lemma_three_digits("128k"@.drop_last());
    lemma_three_digits("192k"@.drop_last());
}

proof fn lemma_two_digits(text: Seq<char>)
    requires
        text.len() == 2,
    ensures
        number_in(text) == 10 * digit_value(text[0]) + digit_value(text[1]),
{
    reveal_with_fuel(number_in, 3);
}

proof fn lemma_three_digits(text: Seq<char>)
    requires
        text.len() == 3,
    ensures
        number_in(text) == 100 * digit_value(text[0]) + 10 * digit_value(text[1]) + digit_value(text[2]),
{
    reveal_with_fuel(number_in, 4);
}

/// A drawn waveform stays on the canvas and is never thinner than two pixels where the canvas is not; it leaves a
/// sixth of the width free, and takes a quarter of the height.
pub proof fn a_waveform_stays_on_the_canvas(width: int, height: int)
    requires
        width >= 2,
        height >= 2,
    ensures
        2 <= waveform_width(width) <= width,
        2 <= waveform_height(height) <= height,
        width >= 6 ==> 6 * waveform_width(width) >= 5 * width && 6 * (width - waveform_width(width)) > width - 6,
        height >= 8 ==> 4 * waveform_height(height) <= height < 4 * (waveform_height(height) + 1),
{
}

/// Whatever is asked for, the sound is brought to the loudness of the mix last, and the picture that is mapped is
/// the one that the last filter of the picture made: the subtitled one where captions are burned in.
pub proof fn captions_are_burned_in_last(m: VideoProjectManifestModel, options: AssemblyOptions, path: Seq<char>)
    ensures
        options.burn_captions ==> graph_of(m, options, Some(path)).video == "video_output"@,
        !options.burn_captions ==> graph_of(m, options, Some(path)) == graph_of(m, options, None),
        graph_of(m, options, Some(path)).filters.len() == graph_of(m, options, None).filters.len()
            + if options.burn_captions { 1int } else { 0 },
{
}

/// Where a timeline has sound tracks, those are heard, all of them and in their order; where it has none, the sound
/// within the picture track is.
pub proof fn sound_tracks_are_heard(m: VideoProjectManifestModel) -> (places: Seq<int>)
    ensures
        places.len() == heard_tracks(m).len(),
        forall|k: int|
            0 <= k < places.len() ==> 0 <= #[trigger] places[k] < m.tracks.len() && heard_tracks(m)[k]
                == m.tracks[places[k]],
        forall|j: int, k: int| 0 <= j < k < places.len() ==> places[j] < places[k],
        ({
            let sounds = exists|t: int| 0 <= t < m.tracks.len() && (#[trigger] m.tracks[t]).kind == TrackKind::Audio;
            forall|t: int|
                0 <= t < m.tracks.len() ==> (places.contains(t) <==> (#[trigger] m.tracks[t]).kind == if sounds {
                    TrackKind::Audio
                } else {
                    TrackKind::Video
                })
        }),
{
    let audio = what_is_kept_keeps_its_order(m.tracks, of_kind(TrackKind::Audio));
    let video = what_is_kept_keeps_its_order(m.tracks, of_kind(TrackKind::Video));
    let sounds = exists|t: int| 0 <= t < m.tracks.len() && (#[trigger] m.tracks[t]).kind == TrackKind::Audio;
    if audio.len() > 0 {
        assert(of_kind(TrackKind::Audio)(m.tracks[audio[0]]));
        assert(sounds);
        assert forall|t: int| 0 <= t < m.tracks.len() implies (audio.contains(t) <==> (#[trigger] m.tracks[t]).kind
            == TrackKind::Audio) by {
            assert(of_kind(TrackKind::Audio)(m.tracks[t]) <==> m.tracks[t].kind == TrackKind::Audio);
            if audio.contains(t) {
                let k = choose|k: int| 0 <= k < audio.len() && audio[k] == t;
                assert(of_kind(TrackKind::Audio)(m.tracks[audio[k]]));
            }
        }
        audio
    } else {
        if sounds {
            let t = choose|t: int| 0 <= t < m.tracks.len() && (#[trigger] m.tracks[t]).kind == TrackKind::Audio;
            assert(of_kind(TrackKind::Audio)(m.tracks[t]));
            assert(audio.contains(t));
        }
        assert forall|t: int| 0 <= t < m.tracks.len() implies (video.contains(t) <==> (#[trigger] m.tracks[t]).kind
            == TrackKind::Video) by {
            assert(of_kind(TrackKind::Video)(m.tracks[t]) <==> m.tracks[t].kind == TrackKind::Video);
            if video.contains(t) {
                let k = choose|k: int| 0 <= k < video.len() && video[k] == t;
                assert(of_kind(TrackKind::Video)(m.tracks[video[k]]));
            }
        }
        video
    }
}

/// An episode that is only heard is drawn: where no picture clip is there and some clip that is heard has sound, the
/// waveform is shown.
pub proof fn what_is_only_heard_is_drawn(m: VideoProjectManifestModel, track: int, clip: int)
    requires
        0 <= track < heard_tracks(m).len(),
        0 <= clip < heard_tracks(m)[track].clips.len(),
        has_sound(m, heard_tracks(m)[track].clips[clip]),
        forall|t: int|
            0 <= t < m.tracks.len() && (#[trigger] m.tracks[t]).kind == TrackKind::Video ==> m.tracks[t].clips.len()
                == 0,
    ensures
        shows_waveform(m),
{
    let video = what_is_kept_keeps_its_order(m.tracks, of_kind(TrackKind::Video));
    let tracks = tracks_of(m, TrackKind::Video);
    if tracks.len() > 0 && tracks[0].clips.len() > 0 {
        let t = video[0];
        assert(of_kind(TrackKind::Video)(m.tracks[t]));
        assert(m.tracks[t].clips.len() == 0);
    }
    assert(clips_sound(m, heard_tracks(m)[track].clips));
    lemma_any_sound(m, heard_tracks(m), 0, track);
}

proof fn lemma_any_sound(m: VideoProjectManifestModel, tracks: Seq<TimelineTrackModel>, from: int, track: int)
    requires
        0 <= from <= track < tracks.len(),
        clips_sound(m, tracks[track].clips),
    ensures
        any_sound_from(m, tracks, from),
    decreases track - from,
{
    if from < track {
        lemma_any_sound(m, tracks, from + 1, track);
    }
}

/// A track is mixed as its own entry of the mix asks: among the filters of some tracks stands, for each of them, the
/// one that brings it to the gain and the pan of the entry that names it, and to none where no entry does.
pub proof fn a_track_is_mixed_by_its_own_entry(
    filters: Seq<Seq<char>>,
    m: VideoProjectManifestModel,
    tracks: Seq<TimelineTrackModel>,
    count: int,
    track: int,
)
    requires
        0 <= track < count <= tracks.len(),
    ensures
        ({
            let entry = find::<AudioMixTrack>(m.audio_mix.tracks, tracks[track].id);
            let all = sound_filters_to(filters, m, tracks, true, count);
            &&& all.contains(mix_filter(entry, track))
            &&& entry is Some ==> entry->0.track_id == tracks[track].id
            &&& all.len() >= filters.len()
            &&& forall|i: int| 0 <= i < filters.len() ==> #[trigger] all[i] == filters[i]
        }),
    decreases count,
{
    let entry = find::<AudioMixTrack>(m.audio_mix.tracks, tracks[track].id);
    what_is_found_bears_the_name::<AudioMixTrack>(m.audio_mix.tracks, tracks[track].id);
    let before = sound_filters_to(filters, m, tracks, true, count - 1);
    let all = sound_filters_to(filters, m, tracks, true, count);
    if track == count - 1 {
        assert(all.last() == mix_filter(entry, track));
        assert(all[all.len() - 1] == mix_filter(entry, track));
        lemma_filters_stay(filters, m, tracks, count);
    } else {
        a_track_is_mixed_by_its_own_entry(filters, m, tracks, count - 1, track);
        let k = choose|k: int| 0 <= k < before.len() && before[k] == mix_filter(entry, track);
        assert(all[k] == before[k]);
        lemma_filters_stay(filters, m, tracks, count);
    }
}

proof fn lemma_filters_stay(
    filters: Seq<Seq<char>>,
    m: VideoProjectManifestModel,
    tracks: Seq<TimelineTrackModel>,
    count: int,
)
    requires
        0 <= count <= tracks.len(),
    ensures
        ({
            let all = sound_filters_to(filters, m, tracks, true, count);
            &&& all.len() >= filters.len()
            &&& forall|i: int| 0 <= i < filters.len() ==> #[trigger] all[i] == filters[i]
        }),
    decreases count,
{
    if count > 0 {
        lemma_filters_stay(filters, m, tracks, count - 1);
        let before = sound_filters_to(filters, m, tracks, true, count - 1);
        let all = sound_filters_to(filters, m, tracks, true, count);
        assert forall|i: int| 0 <= i < filters.len() implies #[trigger] all[i] == filters[i] by {
            assert(before[i] == filters[i]);
            assert(all[i] == before[i]);
        }
    }
}

/// The last filter brings the sound to the loudness and under the peak that the mix asks for, and leaves the picture and
/// the filters before it as they are.
pub proof fn the_mix_has_the_loudness_asked_for(graph: GraphModel, m: VideoProjectManifestModel) -> (texts: (Seq<char>, Seq<char>))
    ensures
        with_loudness(graph, m).filters.drop_last() == graph.filters,
        with_loudness(graph, m).filters.last() == "["@ + graph.audio + "]loudnorm=I="@ + texts.0 + ":TP="@ + texts.1
            + ":LRA=11[audio_output]"@,
        texts.0 == tenths_text(m.audio_mix.target_lufs_milli as int),
        texts.1 == tenths_text(m.audio_mix.true_peak_db_milli as int),
        with_loudness(graph, m).video == graph.video,
{
    assert(with_loudness(graph, m).filters.drop_last() =~= graph.filters);
    (tenths_text(m.audio_mix.target_lufs_milli as int), tenths_text(m.audio_mix.true_peak_db_milli as int))
}

} // verus!
