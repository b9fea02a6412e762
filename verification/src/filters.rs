//! The filters that play the tracks of a timeline, as a filter graph writes them.

use crate::canvas::PortraitLayout;
use crate::decimals::{a_fraction_reads_as_its_nearest_part, fixed, fixed_text};
use crate::error::{fault, or_else, refusal, unless, Fault, VideoError, VideoErrorCode, VideoResult};
use crate::manifest::{
    AudioMixTrack, AudioMixTrackModel, NormalizedRect, RenderArtifact, SourceAsset, TimelineClip, TimelineClipModel,
    TimelineGap, TimelineGapModel, TimelineTrack, TimelineTrackModel, VideoProjectManifest, VideoProjectManifestModel,
};
use crate::model::{find_last, find_last_named, find_place, place_of};
use crate::notation::{ffmpeg_time, seconds_of, seconds_read_as_their_microseconds};
use crate::spans::{complete_fault, complete_spans, complete_track_spans, spans_play_the_tracks_clips, TrackSpan};
use crate::text::{
    a_number_reads_as_itself, chars_in, decimal, decimal_text, has_prefix, number_in, power_of_ten, signed_decimal,
    signed_decimal_text, text_concat, text_concat3,
};
use crate::time::{on_clock, Microseconds, RationalRate};
use crate::validate::plays_exactly;
use vstd::prelude::*;

verus! {

/// A name made of a lead and a number.
pub open spec fn numbered(lead: Seq<char>, number: int) -> Seq<char> {
    lead + decimal(number as nat)
}

pub fn number_label(lead: &str, number: usize) -> (label: String)
    ensures
        label@ == numbered(lead@, number as int),
{
    let digits: String = decimal_text(number as u64);
    text_concat(lead, digits.as_str())
}

/// The labels of the first segments, each in brackets.
pub open spec fn labels_to(lead: Seq<char>, count: int) -> Seq<char>
    decreases count,
{
    if count <= 0 {
        Seq::empty()
    } else {
        labels_to(lead, count - 1) + ("["@ + numbered(lead, count - 1) + "]"@)
    }
}

pub fn write_labels(lead: &str, count: usize) -> (text: String)
    ensures
        text@ == labels_to(lead@, count as int),
{
    let mut text: String = String::new();
    let mut place: usize = 0;
    assert(text@ =~= Seq::empty());
    while place < count
        invariant
            place <= count,
            text@ == labels_to(lead@, place as int),
        decreases count - place,
    {
        let label: String = number_label(lead, place);
        let bracketed: String = text_concat3("[", label.as_str(), "]");
        text.append(bracketed.as_str());
        place += 1;
    }
    text
}

/// Thousandths with three decimals.
pub open spec fn thousandths_text(value: int) -> Seq<char> {
    if value < 0 {
        "-"@ + fixed(-value, 1_000, 1_000, 3)
    } else {
        fixed(value, 1_000, 1_000, 3)
    }
}

/// Writes thousandths with three decimals.
pub fn write_thousandths(value: i32) -> (text: String)
    ensures
        text@ == thousandths_text(value as int),
{
    if value < 0 {
        let size: String = fixed_text((-(value as i64)) as u64, 1_000, 1_000, 3);
        text_concat("-", size.as_str())
    } else {
        fixed_text(value as u64, 1_000, 1_000, 3)
    }
}

/// Thousandths with one decimal.
pub open spec fn tenths_text(value: int) -> Seq<char> {
    if value < 0 {
        "-"@ + fixed(-value, 1_000, 10, 1)
    } else {
        fixed(value, 1_000, 10, 1)
    }
}

/// Writes thousandths with one decimal.
pub fn write_tenths(value: i32) -> (text: String)
    ensures
        text@ == tenths_text(value as int),
{
    if value < 0 {
        let size: String = fixed_text((-(value as i64)) as u64, 1_000, 10, 1);
        text_concat("-", size.as_str())
    } else {
        fixed_text(value as u64, 1_000, 10, 1)
    }
}

/// The filter that crops a picture.
pub open spec fn crop_filter(crop: NormalizedRect) -> Seq<char> {
    "crop=w='max(2\\,trunc(iw*"@ + signed_decimal(crop.width_bp as int) + "/20000)*2)':h='max(2\\,trunc(ih*"@
        + signed_decimal(crop.height_bp as int) + "/20000)*2)':x='trunc(iw*"@ + signed_decimal(crop.x_bp as int)
        + "/10000/2)*2':y='trunc(ih*"@ + signed_decimal(crop.y_bp as int) + "/10000/2)*2'"@
}

/// The filter that crops a picture.
pub fn normalized_crop_filter(crop: NormalizedRect) -> (text: String)
    ensures
        text@ == crop_filter(crop),
{
    let width: String = signed_decimal_text(crop.width_bp as i64);
    let height: String = signed_decimal_text(crop.height_bp as i64);
    let x: String = signed_decimal_text(crop.x_bp as i64);
    let y: String = signed_decimal_text(crop.y_bp as i64);
    let mut text: String = String::from_str("crop=w='max(2\\,trunc(iw*");
    text.append(width.as_str());
    text.append("/20000)*2)':h='max(2\\,trunc(ih*");
    text.append(height.as_str());
    text.append("/20000)*2)':x='trunc(iw*");
    text.append(x.as_str());
    text.append("/10000/2)*2':y='trunc(ih*");
    text.append(y.as_str());
    text.append("/10000/2)*2'");
    text
}

// ---------------------------------------------------------------------------------------------
// Pictures
// ---------------------------------------------------------------------------------------------
/// How pictures are rendered.
pub struct PictureModel {
    pub width: u32,
    pub height: u32,
    pub frame_rate: Seq<char>,
    pub layout: PortraitLayout,
    pub background: Seq<char>,
}

/// How pictures are rendered.
pub struct Picture {
    pub width: u32,
    pub height: u32,
    pub frame_rate: String,
    pub layout: PortraitLayout,
    pub background: String,
}

impl DeepView for Picture {
    type V = PictureModel;

    open spec fn deep_view(&self) -> PictureModel {
        PictureModel {
            width: self.width,
            height: self.height,
            frame_rate: self.frame_rate@,
            layout: self.layout,
            background: self.background@,
        }
    }
}

pub open spec fn times(picture: PictureModel, by: Seq<char>) -> Seq<char> {
    decimal(picture.width as nat) + by + decimal(picture.height as nat)
}

fn write_times(picture: &Picture, by: &str) -> (text: String)
    ensures
        text@ == times(picture.deep_view(), by@),
{
    let width: String = decimal_text(picture.width as u64);
    let height: String = decimal_text(picture.height as u64);
    text_concat3(width.as_str(), by, height.as_str())
}

/// The filter that shows the background for a time.
pub open spec fn blank_filter(picture: PictureModel, length: int, label: Seq<char>) -> Seq<char> {
    "color=c="@ + picture.background + ":s="@ + times(picture, "x"@) + ":r="@ + picture.frame_rate + ":d="@
        + seconds_of(length) + "["@ + label + "]"@
}

/// The filter that shows the background for a time.
pub fn write_blank(picture: &Picture, length: Microseconds, label: &str) -> (text: String)
    ensures
        text@ == blank_filter(picture.deep_view(), length.0 as int, label@),
{
    let size: String = write_times(picture, "x");
    let seconds: String = ffmpeg_time(length);
    let mut text: String = String::from_str("color=c=");
    text.append(picture.background.as_str());
    text.append(":s=");
    text.append(size.as_str());
    text.append(":r=");
    text.append(picture.frame_rate.as_str());
    text.append(":d=");
    text.append(seconds.as_str());
    text.append("[");
    text.append(label);
    text.append("]");
    text
}

/// How a clip's pictures are timed and cropped.
pub open spec fn clip_lead(clip: TimelineClipModel, input: int) -> Seq<char> {
    let timed = "["@ + decimal(input as nat) + ":v:0]setpts=(PTS-STARTPTS)*"@ + decimal(
        clip.playback_rate.denominator as nat,
    ) + "/"@ + decimal(clip.playback_rate.numerator as nat) + ",trim=duration="@ + seconds_of(
        clip.timeline_duration_us.0 as int,
    ) + ",setpts=PTS-STARTPTS"@;
    match clip.crop {
        Some(crop) => timed + ","@ + crop_filter(crop),
        None => timed,
    }
}

/// How pictures of another shape are brought to the canvas.
pub open spec fn fitted(picture: PictureModel, place: int, label: Seq<char>) -> Seq<char> {
    let scale = "scale=w="@ + times(picture, ":h="@);
    let size = times(picture, ":"@);
    let number = decimal(place as nat);
    let tail = ",setsar=1,fps="@ + picture.frame_rate + "["@ + label + "]"@;
    match picture.layout {
        PortraitLayout::CenterCrop => ","@ + scale + ":force_original_aspect_ratio=increase:force_divisible_by=2,crop="@
            + size + tail,
        PortraitLayout::Contain => ","@ + scale + ":force_original_aspect_ratio=decrease:force_divisible_by=2,pad="@
            + size + ":(ow-iw)/2:(oh-ih)/2:color="@ + picture.background + tail,
        PortraitLayout::BlurPad => ",split=2[vbg"@ + number + "][vfg"@ + number + "];[vbg"@ + number + "]"@ + scale
            + ":force_original_aspect_ratio=increase:force_divisible_by=2,crop="@ + size
            + ",boxblur=luma_radius=24:luma_power=1[bg"@ + number + "];[vfg"@ + number + "]"@ + scale
            + ":force_original_aspect_ratio=decrease:force_divisible_by=2[fg"@ + number + "];[bg"@ + number + "][fg"@
            + number + "]overlay=(W-w)/2:(H-h)/2"@ + tail,
    }
}

fn write_clip_lead(clip: &TimelineClip, input: usize) -> (text: String)
    ensures
        text@ == clip_lead(clip.deep_view(), input as int),
{
    let number: String = decimal_text(input as u64);
    let denominator: String = decimal_text(clip.playback_rate.denominator as u64);
    let numerator: String = decimal_text(clip.playback_rate.numerator as u64);
    let seconds: String = ffmpeg_time(clip.timeline_duration_us);
    let mut text: String = String::from_str("[");
    text.append(number.as_str());
    text.append(":v:0]setpts=(PTS-STARTPTS)*");
    text.append(denominator.as_str());
    text.append("/");
    text.append(numerator.as_str());
    text.append(",trim=duration=");
    text.append(seconds.as_str());
    text.append(",setpts=PTS-STARTPTS");
    if let Some(crop) = clip.crop {
        let cropped: String = normalized_crop_filter(crop);
        text.append(",");
        text.append(cropped.as_str());
    }
    text
}

fn write_fitted(picture: &Picture, place: usize, label: &str) -> (text: String)
    ensures
        text@ == fitted(picture.deep_view(), place as int, label@),
{
    let pair: String = write_times(picture, ":h=");
    let scale: String = text_concat("scale=w=", pair.as_str());
    let size: String = write_times(picture, ":");
    let number: String = decimal_text(place as u64);
    let mut tail: String = text_concat3(",setsar=1,fps=", picture.frame_rate.as_str(), "[");
    tail.append(label);
    tail.append("]");
    match picture.layout {
        PortraitLayout::CenterCrop => {
            let mut text: String = text_concat(",", scale.as_str());
            text.append(":force_original_aspect_ratio=increase:force_divisible_by=2,crop=");
            text.append(size.as_str());
            text.append(tail.as_str());
            text
        },
        PortraitLayout::Contain => {
            let mut text: String = text_concat(",", scale.as_str());
            text.append(":force_original_aspect_ratio=decrease:force_divisible_by=2,pad=");
            text.append(size.as_str());
            text.append(":(ow-iw)/2:(oh-ih)/2:color=");
            text.append(picture.background.as_str());
            text.append(tail.as_str());
            text
        },
        PortraitLayout::BlurPad => {
            let mut text: String = text_concat(",split=2[vbg", number.as_str());
            text.append("][vfg");
            text.append(number.as_str());
            text.append("];[vbg");
            text.append(number.as_str());
            text.append("]");
            text.append(scale.as_str());
            text.append(":force_original_aspect_ratio=increase:force_divisible_by=2,crop=");
            text.append(size.as_str());
            text.append(",boxblur=luma_radius=24:luma_power=1[bg");
            text.append(number.as_str());
            text.append("];[vfg");
            text.append(number.as_str());
            text.append("]");
            text.append(scale.as_str());
            text.append(":force_original_aspect_ratio=decrease:force_divisible_by=2[fg");
            text.append(number.as_str());
            text.append("];[bg");
            text.append(number.as_str());
            text.append("][fg");
            text.append(number.as_str());
            text.append("]overlay=(W-w)/2:(H-h)/2");
            text.append(tail.as_str());
            text
        },
    }
}

pub open spec fn no_video_input() -> Fault {
    fault(VideoErrorCode::MissingReference, "video clip has no resolved FFmpeg input"@)
}

/// The filter of one span of a picture track.
pub open spec fn video_segment(
    picture: PictureModel,
    track: TimelineTrackModel,
    inputs: Seq<TimelineClipModel>,
    span: TrackSpan,
    place: int,
) -> Seq<char> {
    match span.clip {
        Some(at) => clip_lead(
            track.clips[at as int],
            place_of::<TimelineClip>(inputs, track.clips[at as int].id)->0,
        ) + fitted(picture, place, numbered("vseg"@, place)),
        None => blank_filter(picture, span.range.length(), numbered("vseg"@, place)),
    }
}

pub open spec fn segment_fault(
    track: TimelineTrackModel,
    inputs: Seq<TimelineClipModel>,
    span: TrackSpan,
    otherwise: Fault,
) -> Option<Fault> {
    match span.clip {
        Some(at) => unless(
            place_of::<TimelineClip>(inputs, track.clips[at as int].id) is Some,
            otherwise,
        ),
        None => unless(
            on_clock(span.range.length()),
            fault(VideoErrorCode::ArithmeticOverflow, "time range duration overflowed"@),
        ),
    }
}

pub open spec fn video_faults_from(
    track: TimelineTrackModel,
    inputs: Seq<TimelineClipModel>,
    spans: Seq<TrackSpan>,
    place: int,
) -> Option<Fault>
    decreases spans.len() - place,
{
    if place < 0 || place >= spans.len() {
        None
    } else {
        or_else(
            segment_fault(track, inputs, spans[place], no_video_input()),
            video_faults_from(track, inputs, spans, place + 1),
        )
    }
}

/// The filters of a picture track.
pub open spec fn video_filters(
    picture: PictureModel,
    track: TimelineTrackModel,
    inputs: Seq<TimelineClipModel>,
    spans: Seq<TrackSpan>,
) -> Seq<Seq<char>> {
    Seq::new(spans.len(), |i: int| video_segment(picture, track, inputs, spans[i], i)).push(
        labels_to("vseg"@, spans.len() as int) + "concat=n="@ + decimal(spans.len()) + ":v=1:a=0[assembled_video]"@,
    )
}

pub open spec fn video_fault(
    track: TimelineTrackModel,
    gaps: Seq<TimelineGapModel>,
    duration: int,
    inputs: Seq<TimelineClipModel>,
) -> Option<Fault> {
    or_else(
        complete_fault(track, gaps),
        video_faults_from(track, inputs, complete_spans(track, gaps, duration), 0),
    )
}

/// The filters of a picture track: each span in turn, and then all of them joined.
pub fn append_video_track_filters(
    filters: &mut Vec<String>,
    picture: &Picture,
    track: &TimelineTrack,
    gaps: &Vec<TimelineGap>,
    duration: Microseconds,
    inputs: &Vec<TimelineClip>,
) -> (result: VideoResult<()>)
    ensures
        refusal(result) == video_fault(
            track.deep_view(),
            gaps.deep_view(),
            duration.0 as int,
            inputs.deep_view(),
        ),
        result is Ok ==> final(filters).deep_view() == old(filters).deep_view() + video_filters(
            picture.deep_view(),
            track.deep_view(),
            inputs.deep_view(),
            complete_spans(track.deep_view(), gaps.deep_view(), duration.0 as int),
        ),
{
    let ghost model = track.deep_view();
    let ghost known = inputs.deep_view();
    let ghost view = picture.deep_view();
    let ghost before = filters.deep_view();
    let spans: Vec<TrackSpan> = complete_track_spans(track, gaps, duration)?;
    let ghost whole = video_filters(view, model, known, spans@);
    let mut place: usize = 0;
    assert(filters.deep_view() =~= before + whole.take(0));
    while place < spans.len()
        invariant
            place <= spans.len(),
            model == track.deep_view(),
            known == inputs.deep_view(),
            view == picture.deep_view(),
            spans@ == complete_spans(model, gaps.deep_view(), duration.0 as int),
            whole == video_filters(view, model, known, spans@),
            filters.deep_view() == before + whole.take(place as int),
            video_fault(model, gaps.deep_view(), duration.0 as int, known) == video_faults_from(
                model,
                known,
                spans@,
                place as int,
            ),
        decreases spans.len() - place,
    {
        let span: TrackSpan = spans[place];
        let label: String = number_label("vseg", place);
        let filter: String = match span.clip {
            Some(at) => {
                proof {
                    assert(model.clips.len() == track.clips.len());
                    spans_play_the_tracks_clips(model, gaps.deep_view(), duration.0 as int, place as int);
                }
                let clip: &TimelineClip = &track.clips[at];
                assert(model.clips[at as int] == clip.deep_view());
                match find_place(inputs, clip.id.as_str()) {
                    Some(input) => {
                        let lead: String = write_clip_lead(clip, input);
                        let tail: String = write_fitted(picture, place, label.as_str());
                        text_concat(lead.as_str(), tail.as_str())
                    },
                    None => {
                        return Err(
                            VideoError::new(
                                VideoErrorCode::MissingReference,
                                "video clip has no resolved FFmpeg input",
                            ),
                        );
                    },
                }
            },
            None => {
                let length: Microseconds = span.range.duration()?;
                write_blank(picture, length, label.as_str())
            },
        };
        assert(filter@ == whole[place as int]);
        let ghost so_far = filters.deep_view();
        filters.push(filter);
        assert(filters.deep_view() =~= so_far.push(whole[place as int]));
        assert(whole.take(place + 1) =~= whole.take(place as int).push(whole[place as int]));
        assert(filters.deep_view() =~= before + whole.take(place + 1));
        place += 1;
    }
    let count: String = decimal_text(spans.len() as u64);
    let mut joined: String = write_labels("vseg", spans.len());
    joined.append("concat=n=");
    joined.append(count.as_str());
    joined.append(":v=1:a=0[assembled_video]");
    assert(joined@ == whole.last());
    let ghost so_far = filters.deep_view();
    filters.push(joined);
    assert(filters.deep_view() =~= so_far.push(whole.last()));
    assert(filters.deep_view() =~= before + whole);
    Ok(())
}

// ---------------------------------------------------------------------------------------------
// Sound
// ---------------------------------------------------------------------------------------------
/// Whether a clip's media has sound.
pub open spec fn has_sound(m: VideoProjectManifestModel, clip: TimelineClipModel) -> bool {
    match clip.media.source_asset_id {
        Some(source_id) => match find_last::<SourceAsset>(m.source_assets, source_id) {
            Some(source) => source.probe.has_audio,
            None => false,
        },
        None => match clip.media.render_artifact_id {
            Some(artifact_id) => match find_last::<RenderArtifact>(m.render_artifacts, artifact_id) {
                Some(artifact) => is_playable(artifact.mime_type),
                None => false,
            },
            None => false,
        },
    }
}

/// Whether a kind of file has sound.
pub open spec fn is_playable(mime_type: Seq<char>) -> bool {
    starts_with(mime_type, "audio/"@) || starts_with(mime_type, "video/"@)
}

pub open spec fn starts_with(text: Seq<char>, lead: Seq<char>) -> bool {
    text.len() >= lead.len() && text.subrange(0, lead.len() as int) == lead
}

/// Whether a clip's media has sound.
pub fn clip_media_has_audio(manifest: &VideoProjectManifest, clip: &TimelineClip) -> (result: bool)
    ensures
        result == has_sound(manifest.deep_view(), clip.deep_view()),
{
    match &clip.media.source_asset_id {
        Some(source_id) => match find_last_named(&manifest.source_assets, source_id.as_str()) {
            Some(source) => source.probe.has_audio,
            None => false,
        },
        None => match &clip.media.render_artifact_id {
            Some(artifact_id) => match find_last_named(&manifest.render_artifacts, artifact_id.as_str()) {
                Some(artifact) => has_prefix(artifact.mime_type.as_str(), "audio/") || has_prefix(
                    artifact.mime_type.as_str(),
                    "video/",
                ),
                None => false,
            },
            None => false,
        },
    }
}

/// The filters that change the tempo by a rate: each doubles or halves it at most. What was written
/// before stands in front.
pub open spec fn tempo_from(written: Seq<char>, numerator: int, denominator: int) -> Seq<char>
    decreases
            if numerator >= denominator {
                numerator - denominator
            } else {
                denominator - numerator
            },
{
    if numerator <= 0 || denominator <= 0 {
        written
    } else if numerator > 2 * denominator {
        tempo_from(with_filter(written, "atempo=2.0"@), numerator, 2 * denominator)
    } else if 2 * numerator < denominator {
        tempo_from(with_filter(written, "atempo=0.5"@), 2 * numerator, denominator)
    } else if numerator != denominator || written.len() == 0 {
        with_filter(written, "atempo="@ + fixed(numerator, denominator, 100_000_000, 8))
    } else {
        written
    }
}

/// Filters with one more behind a comma.
pub open spec fn with_filter(written: Seq<char>, filter: Seq<char>) -> Seq<char> {
    if written.len() == 0 {
        filter
    } else {
        written + ","@ + filter
    }
}

pub open spec fn tempo_filters(rate: RationalRate) -> Seq<char> {
    tempo_from(Seq::empty(), rate.numerator as int, rate.denominator as int)
}

fn push_filter(written: &mut String, filter: &str)
    ensures
        final(written)@ == with_filter(old(written)@, filter@),
{
    if chars_in(written.as_str()) > 0 {
        written.append(",");
        written.append(filter);
    } else {
        *written = String::from_str(filter);
    }
}

/// The filters that change the tempo by a rate.
pub fn atempo_filters(rate: RationalRate) -> (text: String)
    ensures
        text@ == tempo_filters(rate),
{
    let mut written: String = String::new();
    let mut numerator: u64 = rate.numerator as u64;
    let mut denominator: u64 = rate.denominator as u64;
    assert(written@ =~= Seq::empty());
    if numerator == 0 || denominator == 0 {
        return written;
    }
    while numerator > 2 * denominator
        invariant
            0 < numerator <= 0xffff_ffff,
            0 < denominator <= 0xffff_ffff,
            tempo_filters(rate) == tempo_from(written@, numerator as int, denominator as int),
        decreases 0x1_0000_0000 - denominator,
    {
        push_filter(&mut written, "atempo=2.0");
        denominator = 2 * denominator;
    }
    while 2 * numerator < denominator
        invariant
            0 < numerator <= 2 * denominator,
            0 < denominator <= 0x1_ffff_ffff,
            tempo_filters(rate) == tempo_from(written@, numerator as int, denominator as int),
        decreases 0x2_0000_0000 - numerator,
    {
        push_filter(&mut written, "atempo=0.5");
        numerator = 2 * numerator;
    }
    if numerator != denominator || chars_in(written.as_str()) == 0 {
        let factor: String = fixed_text(numerator, denominator, 100_000_000, 8);
        let last: String = text_concat("atempo=", factor.as_str());
        push_filter(&mut written, last.as_str());
    }
    written
}

/// The filter that is silent for a time.
pub open spec fn quiet_filter(length: int, label: Seq<char>) -> Seq<char> {
    "anullsrc=r=48000:cl=stereo,atrim=duration="@ + seconds_of(length) + ",asetpts=PTS-STARTPTS["@ + label + "]"@
}

/// The filter that is silent for a time.
pub fn write_quiet(length: Microseconds, label: &str) -> (text: String)
    ensures
        text@ == quiet_filter(length.0 as int, label@),
{
    let seconds: String = ffmpeg_time(length);
    let mut text: String = String::from_str("anullsrc=r=48000:cl=stereo,atrim=duration=");
    text.append(seconds.as_str());
    text.append(",asetpts=PTS-STARTPTS[");
    text.append(label);
    text.append("]");
    text
}

pub open spec fn gain_filter(clip: TimelineClipModel) -> Seq<char> {
    if clip.muted {
        "volume=0"@
    } else {
        "volume="@ + thousandths_text(clip.gain_db_milli as int) + "dB"@
    }
}

/// The filter that plays a clip's sound.
pub open spec fn sound_filter(clip: TimelineClipModel, input: int, label: Seq<char>) -> Seq<char> {
    "["@ + decimal(input as nat) + ":a:0]asetpts=PTS-STARTPTS,"@ + tempo_filters(clip.playback_rate)
        + ",atrim=duration="@ + seconds_of(clip.timeline_duration_us.0 as int)
        + ",asetpts=PTS-STARTPTS,aresample=48000,aformat=sample_fmts=fltp:channel_layouts=stereo,"@ + gain_filter(clip)
        + "["@ + label + "]"@
}

fn write_sound(clip: &TimelineClip, input: usize, label: &str) -> (text: String)
    ensures
        text@ == sound_filter(clip.deep_view(), input as int, label@),
{
    let number: String = decimal_text(input as u64);
    let tempo: String = atempo_filters(clip.playback_rate);
    let seconds: String = ffmpeg_time(clip.timeline_duration_us);
    let gain: String = if clip.muted {
        "volume=0".to_owned()
    } else {
        let decibels: String = write_thousandths(clip.gain_db_milli);
        text_concat3("volume=", decibels.as_str(), "dB")
    };
    let mut text: String = String::from_str("[");
    text.append(number.as_str());
    text.append(":a:0]asetpts=PTS-STARTPTS,");
    text.append(tempo.as_str());
    text.append(",atrim=duration=");
    text.append(seconds.as_str());
    text.append(",asetpts=PTS-STARTPTS,aresample=48000,aformat=sample_fmts=fltp:channel_layouts=stereo,");
    text.append(gain.as_str());
    text.append("[");
    text.append(label);
    text.append("]");
    text
}

pub open spec fn no_audio_input() -> Fault {
    fault(VideoErrorCode::MissingReference, "audio clip has no resolved FFmpeg input"@)
}

pub open spec fn segment_lead(number: int) -> Seq<char> {
    numbered("atrack"@, number) + "seg"@
}

/// The filter of one span of a sound track.
pub open spec fn audio_segment(
    m: VideoProjectManifestModel,
    track: TimelineTrackModel,
    inputs: Seq<TimelineClipModel>,
    span: TrackSpan,
    number: int,
    place: int,
) -> Seq<char> {
    let label = numbered(segment_lead(number), place);
    match span.clip {
        Some(at) => if has_sound(m, track.clips[at as int]) {
            sound_filter(
                track.clips[at as int],
                place_of::<TimelineClip>(inputs, track.clips[at as int].id)->0,
                label,
            )
        } else {
            quiet_filter(track.clips[at as int].timeline_duration_us.0 as int, label)
        },
        None => quiet_filter(span.range.length(), label),
    }
}

pub open spec fn audio_segment_fault(
    m: VideoProjectManifestModel,
    track: TimelineTrackModel,
    inputs: Seq<TimelineClipModel>,
    span: TrackSpan,
) -> Option<Fault> {
    match span.clip {
        Some(at) => if has_sound(m, track.clips[at as int]) {
            segment_fault(track, inputs, span, no_audio_input())
        } else {
            None
        },
        None => segment_fault(track, inputs, span, no_audio_input()),
    }
}

pub open spec fn audio_faults_from(
    m: VideoProjectManifestModel,
    track: TimelineTrackModel,
    inputs: Seq<TimelineClipModel>,
    spans: Seq<TrackSpan>,
    place: int,
) -> Option<Fault>
    decreases spans.len() - place,
{
    if place < 0 || place >= spans.len() {
        None
    } else {
        or_else(
            audio_segment_fault(m, track, inputs, spans[place]),
            audio_faults_from(m, track, inputs, spans, place + 1),
        )
    }
}

/// Thousandths with six decimals.
pub open spec fn share_text(value: int) -> Seq<char> {
    if value < 0 {
        "-"@ + fixed(-value, 1_000, 1_000_000, 6)
    } else {
        fixed(value, 1_000, 1_000_000, 6)
    }
}

fn write_share(value: i32) -> (text: String)
    ensures
        text@ == share_text(value as int),
{
    if value < 0 {
        let size: String = fixed_text((-(value as i64)) as u64, 1_000, 1_000_000, 6);
        text_concat("-", size.as_str())
    } else {
        fixed_text(value as u64, 1_000, 1_000_000, 6)
    }
}

/// How loud each side of a panned track is.
pub open spec fn pan_filter(pan: int) -> Seq<char> {
    if pan == 0 {
        Seq::empty()
    } else {
        ",pan=stereo|c0="@ + share_text(
            if pan > 0 {
                1_000 - pan
            } else {
                1_000
            },
        ) + "*c0|c1="@ + share_text(
            if pan < 0 {
                1_000 + pan
            } else {
                1_000
            },
        ) + "*c1"@
    }
}

/// The filter that brings a sound track to its place in the mix.
pub open spec fn mix_filter(mix: Option<AudioMixTrackModel>, number: int) -> Seq<char> {
    let gain = match mix {
        Some(track) => track.gain_db_milli as int,
        None => 0,
    };
    let pan = match mix {
        Some(track) => track.pan_milli as int,
        None => 0,
    };
    "["@ + numbered("atrack"@, number) + "raw]volume="@ + thousandths_text(gain) + "dB"@ + pan_filter(pan) + "["@
        + numbered("atrack"@, number) + "]"@
}

/// The filters of a sound track.
pub open spec fn audio_filters(
    m: VideoProjectManifestModel,
    track: TimelineTrackModel,
    inputs: Seq<TimelineClipModel>,
    spans: Seq<TrackSpan>,
    mix: Option<AudioMixTrackModel>,
    number: int,
) -> Seq<Seq<char>> {
    Seq::new(spans.len(), |i: int| audio_segment(m, track, inputs, spans[i], number, i)).push(
        labels_to(segment_lead(number), spans.len() as int) + "concat=n="@ + decimal(spans.len()) + ":v=0:a=1["@
            + numbered("atrack"@, number) + "raw]"@,
    ).push(mix_filter(mix, number))
}

pub open spec fn audio_fault(
    m: VideoProjectManifestModel,
    track: TimelineTrackModel,
    inputs: Seq<TimelineClipModel>,
) -> Option<Fault> {
    or_else(
        complete_fault(track, m.gaps),
        audio_faults_from(
            m,
            track,
            inputs,
            complete_spans(track, m.gaps, m.timeline_duration_us.0 as int),
            0,
        ),
    )
}

fn write_mix(mix: Option<&AudioMixTrack>, number: usize) -> (text: String)
    ensures
        text@ == mix_filter(
            match mix {
                Some(track) => Some(track.deep_view()),
                None => None,
            },
            number as int,
        ),
{
    let name: String = number_label("atrack", number);
    let gain: i32 = match mix {
        Some(track) => track.gain_db_milli,
        None => 0,
    };
    let pan: i16 = match mix {
        Some(track) => track.pan_milli,
        None => 0,
    };
    let decibels: String = write_thousandths(gain);
    let mut panned: String = String::new();
    if pan != 0 {
        let left: String = write_share(if pan > 0 {
            1_000 - pan as i32
        } else {
            1_000
        });
        let right: String = write_share(if pan < 0 {
            1_000 + pan as i32
        } else {
            1_000
        });
        panned = String::from_str(",pan=stereo|c0=");
        panned.append(left.as_str());
        panned.append("*c0|c1=");
        panned.append(right.as_str());
        panned.append("*c1");
    }
    assert(panned@ == pan_filter(pan as int));
    let mut text: String = text_concat("[", name.as_str());
    text.append("raw]volume=");
    text.append(decibels.as_str());
    text.append("dB");
    text.append(panned.as_str());
    text.append("[");
    text.append(name.as_str());
    text.append("]");
    text
}

fn write_audio_segment(
    manifest: &VideoProjectManifest,
    track: &TimelineTrack,
    inputs: &Vec<TimelineClip>,
    span: TrackSpan,
    number: usize,
    place: usize,
) -> (result: VideoResult<String>)
    requires
        span.clip matches Some(at) ==> at < track.clips.len(),
    ensures
        refusal(result) == audio_segment_fault(
            manifest.deep_view(),
            track.deep_view(),
            inputs.deep_view(),
            span,
        ),
        result matches Ok(text) ==> text@ == audio_segment(
            manifest.deep_view(),
            track.deep_view(),
            inputs.deep_view(),
            span,
            number as int,
            place as int,
        ),
{
    let name: String = number_label("atrack", number);
    let lead: String = text_concat(name.as_str(), "seg");
    let label: String = number_label(lead.as_str(), place);
    match span.clip {
        Some(at) => {
            let clip: &TimelineClip = &track.clips[at];
            assert(track.deep_view().clips[at as int] == clip.deep_view());
            if clip_media_has_audio(manifest, clip) {
                match find_place(inputs, clip.id.as_str()) {
                    Some(input) => Ok(write_sound(clip, input, label.as_str())),
                    None => Err(
                        VideoError::new(
                            VideoErrorCode::MissingReference,
                            "audio clip has no resolved FFmpeg input",
                        ),
                    ),
                }
            } else {
                Ok(write_quiet(clip.timeline_duration_us, label.as_str()))
            }
        },
        None => {
            let length: Microseconds = span.range.duration()?;
            Ok(write_quiet(length, label.as_str()))
        },
    }
}

/// The filters of a sound track: each span in turn, all of them joined, and the mix.
pub fn append_audio_track_filters(
    filters: &mut Vec<String>,
    manifest: &VideoProjectManifest,
    track: &TimelineTrack,
    inputs: &Vec<TimelineClip>,
    mix: Option<&AudioMixTrack>,
    number: usize,
) -> (result: VideoResult<()>)
    ensures
        refusal(result) == audio_fault(manifest.deep_view(), track.deep_view(), inputs.deep_view()),
        result is Ok ==> final(filters).deep_view() == old(filters).deep_view() + audio_filters(
            manifest.deep_view(),
            track.deep_view(),
            inputs.deep_view(),
            complete_spans(
                track.deep_view(),
                manifest.deep_view().gaps,
                manifest.deep_view().timeline_duration_us.0 as int,
            ),
            match mix {
                Some(entry) => Some(entry.deep_view()),
                None => None,
            },
            number as int,
        ),
{
    let ghost m = manifest.deep_view();
    let ghost model = track.deep_view();
    let ghost known = inputs.deep_view();
    let ghost before = filters.deep_view();
    let spans: Vec<TrackSpan> = complete_track_spans(track, &manifest.gaps, manifest.timeline_duration_us)?;
    let ghost entry = match mix {
        Some(found) => Some(found.deep_view()),
        None => None,
    };
    let ghost whole = audio_filters(m, model, known, spans@, entry, number as int);
    let mut place: usize = 0;
    assert(filters.deep_view() =~= before + whole.take(0));
    while place < spans.len()
        invariant
            place <= spans.len(),
            m == manifest.deep_view(),
            model == track.deep_view(),
            known == inputs.deep_view(),
            spans@ == complete_spans(model, m.gaps, m.timeline_duration_us.0 as int),
            whole == audio_filters(m, model, known, spans@, entry, number as int),
            filters.deep_view() == before + whole.take(place as int),
            audio_fault(m, model, known) == audio_faults_from(m, model, known, spans@, place as int),
        decreases spans.len() - place,
    {
        proof {
            assert(model.clips.len() == track.clips.len());
            spans_play_the_tracks_clips(model, m.gaps, m.timeline_duration_us.0 as int, place as int);
        }
        let filter: String = write_audio_segment(manifest, track, inputs, spans[place], number, place)?;
        assert(filter@ == whole[place as int]);
        let ghost so_far = filters.deep_view();
        filters.push(filter);
        assert(filters.deep_view() =~= so_far.push(whole[place as int]));
        assert(whole.take(place + 1) =~= whole.take(place as int).push(whole[place as int]));
        assert(filters.deep_view() =~= before + whole.take(place + 1));
        place += 1;
    }
    let name: String = number_label("atrack", number);
    let lead: String = text_concat(name.as_str(), "seg");
    let count: String = decimal_text(spans.len() as u64);
    let mut joined: String = write_labels(lead.as_str(), spans.len());
    joined.append("concat=n=");
    joined.append(count.as_str());
    joined.append(":v=0:a=1[");
    joined.append(name.as_str());
    joined.append("raw]");
    let ghost joined_view = joined@;
    assert(joined_view == whole[whole.len() - 2]);
    let mixed: String = write_mix(mix, number);
    assert(mixed@ == whole.last());
    let ghost so_far = filters.deep_view();
    filters.push(joined);
    assert(filters.deep_view() =~= so_far.push(joined_view));
    let ghost almost = filters.deep_view();
    filters.push(mixed);
    assert(filters.deep_view() =~= almost.push(whole.last()));
    assert(filters.deep_view() =~= before + whole);
    Ok(())
}

/// A panned track is turned down on the side that it moves away from, by as much as it moves, and left as it is on
/// the other: the two shares differ by the pan, and the larger is the whole.
pub proof fn a_pan_turns_one_side_down(pan: int) -> (shares: (int, int))
    requires
        -1_000 <= pan <= 1_000,
        pan != 0,
    ensures
        pan_filter(pan) == ",pan=stereo|c0="@ + share_text(shares.0) + "*c0|c1="@ + share_text(shares.1) + "*c1"@,
        shares.1 - shares.0 == pan,
        0 <= shares.0 <= 1_000,
        0 <= shares.1 <= 1_000,
        shares.0 == 1_000 || shares.1 == 1_000,
{
    if pan > 0 {
        (1_000 - pan, 1_000)
    } else {
        (1_000, 1_000 + pan)
    }
}

/// A gain in thousandths reads as itself: its sign, then whole decibels, a point and three digits.
pub proof fn thousandths_read_as_themselves(value: int) -> (texts: (Seq<char>, Seq<char>))
    requires
        -0x8000_0000 <= value <= 0x7fff_ffff,
    ensures
        thousandths_text(value) == if value < 0 {
            "-"@ + (texts.0 + "."@ + texts.1)
        } else {
            texts.0 + "."@ + texts.1
        },
        texts.1.len() == 3,
        1_000 * number_in(texts.0) + number_in(texts.1) == if value < 0 {
            -value
        } else {
            value
        },
{
    let size = if value < 0 {
        -value
    } else {
        value
    };
    reveal_with_fuel(power_of_ten, 4);
    assert(power_of_ten(3) == 1_000);
    a_fraction_reads_as_its_nearest_part(size, 1_000, 1_000, 3)
}

/// A loudness in thousandths reads, with one decimal, as the nearest tenth.
pub proof fn tenths_read_as_the_nearest(value: int) -> (texts: (Seq<char>, Seq<char>))
    requires
        -0x8000_0000 <= value <= 0x7fff_ffff,
    ensures
        tenths_text(value) == if value < 0 {
            "-"@ + (texts.0 + "."@ + texts.1)
        } else {
            texts.0 + "."@ + texts.1
        },
        texts.1.len() == 1,
        ({
            let read = 10 * number_in(texts.0) + number_in(texts.1);
            let size = if value < 0 {
                -value
            } else {
                value
            };
            -50 <= 100 * read - size <= 50
        }),
{
    let size = if value < 0 {
        -value
    } else {
        value
    };
    reveal_with_fuel(power_of_ten, 2);
    assert(power_of_ten(1) == 10);
    a_fraction_reads_as_its_nearest_part(size, 1_000, 10, 1)
}

/// The pictures of a clip are slowed or sped up to fill its time: the factor that is written, applied to what the
/// clip plays of its source, gives the time that it takes on the timeline, and the clip is cut to that time.
pub proof fn pictures_fill_their_clip(clip: TimelineClipModel, input: int) -> (factor: (Seq<char>, Seq<char>, (Seq<char>, Seq<char>), Seq<char>))
    requires
        plays_exactly(clip),
        clip.timeline_duration_us.0 >= 0,
    ensures
        clip_lead(clip, input) == "["@ + decimal(input as nat) + ":v:0]setpts=(PTS-STARTPTS)*"@ + factor.0 + "/"@
            + factor.1 + ",trim=duration="@ + (factor.2.0 + "."@ + factor.2.1) + ",setpts=PTS-STARTPTS"@ + factor.3,
        (clip.source_range.end_us.0 - clip.source_range.start_us.0) * number_in(factor.0)
            == clip.timeline_duration_us.0 * number_in(factor.1),
        1_000_000 * number_in(factor.2.0) + number_in(factor.2.1) == clip.timeline_duration_us.0,
        factor.3.len() == 0 <==> clip.crop is None,
{
    let n = clip.playback_rate.numerator;
    let d = clip.playback_rate.denominator;
    a_number_reads_as_itself(n as nat);
    a_number_reads_as_itself(d as nat);
    let time = seconds_read_as_their_microseconds(clip.timeline_duration_us.0 as int);
    let crop = match clip.crop {
        Some(crop) => ","@ + crop_filter(crop),
        None => Seq::empty(),
    };
    reveal_strlit(",");
    let whole = "["@ + decimal(input as nat) + ":v:0]setpts=(PTS-STARTPTS)*"@ + decimal(d as nat) + "/"@ + decimal(
        n as nat,
    ) + ",trim=duration="@ + (time.0 + "."@ + time.1) + ",setpts=PTS-STARTPTS"@;
    assert(clip_lead(clip, input) =~= whole + crop);
    assert(clip.source_range.length() * d == clip.timeline_duration_us.0 * n);
    (decimal(d as nat), decimal(n as nat), time, crop)
}

/// A filter written a number of times, with commas between.
pub open spec fn repeated(filter: Seq<char>, count: nat) -> Seq<char>
    decreases count,
{
    if count == 0 {
        Seq::empty()
    } else {
        with_filter(repeated(filter, (count - 1) as nat), filter)
    }
}

pub open spec fn doubled(value: int, count: nat) -> int
    decreases count,
{
    if count == 0 {
        value
    } else {
        2 * doubled(value, (count - 1) as nat)
    }
}

/// The sound of a clip is slowed or sped up by its rate: the tempo is doubled or halved a number of times, always in
/// the direction of the rate, and what is left of the rate, between a half and two, is written last. Nothing is left
/// out but a last factor of one.
pub proof fn the_tempo_is_the_rate(rate: RationalRate) -> (steps: (nat, nat, int, int))
    requires
        rate.numerator > 0,
        rate.denominator > 0,
    ensures
        ({
            let (up, down, n, d) = steps;
            let lead = repeated("atempo=2.0"@, up) + repeated("atempo=0.5"@, down);
            &&& up == 0 || down == 0
            &&& up > 0 ==> rate.numerator > rate.denominator
            &&& down > 0 ==> rate.numerator < rate.denominator
            &&& n == doubled(rate.numerator as int, down)
            &&& d == doubled(rate.denominator as int, up)
            &&& n <= 2 * d
            &&& d <= 2 * n
            &&& tempo_filters(rate) == if n == d && up + down > 0 {
                lead
            } else {
                with_filter(lead, "atempo="@ + fixed(n, d, 100_000_000, 8))
            }
        }),
{
    let n = rate.numerator as int;
    let d = rate.denominator as int;
    assert(repeated("atempo=2.0"@, 0) + repeated("atempo=0.5"@, 0) =~= Seq::<char>::empty());
    if n > 2 * d {
        let up = lemma_tempo_up(n, d, 0);
        assert(repeated("atempo=2.0"@, up) + repeated("atempo=0.5"@, 0) =~= repeated("atempo=2.0"@, up));
        (up, 0, n, doubled(d, up))
    } else if 2 * n < d {
        let down = lemma_tempo_down(n, d, 0);
        assert(repeated("atempo=2.0"@, 0) + repeated("atempo=0.5"@, down) =~= repeated("atempo=0.5"@, down));
        (0, down, doubled(n, down), d)
    } else {
        (0, 0, n, d)
    }
}

proof fn lemma_repeated_shows(filter: Seq<char>, count: nat)
    requires
        filter.len() > 0,
        count > 0,
    ensures
        repeated(filter, count).len() > 0,
{
}

proof fn lemma_tempo_up(n: int, d: int, count: nat) -> (up: nat)
    requires
        n > 0,
        d > 0,
        count > 0 || n > 2 * d,
        2 * n > doubled(d, count),
        doubled(d, count) > 0,
    ensures
        up >= count,
        up > 0,
        n <= 2 * doubled(d, up),
        doubled(d, up) <= 2 * n,
        tempo_from(repeated("atempo=2.0"@, count), n, doubled(d, count)) == if n == doubled(d, up) {
            repeated("atempo=2.0"@, up)
        } else {
            with_filter(repeated("atempo=2.0"@, up), "atempo="@ + fixed(n, doubled(d, up), 100_000_000, 8))
        },
    decreases 2 * n - doubled(d, count),
{
    reveal_strlit("atempo=2.0");
    if n > 2 * doubled(d, count) {
        lemma_tempo_up(n, d, count + 1)
    } else {
        lemma_repeated_shows("atempo=2.0"@, count);
        count
    }
}

proof fn lemma_tempo_down(n: int, d: int, count: nat) -> (down: nat)
    requires
        n > 0,
        d > 0,
        count > 0 || 2 * n < d,
        doubled(n, count) < 2 * d,
        doubled(n, count) > 0,
    ensures
        down >= count,
        down > 0,
        doubled(n, down) <= 2 * d,
        d <= 2 * doubled(n, down),
        tempo_from(repeated("atempo=0.5"@, count), doubled(n, count), d) == if doubled(n, down) == d {
            repeated("atempo=0.5"@, down)
        } else {
            with_filter(repeated("atempo=0.5"@, down), "atempo="@ + fixed(doubled(n, down), d, 100_000_000, 8))
        },
    decreases 2 * d - doubled(n, count),
{
    reveal_strlit("atempo=0.5");
    if 2 * doubled(n, count) < d {
        lemma_tempo_down(n, d, count + 1)
    } else {
        lemma_repeated_shows("atempo=0.5"@, count);
        count
    }
}

/// A muted clip is silent whatever its gain; one that is not muted is heard at its gain, and at no other's.
pub proof fn a_muted_clip_is_silent(clip: TimelineClipModel, other: TimelineClipModel)
    requires
        clip.muted,
    ensures
        gain_filter(clip) == "volume=0"@,
        other.muted ==> gain_filter(other) == gain_filter(clip),
        !other.muted ==> gain_filter(other) == "volume="@ + thousandths_text(other.gain_db_milli as int) + "dB"@,
        !other.muted ==> gain_filter(other) != gain_filter(clip),
{
    reveal_strlit("volume=0");
    reveal_strlit("volume=");
    reveal_strlit("dB");
    if !other.muted {
        assert(gain_filter(other).last() == 'B');
        assert(gain_filter(clip).last() == '0');
    }
}

/// A track is brought to its place in the mix at the gain of its entry, and panned as the entry asks; without an entry
/// it is left as loud as it is, in the middle.
pub proof fn a_mix_filter_has_its_entrys_gain(entry: AudioMixTrackModel, number: int)
    ensures
        mix_filter(Some(entry), number) == "["@ + numbered("atrack"@, number) + "raw]volume="@ + thousandths_text(
            entry.gain_db_milli as int,
        ) + "dB"@ + pan_filter(entry.pan_milli as int) + "["@ + numbered("atrack"@, number) + "]"@,
        entry.gain_db_milli == 0 && entry.pan_milli == 0 ==> mix_filter(Some(entry), number) == mix_filter(None, number),
        entry.pan_milli == 0 ==> pan_filter(entry.pan_milli as int).len() == 0,
{
}

} // verus!
