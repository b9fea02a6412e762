//! The filters that lay still pictures over a timeline and move them.

use crate::error::{fault, or_else, refusal, unless, Fault, VideoError, VideoErrorCode, VideoResult};
use crate::filters::{crop_filter, normalized_crop_filter, number_label, numbered, thousandths_text, write_thousandths};
use crate::manifest::{
    NormalizedRect, VisualAsset, VisualAssetModel, VisualEasing, VisualFit, VisualLayer, VisualLayerModel,
};
use crate::model::{find_place, place_of, Model};
use crate::notation::{ffmpeg_time, seconds_of, seconds_read_as_their_microseconds, truncated};
use crate::order::{lemma_text_ranks, rank, ranked, ranked_is_a_sorted_permutation, text_before, text_less, Ranked};
use crate::text::{decimal, decimal_text, number_in, signed_decimal, signed_decimal_text, text_concat3};
use crate::time::{addition_fault, on_clock, Microseconds};
use vstd::prelude::*;

verus! {

/// A layer that lies below another by depth, then by where it starts, then by identifier.
pub struct StackedLayer {
    pub layer: VisualLayer,
}

impl DeepView for StackedLayer {
    type V = VisualLayerModel;

    open spec fn deep_view(&self) -> VisualLayerModel {
        self.layer.deep_view()
    }
}

impl Ranked for StackedLayer {
    open spec fn before(left: VisualLayerModel, right: VisualLayerModel) -> bool {
        left.z_index < right.z_index || (left.z_index == right.z_index && (left.range.start() < right.range.start()
            || (left.range.start() == right.range.start() && text_less(left.id, right.id))))
    }

    fn comes_before(&self, other: &Self) -> (result: bool) {
        let left: &VisualLayer = &self.layer;
        let right: &VisualLayer = &other.layer;
        left.z_index < right.z_index || (left.z_index == right.z_index && (left.range.start_us.0
            < right.range.start_us.0 || (left.range.start_us.0 == right.range.start_us.0 && text_before(
            left.id.as_str(),
            right.id.as_str(),
        ))))
    }

    proof fn before_is_an_order(a: VisualLayerModel, b: VisualLayerModel, c: VisualLayerModel) {
        lemma_text_ranks(a.id, b.id, c.id);
    }
}

/// The layers from the lowest up.
pub open spec fn stacked(layers: Seq<VisualLayerModel>) -> Seq<VisualLayerModel> {
    ranked::<StackedLayer>(layers)
}

/// Basis points of a number of pixels, rounded to a whole one.
pub open spec fn pixels_signed(value_bp: int, dimension: int) -> int {
    truncated(value_bp * dimension + 5_000, 10_000)
}

/// Basis points of a number of pixels, and never fewer than two.
pub open spec fn pixels(value_bp: int, dimension: int) -> int {
    if pixels_signed(value_bp, dimension) < 2 {
        2
    } else {
        pixels_signed(value_bp, dimension)
    }
}

fn basis_pixels_signed(value_bp: i32, dimension: u32) -> (result: i64)
    requires
        dimension <= 16_384,
    ensures
        result == pixels_signed(value_bp as int, dimension as int),
{
    assert(-0x8000_0000 * 16_384 <= value_bp * dimension <= 0x7fff_ffff * 16_384) by (nonlinear_arith)
        requires
            -0x8000_0000 <= value_bp <= 0x7fff_ffff,
            0 <= dimension <= 16_384,
    ;
    let total: i64 = value_bp as i64 * dimension as i64 + 5_000;
    if total < 0 {
        -((-total) / 10_000)
    } else {
        total / 10_000
    }
}

fn basis_pixels(value_bp: i32, dimension: u32) -> (result: i64)
    requires
        dimension <= 16_384,
    ensures
        result == pixels(value_bp as int, dimension as int),
{
    let size: i64 = basis_pixels_signed(value_bp, dimension);
    if size < 2 {
        2
    } else {
        size
    }
}

/// How far a movement has come, from nothing to all of it.
pub open spec fn progress_of(easing: VisualEasing, start: Seq<char>, length: Seq<char>) -> Seq<char> {
    let linear = "min(max((t-"@ + start + ")/"@ + length + "\\,0)\\,1)"@;
    match easing {
        VisualEasing::Linear => linear,
        VisualEasing::EaseInOut => "("@ + linear + ")*("@ + linear + ")*(3-2*("@ + linear + "))"@,
    }
}

fn visual_progress_expression(easing: VisualEasing, start: &str, length: &str) -> (text: String)
    ensures
        text@ == progress_of(easing, start@, length@),
{
    let mut linear: String = text_concat3("min(max((t-", start, ")/");
    linear.append(length);
    linear.append("\\,0)\\,1)");
    match easing {
        VisualEasing::Linear => linear,
        VisualEasing::EaseInOut => {
            let mut text: String = text_concat3("(", linear.as_str(), ")*(");
            text.append(linear.as_str());
            text.append(")*(3-2*(");
            text.append(linear.as_str());
            text.append("))");
            text
        },
    }
}

/// A value on its way from a start to an end.
pub open spec fn between(start: int, end: int, progress: Seq<char>, even: bool) -> Seq<char> {
    let value = "("@ + signed_decimal(start) + "+("@ + signed_decimal(end) + "-"@ + signed_decimal(start) + ")*("@
        + progress + "))"@;
    if even {
        "max(2,trunc(("@ + value + ")/2)*2)"@
    } else {
        value
    }
}

fn visual_interpolation(start: i64, end: i64, progress: &str, even: bool) -> (text: String)
    ensures
        text@ == between(start as int, end as int, progress@, even),
{
    let from: String = signed_decimal_text(start);
    let to: String = signed_decimal_text(end);
    let mut value: String = text_concat3("(", from.as_str(), "+(");
    value.append(to.as_str());
    value.append("-");
    value.append(from.as_str());
    value.append(")*(");
    value.append(progress);
    value.append("))");
    if even {
        text_concat3("max(2,trunc((", value.as_str(), ")/2)*2)")
    } else {
        value
    }
}

pub open spec fn layer_start(layer: VisualLayerModel) -> Seq<char> {
    seconds_of(layer.range.start())
}

pub open spec fn layer_length(layer: VisualLayerModel) -> Seq<char> {
    seconds_of(layer.range.length())
}

/// How a picture fills the bounds it starts in.
pub open spec fn fit_filter(fit: VisualFit, width: int, height: int) -> Seq<char> {
    let w = signed_decimal(width);
    let h = signed_decimal(height);
    match fit {
        VisualFit::Stretch => ",scale="@ + w + ":"@ + h + ":flags=lanczos"@,
        VisualFit::Cover => ",scale=w="@ + w + ":h="@ + h
            + ":force_original_aspect_ratio=increase:flags=lanczos,crop="@ + w + ":"@ + h,
        VisualFit::Contain => ",scale=w="@ + w + ":h="@ + h
            + ":force_original_aspect_ratio=decrease:flags=lanczos,pad="@ + w + ":"@ + h
            + ":(ow-iw)/2:(oh-ih)/2:color=black@0"@,
    }
}

fn write_fit(fit: VisualFit, width: i64, height: i64) -> (text: String)
    ensures
        text@ == fit_filter(fit, width as int, height as int),
{
    let w: String = signed_decimal_text(width);
    let h: String = signed_decimal_text(height);
    match fit {
        VisualFit::Stretch => {
            let mut text: String = text_concat3(",scale=", w.as_str(), ":");
            text.append(h.as_str());
            text.append(":flags=lanczos");
            text
        },
        VisualFit::Cover => {
            let mut text: String = text_concat3(",scale=w=", w.as_str(), ":h=");
            text.append(h.as_str());
            text.append(":force_original_aspect_ratio=increase:flags=lanczos,crop=");
            text.append(w.as_str());
            text.append(":");
            text.append(h.as_str());
            text
        },
        VisualFit::Contain => {
            let mut text: String = text_concat3(",scale=w=", w.as_str(), ":h=");
            text.append(h.as_str());
            text.append(":force_original_aspect_ratio=decrease:flags=lanczos,pad=");
            text.append(w.as_str());
            text.append(":");
            text.append(h.as_str());
            text.append(":(ow-iw)/2:(oh-ih)/2:color=black@0");
            text
        },
    }
}

/// The filter that brings a picture in.
pub open spec fn source_filter(layer: VisualLayerModel, input: int, width: int, height: int, place: int) -> Seq<char> {
    let read = "["@ + decimal(input as nat) + ":v:0]format=rgba"@;
    let cropped = match layer.crop {
        Some(crop) => read + ","@ + crop_filter(crop),
        None => read,
    };
    cropped + fit_filter(
        layer.fit,
        pixels(layer.motion.start_bounds.width_bp as int, width),
        pixels(layer.motion.start_bounds.height_bp as int, height),
    ) + ",setsar=1,trim=duration="@ + layer_length(layer) + ",setpts=PTS-STARTPTS+"@ + layer_start(layer) + "/TB["@
        + numbered("visual_source_"@, place) + "]"@
}

pub open spec fn layer_progress(layer: VisualLayerModel) -> Seq<char> {
    progress_of(layer.motion.easing, layer_start(layer), layer_length(layer))
}

/// How a layer comes in.
pub open spec fn fade_in(layer: VisualLayerModel) -> Seq<char> {
    if layer.transition_in_us.0 > 0 {
        ",fade=t=in:st="@ + layer_start(layer) + ":d="@ + seconds_of(layer.transition_in_us.0 as int) + ":alpha=1"@
    } else {
        Seq::empty()
    }
}

/// How a layer goes out.
pub open spec fn fade_out(layer: VisualLayerModel) -> Seq<char> {
    if layer.transition_out_us.0 > 0 {
        ",fade=t=out:st="@ + seconds_of(layer.range.end() - layer.transition_out_us.0) + ":d="@ + seconds_of(
            layer.transition_out_us.0 as int,
        ) + ":alpha=1"@
    } else {
        Seq::empty()
    }
}

/// The filter that scales and fades a layer.
pub open spec fn animation_filter(layer: VisualLayerModel, width: int, height: int, place: int) -> Seq<char> {
    let start = layer.motion.start_bounds;
    let end = layer.motion.end_bounds;
    "["@ + numbered("visual_source_"@, place) + "]scale=w='"@ + between(
        pixels(start.width_bp as int, width),
        pixels(end.width_bp as int, width),
        layer_progress(layer),
        true,
    ) + "':h='"@ + between(
        pixels(start.height_bp as int, height),
        pixels(end.height_bp as int, height),
        layer_progress(layer),
        true,
    ) + "':eval=frame:flags=lanczos,format=rgba,colorchannelmixer=aa="@ + thousandths_text(
        layer.motion.start_opacity_milli as int,
    ) + fade_in(layer) + fade_out(layer) + "["@ + numbered("visual_animated_"@, place) + "]"@
}

/// The filter that lays a layer over what lies below it.
pub open spec fn overlay_filter(
    layer: VisualLayerModel,
    below: Seq<char>,
    width: int,
    height: int,
    place: int,
) -> Seq<char> {
    let start = layer.motion.start_bounds;
    let end = layer.motion.end_bounds;
    "["@ + below + "]["@ + numbered("visual_animated_"@, place) + "]overlay=x='"@ + between(
        pixels_signed(start.x_bp as int, width),
        pixels_signed(end.x_bp as int, width),
        layer_progress(layer),
        false,
    ) + "':y='"@ + between(
        pixels_signed(start.y_bp as int, height),
        pixels_signed(end.y_bp as int, height),
        layer_progress(layer),
        false,
    ) + "':enable='between(t,"@ + layer_start(layer) + ","@ + seconds_of(layer.range.end())
        + ")':eof_action=pass:shortest=0["@ + numbered("visual_composite_"@, place) + "]"@
}

/// The name of what the first layers make of a base.
pub open spec fn composed(base: Seq<char>, count: int) -> Seq<char> {
    if count <= 0 {
        base
    } else {
        numbered("visual_composite_"@, count - 1)
    }
}

/// Why a layer cannot be shown.
pub open spec fn layer_fault(layer: VisualLayerModel, assets: Seq<VisualAssetModel>) -> Option<Fault> {
    or_else(
        unless(
            place_of::<VisualAsset>(assets, layer.asset_id) is Some,
            fault(
                VideoErrorCode::MissingReference,
                "visual layer "@ + layer.id + " has no FFmpeg input"@,
            ),
        ),
        or_else(
            unless(
                on_clock(layer.range.length()),
                fault(VideoErrorCode::ArithmeticOverflow, "time range duration overflowed"@),
            ),
            unless(
                layer.transition_out_us.0 <= 0 || on_clock(layer.range.end() - layer.transition_out_us.0),
                addition_fault(),
            ),
        ),
    )
}

pub open spec fn layer_faults_from(layers: Seq<VisualLayerModel>, assets: Seq<VisualAssetModel>, place: int) -> Option<Fault>
    decreases layers.len() - place,
{
    if place < 0 || place >= layers.len() {
        None
    } else {
        or_else(layer_fault(layers[place], assets), layer_faults_from(layers, assets, place + 1))
    }
}

/// The filters of the first layers, behind other filters. The pictures come after the clips among the
/// inputs.
pub open spec fn layer_filters_to(
    filters: Seq<Seq<char>>,
    base: Seq<char>,
    layers: Seq<VisualLayerModel>,
    assets: Seq<VisualAssetModel>,
    first_input: int,
    width: int,
    height: int,
    count: int,
) -> Seq<Seq<char>>
    decreases count,
{
    if count <= 0 {
        filters
    } else {
        let layer = layers[count - 1];
        with_layer(
            layer_filters_to(filters, base, layers, assets, first_input, width, height, count - 1),
            composed(base, count - 1),
            layer,
            assets,
            first_input,
            width,
            height,
            count - 1,
        )
    }
}

fn write_source(layer: &VisualLayer, input: u64, width: u32, height: u32, place: usize) -> (result: VideoResult<String>)
    requires
        width <= 16_384,
        height <= 16_384,
    ensures
        refusal(result) == unless(
            on_clock(layer.range.length()),
            fault(VideoErrorCode::ArithmeticOverflow, "time range duration overflowed"@),
        ),
        result matches Ok(text) ==> text@ == source_filter(
            layer.deep_view(),
            input as int,
            width as int,
            height as int,
            place as int,
        ),
{
    let length: String = ffmpeg_time(layer.range.duration()?);
    let start: String = ffmpeg_time(layer.range.start_us);
    let number: String = decimal_text(input);
    let label: String = number_label("visual_source_", place);
    let fitted: String = write_fit(
        layer.fit,
        basis_pixels(layer.motion.start_bounds.width_bp, width),
        basis_pixels(layer.motion.start_bounds.height_bp, height),
    );
    let mut text: String = text_concat3("[", number.as_str(), ":v:0]format=rgba");
    if let Some(crop) = layer.crop {
        let cropped: String = normalized_crop_filter(crop);
        text.append(",");
        text.append(cropped.as_str());
    }
    text.append(fitted.as_str());
    text.append(",setsar=1,trim=duration=");
    text.append(length.as_str());
    text.append(",setpts=PTS-STARTPTS+");
    text.append(start.as_str());
    text.append("/TB[");
    text.append(label.as_str());
    text.append("]");
    Ok(text)
}

fn write_fades(layer: &VisualLayer) -> (result: VideoResult<String>)
    ensures
        refusal(result) == unless(
            layer.transition_out_us.0 <= 0 || on_clock(layer.range.end() - layer.transition_out_us.0),
            addition_fault(),
        ),
        result matches Ok(text) ==> text@ == fade_in(layer.deep_view()) + fade_out(layer.deep_view()),
{
    let mut text: String = String::new();
    if layer.transition_in_us.0 > 0 {
        let start: String = ffmpeg_time(layer.range.start_us);
        let length: String = ffmpeg_time(layer.transition_in_us);
        text = text_concat3(",fade=t=in:st=", start.as_str(), ":d=");
        text.append(length.as_str());
        text.append(":alpha=1");
    }
    assert(text@ == fade_in(layer.deep_view()));
    let mut out: String = String::new();
    if layer.transition_out_us.0 > 0 {
        let from: Microseconds = layer.range.end_us.checked_add(Microseconds(-layer.transition_out_us.0))?;
        let start: String = ffmpeg_time(from);
        let length: String = ffmpeg_time(layer.transition_out_us);
        out = text_concat3(",fade=t=out:st=", start.as_str(), ":d=");
        out.append(length.as_str());
        out.append(":alpha=1");
    }
    assert(out@ == fade_out(layer.deep_view()));
    text.append(out.as_str());
    Ok(text)
}

fn write_progress(layer: &VisualLayer) -> (text: String)
    requires
        on_clock(layer.range.length()),
    ensures
        text@ == layer_progress(layer.deep_view()),
{
    let start: String = ffmpeg_time(layer.range.start_us);
    let length: String = ffmpeg_time(Microseconds(layer.range.end_us.0 - layer.range.start_us.0));
    visual_progress_expression(layer.motion.easing, start.as_str(), length.as_str())
}

fn write_animation(layer: &VisualLayer, width: u32, height: u32, place: usize) -> (result: VideoResult<String>)
    requires
        width <= 16_384,
        height <= 16_384,
        on_clock(layer.range.length()),
    ensures
        refusal(result) == unless(
            layer.transition_out_us.0 <= 0 || on_clock(layer.range.end() - layer.transition_out_us.0),
            addition_fault(),
        ),
        result matches Ok(text) ==> text@ == animation_filter(
            layer.deep_view(),
            width as int,
            height as int,
            place as int,
        ),
{
    let start: NormalizedRect = layer.motion.start_bounds;
    let end: NormalizedRect = layer.motion.end_bounds;
    let progress: String = write_progress(layer);
    let wide: String = visual_interpolation(
        basis_pixels(start.width_bp, width),
        basis_pixels(end.width_bp, width),
        progress.as_str(),
        true,
    );
    let high: String = visual_interpolation(
        basis_pixels(start.height_bp, height),
        basis_pixels(end.height_bp, height),
        progress.as_str(),
        true,
    );
    let opacity: String = write_thousandths(layer.motion.start_opacity_milli as i32);
    let fades: String = write_fades(layer)?;
    let source: String = number_label("visual_source_", place);
    let animated: String = number_label("visual_animated_", place);
    let mut text: String = text_concat3("[", source.as_str(), "]scale=w='");
    text.append(wide.as_str());
    text.append("':h='");
    text.append(high.as_str());
    text.append("':eval=frame:flags=lanczos,format=rgba,colorchannelmixer=aa=");
    text.append(opacity.as_str());
    let ghost head = text@;
    text.append(fades.as_str());
    assert(text@ =~= head + fade_in(layer.deep_view()) + fade_out(layer.deep_view()));
    text.append("[");
    text.append(animated.as_str());
    text.append("]");
    Ok(text)
}

fn write_overlay(layer: &VisualLayer, below: &str, width: u32, height: u32, place: usize) -> (text: String)
    requires
        width <= 16_384,
        height <= 16_384,
        on_clock(layer.range.length()),
    ensures
        text@ == overlay_filter(layer.deep_view(), below@, width as int, height as int, place as int),
{
    let start: NormalizedRect = layer.motion.start_bounds;
    let end: NormalizedRect = layer.motion.end_bounds;
    let progress: String = write_progress(layer);
    let x: String = visual_interpolation(
        basis_pixels_signed(start.x_bp, width),
        basis_pixels_signed(end.x_bp, width),
        progress.as_str(),
        false,
    );
    let y: String = visual_interpolation(
        basis_pixels_signed(start.y_bp, height),
        basis_pixels_signed(end.y_bp, height),
        progress.as_str(),
        false,
    );
    let from: String = ffmpeg_time(layer.range.start_us);
    let to: String = ffmpeg_time(layer.range.end_us);
    let animated: String = number_label("visual_animated_", place);
    let output: String = number_label("visual_composite_", place);
    let mut text: String = text_concat3("[", below, "][");
    text.append(animated.as_str());
    text.append("]overlay=x='");
    text.append(x.as_str());
    text.append("':y='");
    text.append(y.as_str());
    text.append("':enable='between(t,");
    text.append(from.as_str());
    text.append(",");
    text.append(to.as_str());
    text.append(")':eof_action=pass:shortest=0[");
    text.append(output.as_str());
    text.append("]");
    text
}

fn stack(layers: &Vec<VisualLayer>) -> (result: Vec<StackedLayer>)
    ensures
        result.deep_view() == stacked(layers.deep_view()),
        result.len() == layers.len(),
{
    let mut items: Vec<StackedLayer> = Vec::new();
    let mut place: usize = 0;
    while place < layers.len()
        invariant
            place <= layers.len(),
            items.len() == place,
            forall|i: int| 0 <= i < place ==> (#[trigger] items[i]).deep_view() == layers[i].deep_view(),
        decreases layers.len() - place,
    {
        items.push(StackedLayer { layer: layers[place].duplicate() });
        place += 1;
    }
    assert(items.deep_view() =~= layers.deep_view());
    rank(items)
}

/// The filters of one layer, behind other filters.
#[verifier::opaque]
pub open spec fn with_layer(
    filters: Seq<Seq<char>>,
    below: Seq<char>,
    layer: VisualLayerModel,
    assets: Seq<VisualAssetModel>,
    first_input: int,
    width: int,
    height: int,
    place: int,
) -> Seq<Seq<char>> {
    filters.push(
        source_filter(
            layer,
            first_input + place_of::<VisualAsset>(assets, layer.asset_id)->0,
            width,
            height,
            place,
        ),
    ).push(animation_filter(layer, width, height, place)).push(
        overlay_filter(layer, below, width, height, place),
    )
}

fn push_layer(
    filters: &mut Vec<String>,
    below: &str,
    layer: &VisualLayer,
    assets: &Vec<VisualAsset>,
    first_input: usize,
    width: u32,
    height: u32,
    place: usize,
) -> (result: VideoResult<()>)
    requires
        width <= 16_384,
        height <= 16_384,
        first_input + assets.len() <= usize::MAX,
    ensures
        refusal(result) == layer_fault(layer.deep_view(), assets.deep_view()),
        result is Ok ==> final(filters).deep_view() == with_layer(
            old(filters).deep_view(),
            below@,
            layer.deep_view(),
            assets.deep_view(),
            first_input as int,
            width as int,
            height as int,
            place as int,
        ),
{
    reveal(with_layer);
    match find_place(assets, layer.asset_id.as_str()) {
        Some(asset) => {
            let source: String = write_source(layer, (first_input + asset) as u64, width, height, place)?;
            let animation: String = write_animation(layer, width, height, place)?;
            let overlay: String = write_overlay(layer, below, width, height, place);
            let ghost so_far = filters.deep_view();
            let ghost views = (source@, animation@, overlay@);
            filters.push(source);
            assert(filters.deep_view() =~= so_far.push(views.0));
            filters.push(animation);
            assert(filters.deep_view() =~= so_far.push(views.0).push(views.1));
            filters.push(overlay);
            assert(filters.deep_view() =~= so_far.push(views.0).push(views.1).push(views.2));
            Ok(())
        },
        None => {
            let message: String = text_concat3("visual layer ", layer.id.as_str(), " has no FFmpeg input");
            Err(VideoError::new(VideoErrorCode::MissingReference, message.as_str()))
        },
    }
}

/// Adds the filters that lay the layers over a base, from the lowest up, and names what they make.
pub fn append_visual_layer_filters(
    filters: &mut Vec<String>,
    base: &str,
    layers: &Vec<VisualLayer>,
    assets: &Vec<VisualAsset>,
    first_input: usize,
    width: u32,
    height: u32,
) -> (result: VideoResult<String>)
    requires
        width <= 16_384,
        height <= 16_384,
        first_input + assets.len() <= usize::MAX,
    ensures
        refusal(result) == layer_faults_from(stacked(layers.deep_view()), assets.deep_view(), 0),
        result matches Ok(label) ==> {
            &&& label@ == composed(base@, layers.deep_view().len() as int)
            &&& final(filters).deep_view() == layer_filters_to(
                old(filters).deep_view(),
                base@,
                stacked(layers.deep_view()),
                assets.deep_view(),
                first_input as int,
                width as int,
                height as int,
                layers.deep_view().len() as int,
            )
        },
{
    let ordered: Vec<StackedLayer> = stack(layers);
    let ghost model = ordered.deep_view();
    let ghost known = assets.deep_view();
    let ghost before = filters.deep_view();
    let mut label: String = String::from_str(base);
    let mut place: usize = 0;
    while place < ordered.len()
        invariant
            place <= ordered.len(),
            model == ordered.deep_view(),
            model == stacked(layers.deep_view()),
            known == assets.deep_view(),
            width <= 16_384,
            height <= 16_384,
            first_input + assets.len() <= usize::MAX,
            label@ == composed(base@, place as int),
            filters.deep_view() == layer_filters_to(
                before,
                base@,
                model,
                known,
                first_input as int,
                width as int,
                height as int,
                place as int,
            ),
            layer_faults_from(model, known, 0) == layer_faults_from(model, known, place as int),
        decreases ordered.len() - place,
    {
        let layer: &VisualLayer = &ordered[place].layer;
        assert(model[place as int] == layer.deep_view());
        push_layer(filters, label.as_str(), layer, assets, first_input, width, height, place)?;
        label = number_label("visual_composite_", place);
        place += 1;
    }
    assert(layers.deep_view().len() == ordered.len());
    Ok(label)
}

/// Layers are shown from the lowest up: each layer is shown, none is shown twice, and none is laid over one with a
/// higher place.
pub proof fn higher_layers_lie_on_top(layers: Seq<VisualLayerModel>)
    ensures
        stacked(layers).len() == layers.len(),
        stacked(layers).to_multiset() == layers.to_multiset(),
        forall|i: int, j: int|
            0 <= i < j < stacked(layers).len() ==> (#[trigger] stacked(layers)[i]).z_index <= (#[trigger] stacked(
                layers,
            )[j]).z_index,
{
    ranked_is_a_sorted_permutation::<StackedLayer>(layers);
    broadcast use vstd::seq_lib::group_to_multiset_ensures;
    assert forall|i: int, j: int| 0 <= i < j < stacked(layers).len() implies (#[trigger] stacked(layers)[i]).z_index
        <= (#[trigger] stacked(layers)[j]).z_index by {
        assert(!StackedLayer::before(stacked(layers)[j], stacked(layers)[i]));
    }
}

/// Basis points of a number of pixels are the nearest whole pixel: all of them are the whole width, none is none,
/// and a part is off by half a pixel at most.
pub proof fn basis_points_are_their_nearest_pixel(value_bp: int, dimension: int)
    requires
        0 <= value_bp,
        0 <= dimension,
    ensures
        -10_000 < 2 * (10_000 * pixels_signed(value_bp, dimension) - value_bp * dimension) <= 10_000,
        pixels_signed(0, dimension) == 0,
        pixels_signed(10_000, dimension) == dimension,
        pixels(value_bp, dimension) >= 2,
        pixels_signed(value_bp, dimension) >= 2 ==> pixels(value_bp, dimension) == pixels_signed(value_bp, dimension),
        pixels_signed(value_bp, dimension) < 2 ==> pixels(value_bp, dimension) == 2,
{
    assert(0 * dimension == 0) by (nonlinear_arith);
    assert(value_bp * dimension >= 0) by (nonlinear_arith)
        requires
            value_bp >= 0,
            dimension >= 0,
    ;
}

/// A layer is laid over what lies below it from the start of its range to its end, as the filter's clock reads.
pub proof fn a_layer_shows_in_its_range(layer: VisualLayerModel, below: Seq<char>, width: int, height: int, place: int) -> (texts: (
    Seq<char>,
    Seq<char>,
    (Seq<char>, Seq<char>),
    (Seq<char>, Seq<char>),
))
    requires
        layer.range.valid(),
    ensures
        overlay_filter(layer, below, width, height, place) == texts.0 + ":enable='between(t,"@ + (texts.2.0 + "."@
            + texts.2.1) + ","@ + (texts.3.0 + "."@ + texts.3.1) + ")'"@ + texts.1,
        texts.2.1.len() == 6 && texts.3.1.len() == 6,
        1_000_000 * number_in(texts.2.0) + number_in(texts.2.1) == layer.range.start_us.0,
        1_000_000 * number_in(texts.3.0) + number_in(texts.3.1) == layer.range.end_us.0,
{
    let start = seconds_read_as_their_microseconds(layer.range.start());
    let end = seconds_read_as_their_microseconds(layer.range.end());
    let from = layer.motion.start_bounds;
    let to = layer.motion.end_bounds;
    let before = "["@ + below + "]["@ + numbered("visual_animated_"@, place) + "]overlay=x='"@ + between(
        pixels_signed(from.x_bp as int, width),
        pixels_signed(to.x_bp as int, width),
        layer_progress(layer),
        false,
    ) + "':y='"@ + between(
        pixels_signed(from.y_bp as int, height),
        pixels_signed(to.y_bp as int, height),
        layer_progress(layer),
        false,
    ) + "'"@;
    let after = ":eof_action=pass:shortest=0["@ + numbered("visual_composite_"@, place) + "]"@;
    reveal_strlit("':enable='between(t,");
    reveal_strlit("'");
    reveal_strlit(":enable='between(t,");
    reveal_strlit(")':eof_action=pass:shortest=0[");
    reveal_strlit(")'");
    reveal_strlit(":eof_action=pass:shortest=0[");
    assert(overlay_filter(layer, below, width, height, place) =~= before + ":enable='between(t,"@ + (start.0 + "."@
        + start.1) + ","@ + (end.0 + "."@ + end.1) + ")'"@ + after);
    (before, after, start, end)
}

/// A layer comes in from the start of its range and has gone out at its end, each in the time that its transition
/// takes: where the fade out begins, and how long it takes, together reach the end of the range.
pub proof fn a_layer_fades_within_its_range(layer: VisualLayerModel) -> (texts: (
    (Seq<char>, Seq<char>),
    (Seq<char>, Seq<char>),
    (Seq<char>, Seq<char>),
    (Seq<char>, Seq<char>),
))
    requires
        layer.range.valid(),
        0 < layer.transition_in_us.0,
        0 < layer.transition_out_us.0 <= layer.range.length(),
    ensures
        fade_in(layer) == ",fade=t=in:st="@ + (texts.0.0 + "."@ + texts.0.1) + ":d="@ + (texts.1.0 + "."@ + texts.1.1)
            + ":alpha=1"@,
        fade_out(layer) == ",fade=t=out:st="@ + (texts.2.0 + "."@ + texts.2.1) + ":d="@ + (texts.3.0 + "."@
            + texts.3.1) + ":alpha=1"@,
        texts.0.1.len() == 6 && texts.1.1.len() == 6 && texts.2.1.len() == 6 && texts.3.1.len() == 6,
        1_000_000 * number_in(texts.0.0) + number_in(texts.0.1) == layer.range.start_us.0,
        1_000_000 * number_in(texts.1.0) + number_in(texts.1.1) == layer.transition_in_us.0,
        1_000_000 * number_in(texts.3.0) + number_in(texts.3.1) == layer.transition_out_us.0,
        1_000_000 * (number_in(texts.2.0) + number_in(texts.3.0)) + number_in(texts.2.1) + number_in(texts.3.1)
            == layer.range.end_us.0,
{
    let start = seconds_read_as_their_microseconds(layer.range.start());
    let comes = seconds_read_as_their_microseconds(layer.transition_in_us.0 as int);
    let leaves = seconds_read_as_their_microseconds(layer.range.end() - layer.transition_out_us.0);
    let goes = seconds_read_as_their_microseconds(layer.transition_out_us.0 as int);
    (start, comes, leaves, goes)
}

/// Whether a number of pixels is the nearest to some basis points of a dimension.
pub open spec fn is_nearest(pixels: int, value_bp: int, dimension: int) -> bool {
    -10_000 < 2 * (10_000 * pixels - value_bp * dimension) <= 10_000
}

/// A layer travels from where its motion starts to where it ends, across the width and down the height of the canvas,
/// to the nearest pixel, as far as its progress has come.
pub proof fn a_layer_travels_between_its_bounds(
    layer: VisualLayerModel,
    below: Seq<char>,
    width: int,
    height: int,
    place: int,
) -> (travel: ((int, int), (int, int), Seq<char>))
    requires
        width >= 0,
        height >= 0,
        layer.motion.start_bounds.x_bp >= 0,
        layer.motion.start_bounds.y_bp >= 0,
        layer.motion.end_bounds.x_bp >= 0,
        layer.motion.end_bounds.y_bp >= 0,
    ensures
        overlay_filter(layer, below, width, height, place) == "["@ + below + "]["@ + numbered("visual_animated_"@, place)
            + "]overlay=x='"@ + between(travel.0.0, travel.0.1, layer_progress(layer), false) + "':y='"@ + between(
            travel.1.0,
            travel.1.1,
            layer_progress(layer),
            false,
        ) + travel.2,
        is_nearest(travel.0.0, layer.motion.start_bounds.x_bp as int, width),
        is_nearest(travel.0.1, layer.motion.end_bounds.x_bp as int, width),
        is_nearest(travel.1.0, layer.motion.start_bounds.y_bp as int, height),
        is_nearest(travel.1.1, layer.motion.end_bounds.y_bp as int, height),
{
    let from = layer.motion.start_bounds;
    let to = layer.motion.end_bounds;
    basis_points_are_their_nearest_pixel(from.x_bp as int, width);
    basis_points_are_their_nearest_pixel(to.x_bp as int, width);
    basis_points_are_their_nearest_pixel(from.y_bp as int, height);
    basis_points_are_their_nearest_pixel(to.y_bp as int, height);
    let across = (pixels_signed(from.x_bp as int, width), pixels_signed(to.x_bp as int, width));
    let down = (pixels_signed(from.y_bp as int, height), pixels_signed(to.y_bp as int, height));
    let lead = "["@ + below + "]["@ + numbered("visual_animated_"@, place) + "]overlay=x='"@ + between(
        across.0,
        across.1,
        layer_progress(layer),
        false,
    ) + "':y='"@ + between(down.0, down.1, layer_progress(layer), false);
    let a = "':enable='between(t,"@;
    let b = layer_start(layer);
    let c = seconds_of(layer.range.end());
    let d = ")':eof_action=pass:shortest=0["@;
    let e = numbered("visual_composite_"@, place);
    let tail = a + b + ","@ + c + d + e + "]"@;
    assert(lead + a + b + ","@ + c + d + e + "]"@ =~= lead + tail);
    (across, down, tail)
}

} // verus!
