//! Where captions stand on the canvas, how large they are, and what their pages read.

use crate::caption_pages::{caption_line_breaks, lemma_line_breaks, lemma_page_fits_lines, line_breaks};
use crate::caption_presets::AssCaptionPreset;
use crate::captions::{larger, smaller, CaptionPage, TimedCaptionToken, TimedCaptionTokenModel};
use crate::decimals::{scale, scaled};
use crate::manifest::{
    LayoutElement, LayoutElementModel, LayoutPlan, LayoutPlanModel, LayoutRole, NormalizedRect,
};
use crate::notation::{escape, escaped, truncated, Place};
use crate::text::{
    a_number_reads_as_itself, chars_in, decimal, decimal_text, number_in, signed_decimal, signed_decimal_text,
    text_eq,
};
use vstd::math::max;
use vstd::prelude::*;

verus! {

// ---------------------------------------------------------------------------------------------
// Bounds and sizes
// ---------------------------------------------------------------------------------------------
/// The first of the layout's elements, from one on, that places the captions of a scene.
pub open spec fn bounds_from(elements: Seq<LayoutElementModel>, scene_id: Option<Seq<char>>, place: int) -> Option<
    NormalizedRect,
>
    decreases elements.len() - place,
{
    if place < 0 || place >= elements.len() {
        None
    } else if elements[place].role == LayoutRole::Captions && elements[place].scene_id == scene_id {
        Some(elements[place].bounds)
    } else {
        bounds_from(elements, scene_id, place + 1)
    }
}

/// Where the captions of a scene stand: where its layout puts them, or at the default place.
pub open spec fn caption_bounds(layout: LayoutPlanModel, scene_id: Option<Seq<char>>, default: NormalizedRect) -> NormalizedRect {
    match bounds_from(layout.elements, scene_id, 0) {
        Some(bounds) => bounds,
        None => default,
    }
}

fn same_scene(left: &Option<String>, right: &Option<String>) -> (result: bool)
    ensures
        result == (left.deep_view() == right.deep_view()),
{
    match (left, right) {
        (Some(a), Some(b)) => text_eq(a.as_str(), b.as_str()),
        (None, None) => true,
        _ => false,
    }
}

/// Where the captions of a scene stand.
pub fn caption_bounds_for_scene(layout: &LayoutPlan, scene_id: &Option<String>, default: NormalizedRect) -> (bounds:
    NormalizedRect)
    ensures
        bounds == caption_bounds(layout.deep_view(), scene_id.deep_view(), default),
{
    let ghost model = layout.deep_view().elements;
    let ghost scene = scene_id.deep_view();
    let mut place: usize = 0;
    while place < layout.elements.len()
        invariant
            place <= layout.elements.len(),
            model == layout.elements.deep_view(),
            scene == scene_id.deep_view(),
            bounds_from(model, scene, 0) == bounds_from(model, scene, place as int),
        decreases layout.elements.len() - place,
    {
        let element: &LayoutElement = &layout.elements[place];
        assert(model[place as int] == element.deep_view());
        if element.role == LayoutRole::Captions && same_scene(&element.scene_id, scene_id) {
            return element.bounds;
        }
        place += 1;
    }
    default
}

/// How many lines the tokens make up to one.
pub open spec fn lines_to(breaks: Seq<bool>, count: int) -> int
    decreases count,
{
    if count <= 1 {
        1
    } else {
        lines_to(breaks, count - 1) + if breaks[count - 1] {
            1int
        } else {
            0
        }
    }
}

/// How many characters the line has that ends with a token.
pub open spec fn line_chars_to(tokens: Seq<TimedCaptionTokenModel>, breaks: Seq<bool>, count: int) -> int
    decreases count,
{
    if count <= 0 {
        0
    } else {
        let length = tokens[count - 1].text.len() as int;
        if count > 1 && breaks[count - 1] {
            length
        } else {
            line_chars_to(tokens, breaks, count - 1) + (if count > 1 && tokens[count - 1].space_before {
                1int
            } else {
                0
            }) + length
        }
    }
}

/// How many characters the longest line of the first tokens has, and never none.
pub open spec fn widest_to(tokens: Seq<TimedCaptionTokenModel>, breaks: Seq<bool>, count: int) -> int
    decreases count,
{
    if count <= 0 {
        1
    } else {
        larger(widest_to(tokens, breaks, count - 1), line_chars_to(tokens, breaks, count))
    }
}

pub open spec fn unsigned(value: i32) -> int {
    if value < 0 {
        0
    } else {
        value as int
    }
}

/// The size of a page's letters, in basis points of the canvas height: the size of the look, or less
/// where the lines would not fit the bounds. A line takes 1.35 em, outline and background included,
/// and a letter at most 0.68 em. The limits are the same on every canvas, so proxies, previews and
/// final renders agree on the relative size.
pub open spec fn font_size_of(
    bounds: NormalizedRect,
    canvas_width: int,
    canvas_height: int,
    preset: AssCaptionPreset,
    lines: int,
    widest: int,
) -> int {
    let by_height = (unsigned(bounds.height_bp) * 100) / (lines * 135);
    let by_width = (unsigned(bounds.width_bp) * canvas_width * 100) / (canvas_height * widest * 68);
    larger(smaller(smaller(smaller(preset.relative_size_milli * 10, by_height), by_width), 1_000), 1)
}

/// Where a page stands and how large its letters are.
#[derive(Clone, Copy, Debug, PartialEq, Eq, Structural)]
pub struct CaptionRenderGeometry {
    pub bounds: NormalizedRect,
    pub font_size_bp: u16,
}

pub open spec fn page_geometry(
    layout: LayoutPlanModel,
    scene_id: Option<Seq<char>>,
    default: NormalizedRect,
    preset: AssCaptionPreset,
    tokens: Seq<TimedCaptionTokenModel>,
) -> CaptionRenderGeometry {
    let bounds = caption_bounds(layout, scene_id, default);
    let breaks = line_breaks(tokens, preset.paging)->0;
    CaptionRenderGeometry {
        bounds,
        font_size_bp: font_size_of(
            bounds,
            layout.canvas.width as int,
            layout.canvas.height as int,
            preset,
            lines_to(breaks, tokens.len() as int),
            widest_to(tokens, breaks, tokens.len() as int),
        ) as u16,
    }
}

/// Whether a page can be laid out: its lines fit its look.
pub open spec fn measured(tokens: Seq<TimedCaptionTokenModel>, preset: AssCaptionPreset) -> bool {
    &&& preset.paging.max_chars_per_line <= 0xffff
    &&& line_breaks(tokens, preset.paging) is Some
    &&& 0 < tokens.len() <= 0xffff
}

fn measure(tokens: &Vec<TimedCaptionToken>, breaks: &Vec<bool>) -> (size: (u64, u64))
    requires
        0 < tokens.len() <= 0xffff,
        breaks.len() == tokens.len(),
        forall|i: int| 0 <= i < tokens.len() ==> (#[trigger] tokens.deep_view()[i]).text.len() <= 0xffff,
    ensures
        size.0 == lines_to(breaks@, tokens.len() as int),
        size.1 == widest_to(tokens.deep_view(), breaks@, tokens.len() as int),
        1 <= size.0 <= 0xffff,
        1 <= size.1 <= 0xffff_ffff,
{
    let ghost model = tokens.deep_view();
    let mut lines: u64 = 1;
    let mut current: u64 = 0;
    let mut widest: u64 = 1;
    let mut place: usize = 0;
    while place < tokens.len()
        invariant
            place <= tokens.len() <= 0xffff,
            breaks.len() == tokens.len(),
            model == tokens.deep_view(),
            forall|i: int| 0 <= i < tokens.len() ==> (#[trigger] model[i]).text.len() <= 0xffff,
            lines == lines_to(breaks@, place as int),
            current == line_chars_to(model, breaks@, place as int),
            widest == widest_to(model, breaks@, place as int),
            1 <= lines <= place + 1,
            place > 0 ==> lines <= place,
            current <= place * 0x1_0000,
            1 <= widest <= 1 + place * 0x1_0000,
            place > 0 ==> widest <= place * 0x1_0000,
        decreases tokens.len() - place,
    {
        assert(model[place as int] == tokens[place as int].deep_view());
        let length: u64 = chars_in(tokens[place].text.as_str()) as u64;
        if place > 0 && breaks[place] {
            current = length;
            lines = lines + 1;
        } else {
            if place > 0 && tokens[place].space_before {
                current = current + 1;
            }
            current = current + length;
        }
        if current > widest {
            widest = current;
        }
        place += 1;
    }
    (lines, widest)
}

/// Where a page stands and how large its letters are.
pub fn caption_geometry_for_page(
    layout: &LayoutPlan,
    scene_id: &Option<String>,
    default: NormalizedRect,
    preset: &AssCaptionPreset,
    page: &CaptionPage,
) -> (geometry: CaptionRenderGeometry)
    requires
        measured(page.tokens.deep_view(), *preset),
        0 < layout.canvas.width <= 16_384,
        0 < layout.canvas.height <= 16_384,
    ensures
        geometry == page_geometry(
            layout.deep_view(),
            scene_id.deep_view(),
            default,
            *preset,
            page.deep_view().tokens,
        ),
        1 <= geometry.font_size_bp <= 1_000,
{
    let ghost model = page.tokens.deep_view();
    assert(model.len() == page.tokens.len());
    let bounds: NormalizedRect = caption_bounds_for_scene(layout, scene_id, default);
    proof {
        lemma_line_breaks(model, preset.paging);
        lemma_page_fits_lines(model, preset.paging);
    }
    let mut size: u16 = 1;
    if let Some(breaks) = caption_line_breaks(&page.tokens, preset.paging) {
        let extent: (u64, u64) = measure(&page.tokens, &breaks);
        let height: u64 = if bounds.height_bp < 0 {
            0
        } else {
            bounds.height_bp as u64
        };
        let width: u64 = if bounds.width_bp < 0 {
            0
        } else {
            bounds.width_bp as u64
        };
        let canvas_width: u64 = layout.canvas.width as u64;
        let canvas_height: u64 = layout.canvas.height as u64;
        proof {
            assert(width * canvas_width <= 0x7fff_ffff * 16_384) by (nonlinear_arith)
                requires
                    width <= 0x7fff_ffff,
                    canvas_width <= 16_384,
            ;
            assert(1 <= canvas_height * extent.1 <= 16_384 * 0xffff_ffff) by (nonlinear_arith)
                requires
                    1 <= canvas_height <= 16_384,
                    1 <= extent.1 <= 0xffff_ffff,
            ;
        }
        let by_height: u64 = (height * 100) / (extent.0 * 135);
        let by_width: u64 = (width * canvas_width * 100) / (canvas_height * extent.1 * 68);
        let mut chosen: u64 = preset.relative_size_milli as u64 * 10;
        if by_height < chosen {
            chosen = by_height;
        }
        if by_width < chosen {
            chosen = by_width;
        }
        if chosen > 1_000 {
            chosen = 1_000;
        }
        if chosen < 1 {
            chosen = 1;
        }
        size = chosen as u16;
    }
    CaptionRenderGeometry { bounds, font_size_bp: size }
}

/// Basis points of a number of pixels, rounded to a whole one.
pub open spec fn scaled_basis_point(value: int, pixels: int) -> int {
    (larger(value, 0) * pixels + 5_000) / 10_000
}

fn scale_basis_point(value: i64, pixels: u32) -> (result: u64)
    requires
        value <= 0x1_0000_0000,
    ensures
        result == scaled_basis_point(value as int, pixels as int),
{
    let size: u64 = if value < 0 {
        0
    } else {
        value as u64
    };
    assert(0 <= size * pixels <= 0x1_0000_0000 * 0xffff_ffff) by (nonlinear_arith)
        requires
            0 <= size <= 0x1_0000_0000,
            0 <= pixels <= 0xffff_ffff,
    ;
    (size * pixels as u64 + 5_000) / 10_000
}

/// The mark that puts a page in the middle of its bounds.
pub open spec fn geometry_mark(geometry: CaptionRenderGeometry, width: int, height: int) -> Seq<char> {
    let x = geometry.bounds.x_bp + truncated(geometry.bounds.width_bp as int, 2);
    let y = geometry.bounds.y_bp + truncated(geometry.bounds.height_bp as int, 2);
    "{\\an5\\pos("@ + decimal(scaled_basis_point(x, width) as nat) + ","@ + decimal(
        scaled_basis_point(y, height) as nat,
    ) + ")\\fs"@ + decimal(larger(scaled_basis_point(geometry.font_size_bp as int, height), 1) as nat) + "\\q2}"@
}

fn halved(value: i32) -> (half: i64)
    ensures
        half == truncated(value as int, 2),
        -0x8000_0000 <= half <= 0x7fff_ffff,
{
    if value < 0 {
        -((-(value as i64)) / 2)
    } else {
        value as i64 / 2
    }
}

/// The mark that puts a page in the middle of its bounds.
pub fn ass_geometry_override(geometry: CaptionRenderGeometry, width: u32, height: u32) -> (mark: String)
    ensures
        mark@ == geometry_mark(geometry, width as int, height as int),
{
    let x: i64 = geometry.bounds.x_bp as i64 + halved(geometry.bounds.width_bp);
    let y: i64 = geometry.bounds.y_bp as i64 + halved(geometry.bounds.height_bp);
    let size: u64 = scale_basis_point(geometry.font_size_bp as i64, height);
    let left: String = decimal_text(scale_basis_point(x, width));
    let top: String = decimal_text(scale_basis_point(y, height));
    let font: String = decimal_text(if size < 1 {
        1
    } else {
        size
    });
    let mut mark: String = String::from_str("{\\an5\\pos(");
    mark.append(left.as_str());
    mark.append(",");
    mark.append(top.as_str());
    mark.append(")\\fs");
    mark.append(font.as_str());
    mark.append("\\q2}");
    mark
}

// ---------------------------------------------------------------------------------------------
// Styles
// ---------------------------------------------------------------------------------------------
/// The size of a look's letters on a canvas, in pixels.
pub open spec fn font_size(preset: AssCaptionPreset, height: int) -> int {
    larger(smaller(scaled(height, preset.relative_size_milli as int), 112), 22)
}

/// The size of a look's letters on a canvas, in pixels.
pub fn caption_font_size(preset: &AssCaptionPreset, height: u32) -> (size: u32)
    requires
        height <= 16_384,
        32 <= preset.relative_size_milli <= 0x1000,
    ensures
        size == font_size(*preset, height as int),
        22 <= size <= 112,
{
    let size: u64 = scale(height, preset.relative_size_milli as u32);
    if size > 112 {
        112
    } else if size < 22 {
        22
    } else {
        size as u32
    }
}

/// What the line that declares a look says.
pub open spec fn style_text(preset: AssCaptionPreset, width: int, height: int) -> Seq<char> {
    let side = decimal(larger(scaled(width, 65), 36) as nat);
    let below = decimal(larger(scaled(height, preset.margin_vertical_milli as int), 36) as nat);
    "Style: "@ + preset.ass_name@ + ","@ + preset.font_name@ + ","@ + decimal(font_size(preset, height) as nat) + ","@
        + preset.primary_color@ + ","@ + preset.secondary_color@ + ","@ + preset.outline_color@ + ","@
        + preset.back_color@ + ","@ + (if preset.bold {
        "-1"@
    } else {
        "0"@
    }) + ",0,0,0,100,100,"@ + signed_decimal(preset.spacing as int) + ",0,"@ + decimal(preset.border_style as nat) + ","@
        + decimal(preset.outline as nat) + ","@ + decimal(preset.shadow as nat) + ","@ + decimal(
        preset.alignment as nat,
    ) + ","@ + side + ","@ + side + ","@ + below + ",1"@
}

/// The line that declares a look.
pub open spec fn style_line(preset: AssCaptionPreset, width: int, height: int) -> Seq<char> {
    style_text(preset, width, height) + "\n"@
}

/// The style of a look, as a subtitle document declares it.
pub fn ass_caption_style(preset: &AssCaptionPreset, width: u32, height: u32) -> (line: String)
    requires
        width <= 16_384,
        height <= 16_384,
        32 <= preset.relative_size_milli <= 0x1000,
        32 <= preset.margin_vertical_milli <= 0x1000,
    ensures
        line@ == style_line(*preset, width as int, height as int),
{
    let horizontal: u64 = scale(width, 65);
    let vertical: u64 = scale(height, preset.margin_vertical_milli as u32);
    let side: String = decimal_text(if horizontal < 36 {
        36
    } else {
        horizontal
    });
    let below: String = decimal_text(if vertical < 36 {
        36
    } else {
        vertical
    });
    let size: String = decimal_text(caption_font_size(preset, height) as u64);
    let spacing: String = signed_decimal_text(preset.spacing as i64);
    let border: String = decimal_text(preset.border_style as u64);
    let outline: String = decimal_text(preset.outline as u64);
    let shadow: String = decimal_text(preset.shadow as u64);
    let alignment: String = decimal_text(preset.alignment as u64);
    let mut line: String = String::from_str("Style: ");
    line.append(preset.ass_name);
    line.append(",");
    line.append(preset.font_name);
    line.append(",");
    line.append(size.as_str());
    line.append(",");
    line.append(preset.primary_color);
    line.append(",");
    line.append(preset.secondary_color);
    line.append(",");
    line.append(preset.outline_color);
    line.append(",");
    line.append(preset.back_color);
    line.append(",");
    if preset.bold {
        line.append("-1");
    } else {
        line.append("0");
    }
    line.append(",0,0,0,100,100,");
    line.append(spacing.as_str());
    line.append(",0,");
    line.append(border.as_str());
    line.append(",");
    line.append(outline.as_str());
    line.append(",");
    line.append(shadow.as_str());
    line.append(",");
    line.append(alignment.as_str());
    line.append(",");
    line.append(side.as_str());
    line.append(",");
    line.append(side.as_str());
    line.append(",");
    line.append(below.as_str());
    line.append(",1");
    line.append("\n");
    line
}

// ---------------------------------------------------------------------------------------------
// What a page reads
// ---------------------------------------------------------------------------------------------
/// Which tokens of a page are in the colour of the active ones, and how many are shown.
pub struct Emphasis {
    pub active: Option<int>,
    pub spoken: int,
    pub visible: int,
}

/// What stands between a token and the one before it.
pub open spec fn separator(tokens: Seq<TimedCaptionTokenModel>, breaks: Seq<bool>, place: int, line_end: Seq<char>) -> Seq<char> {
    if place <= 0 {
        Seq::empty()
    } else if breaks[place] {
        line_end
    } else if tokens[place].space_before {
        " "@
    } else {
        Seq::empty()
    }
}

pub open spec fn color_at(preset: AssCaptionPreset, emphasis: Emphasis, place: int) -> Seq<char> {
    if emphasis.active == Some(place) || place < emphasis.spoken {
        preset.active_color@
    } else {
        preset.primary_color@
    }
}

/// The mark of a token's colour, where it is not that of the token before it.
pub open spec fn color_mark(preset: AssCaptionPreset, emphasis: Emphasis, place: int) -> Seq<char> {
    if place > 0 && color_at(preset, emphasis, place) == color_at(preset, emphasis, place - 1) {
        Seq::empty()
    } else {
        "{\\1c"@ + color_at(preset, emphasis, place) + "}"@
    }
}

/// The first tokens of a page as a subtitle writes them.
pub open spec fn styled_to(
    tokens: Seq<TimedCaptionTokenModel>,
    breaks: Seq<bool>,
    preset: AssCaptionPreset,
    emphasis: Emphasis,
    count: int,
) -> Seq<char>
    decreases count,
{
    if count <= 0 {
        Seq::empty()
    } else {
        styled_to(tokens, breaks, preset, emphasis, count - 1) + separator(tokens, breaks, count - 1, "\\N"@)
            + color_mark(preset, emphasis, count - 1) + escaped(Place::Subtitle, tokens[count - 1].text)
    }
}

/// A page as a subtitle writes it.
pub open spec fn page_text(tokens: Seq<TimedCaptionTokenModel>, preset: AssCaptionPreset, emphasis: Emphasis) -> Seq<char> {
    styled_to(
        tokens,
        line_breaks(tokens, preset.paging)->0,
        preset,
        emphasis,
        smaller(emphasis.visible, tokens.len() as int),
    )
}

/// The first tokens of a page without any marks.
pub open spec fn plain_to(tokens: Seq<TimedCaptionTokenModel>, breaks: Seq<bool>, count: int) -> Seq<char>
    decreases count,
{
    if count <= 0 {
        Seq::empty()
    } else {
        plain_to(tokens, breaks, count - 1) + separator(tokens, breaks, count - 1, "\n"@) + tokens[count - 1].text
    }
}

/// A page without any marks.
pub open spec fn plain_text(tokens: Seq<TimedCaptionTokenModel>, preset: AssCaptionPreset) -> Seq<char> {
    plain_to(tokens, line_breaks(tokens, preset.paging)->0, tokens.len() as int)
}

fn push_separator(text: &mut String, tokens: &Vec<TimedCaptionToken>, breaks: &Vec<bool>, place: usize, line_end: &str)
    requires
        place < tokens.len(),
        breaks.len() == tokens.len(),
    ensures
        final(text)@ == old(text)@ + separator(tokens.deep_view(), breaks@, place as int, line_end@),
{
    assert(tokens.deep_view()[place as int] == tokens[place as int].deep_view());
    if place > 0 && breaks[place] {
        text.append(line_end);
    } else if place > 0 && tokens[place].space_before {
        text.append(" ");
    } else {
        assert(text@ =~= old(text)@ + Seq::<char>::empty());
    }
}

/// Writes the tokens of a page that are shown, each in its colour.
pub fn caption_page_text(
    page: &CaptionPage,
    preset: &AssCaptionPreset,
    active: Option<usize>,
    spoken: usize,
    visible: usize,
) -> (text: String)
    requires
        measured(page.tokens.deep_view(), *preset),
    ensures
        text@ == page_text(
            page.deep_view().tokens,
            *preset,
            (Emphasis {
                active: match active {
                    Some(place) => Some(place as int),
                    None => None,
                },
                spoken: spoken as int,
                visible: visible as int,
            }),
        ),
{
    let tokens: &Vec<TimedCaptionToken> = &page.tokens;
    let ghost model = tokens.deep_view();
    let ghost emphasis = Emphasis {
        active: match active {
            Some(place) => Some(place as int),
            None => None,
        },
        spoken: spoken as int,
        visible: visible as int,
    };
    let mut text: String = String::new();
    proof {
        lemma_line_breaks(model, preset.paging);
    }
    assert(model.len() == tokens.len());
    if let Some(breaks) = caption_line_breaks(tokens, preset.paging) {
        let shown: usize = if visible <= tokens.len() {
            visible
        } else {
            tokens.len()
        };
        let mut place: usize = 0;
        let mut current: &str = "";
        assert(text@ =~= Seq::empty());
        while place < shown
            invariant
                place <= shown <= tokens.len(),
                breaks.len() == tokens.len(),
                model == tokens.deep_view(),
                emphasis.active == (match active {
                    Some(at) => Some(at as int),
                    None => None,
                }),
                emphasis.spoken == spoken,
                place > 0 ==> current@ == color_at(*preset, emphasis, place - 1),
                text@ == styled_to(model, breaks@, *preset, emphasis, place as int),
            decreases shown - place,
        {
            assert(model[place as int] == tokens[place as int].deep_view());
            push_separator(&mut text, tokens, &breaks, place, "\\N");
            let is_active: bool = match active {
                Some(at) => at == place,
                None => false,
            };
            let color: &str = if is_active || place < spoken {
                preset.active_color
            } else {
                preset.primary_color
            };
            assert(color@ == color_at(*preset, emphasis, place as int));
            let ghost before = text@;
            if place > 0 && text_eq(color, current) {
                assert(before + Seq::<char>::empty() =~= before);
            } else {
                let mut mark: String = String::from_str("{\\1c");
                mark.append(color);
                mark.append("}");
                text.append(mark.as_str());
            }
            assert(text@ == before + color_mark(*preset, emphasis, place as int));
            current = color;
            let said: String = escape(Place::Subtitle, tokens[place].text.as_str());
            text.append(said.as_str());
            place += 1;
        }
    }
    text
}

/// Writes the tokens of a page without any marks.
pub fn plain_caption_page_text(page: &CaptionPage, preset: &AssCaptionPreset) -> (text: String)
    requires
        measured(page.tokens.deep_view(), *preset),
    ensures
        text@ == plain_text(page.deep_view().tokens, *preset),
{
    let tokens: &Vec<TimedCaptionToken> = &page.tokens;
    let ghost model = tokens.deep_view();
    let mut text: String = String::new();
    proof {
        lemma_line_breaks(model, preset.paging);
    }
    assert(model.len() == tokens.len());
    if let Some(breaks) = caption_line_breaks(tokens, preset.paging) {
        let mut place: usize = 0;
        assert(text@ =~= Seq::empty());
        while place < tokens.len()
            invariant
                place <= tokens.len(),
                breaks.len() == tokens.len(),
                model == tokens.deep_view(),
                text@ == plain_to(model, breaks@, place as int),
            decreases tokens.len() - place,
        {
            assert(model[place as int] == tokens[place as int].deep_view());
            push_separator(&mut text, tokens, &breaks, place, "\n");
            text.append(tokens[place].text.as_str());
            place += 1;
        }
    }
    text
}

/// The letters of a page are as large as the look asks and the bounds allow, and no larger: its lines fit the height
/// of the bounds at 1.35 em and its longest line fits their width at 0.68 em a letter, and one basis point more would
/// break one of the limits. Only the smallest letters are kept where nothing fits.
pub proof fn letters_fit_their_bounds(
    bounds: NormalizedRect,
    canvas_width: int,
    canvas_height: int,
    preset: AssCaptionPreset,
    lines: int,
    widest: int,
)
    requires
        canvas_width > 0,
        canvas_height > 0,
        lines > 0,
        widest > 0,
    ensures
        ({
            let size = font_size_of(bounds, canvas_width, canvas_height, preset, lines, widest);
            let height = max(bounds.height_bp as int, 0);
            let width = max(bounds.width_bp as int, 0);
            &&& 1 <= size <= 1_000
            &&& size > 1 ==> {
                &&& size <= 10 * preset.relative_size_milli
                &&& size * (lines * 135) <= height * 100
                &&& size * (canvas_height * widest * 68) <= width * canvas_width * 100
            }
            &&& size < 1_000 ==> {
                ||| size + 1 > 10 * preset.relative_size_milli
                ||| (size + 1) * (lines * 135) > height * 100
                ||| (size + 1) * (canvas_height * widest * 68) > width * canvas_width * 100
            }
        }),
{
    let high = unsigned(bounds.height_bp) * 100;
    let wide = unsigned(bounds.width_bp) * canvas_width * 100;
    let line = lines * 135;
    let letter = canvas_height * widest * 68;
    assert(letter > 0) by (nonlinear_arith)
        requires
            letter == canvas_height * widest * 68,
            canvas_height > 0,
            widest > 0,
    ;
    let size = font_size_of(bounds, canvas_width, canvas_height, preset, lines, widest);
    lemma_quotient(high, line, size);
    lemma_quotient(high, line, size + 1);
    lemma_quotient(wide, letter, size);
    lemma_quotient(wide, letter, size + 1);
}

/// A number is at most a quotient where its product is at most the dividend.
proof fn lemma_quotient(value: int, by: int, number: int)
    requires
        by > 0,
    ensures
        number <= value / by <==> number * by <= value,
{
    vstd::arithmetic::div_mod::lemma_fundamental_div_mod(value, by);
    vstd::arithmetic::div_mod::lemma_mod_bound(value, by);
    let part = value / by;
    assert(number <= part ==> number * by <= part * by) by (nonlinear_arith)
        requires
            by > 0,
    ;
    assert(number >= part + 1 ==> number * by >= (part + 1) * by) by (nonlinear_arith)
        requires
            by > 0,
    ;
    assert(part * by == by * part && (part + 1) * by == by * part + by) by (nonlinear_arith);
}

/// The captions of a scene stand where the first caption element of that scene puts them, and at the default place
/// where there is none.
pub proof fn captions_stand_where_their_scene_puts_them(
    layout: LayoutPlanModel,
    scene_id: Option<Seq<char>>,
    default: NormalizedRect,
) -> (place: int)
    ensures
        ({
            let found = 0 <= place < layout.elements.len();
            &&& found ==> layout.elements[place].role == LayoutRole::Captions && layout.elements[place].scene_id
                == scene_id && caption_bounds(layout, scene_id, default) == layout.elements[place].bounds
            &&& !found ==> caption_bounds(layout, scene_id, default) == default
            &&& forall|i: int|
                0 <= i < layout.elements.len() && (!found || i < place) ==> (#[trigger] layout.elements[i]).role
                    != LayoutRole::Captions || layout.elements[i].scene_id != scene_id
        }),
{
    lemma_bounds(layout.elements, scene_id, 0)
}

proof fn lemma_bounds(elements: Seq<LayoutElementModel>, scene_id: Option<Seq<char>>, from: int) -> (place: int)
    requires
        0 <= from <= elements.len(),
    ensures
        from <= place <= elements.len(),
        match bounds_from(elements, scene_id, from) {
            Some(bounds) => place < elements.len() && elements[place].role == LayoutRole::Captions
                && elements[place].scene_id == scene_id && elements[place].bounds == bounds,
            None => place == elements.len(),
        },
        forall|i: int|
            from <= i < place ==> (#[trigger] elements[i]).role != LayoutRole::Captions || elements[i].scene_id
                != scene_id,
    decreases elements.len() - from,
{
    if from < elements.len() && !(elements[from].role == LayoutRole::Captions && elements[from].scene_id == scene_id) {
        lemma_bounds(elements, scene_id, from + 1)
    } else {
        from
    }
}

/// A page is put in the middle of its bounds, to the nearest pixel, and its letters are, to the nearest pixel, as high
/// as its geometry says, and never without height.
pub proof fn a_page_stands_in_the_middle_of_its_bounds(geometry: CaptionRenderGeometry, width: int, height: int) -> (marks: (
    Seq<char>,
    Seq<char>,
    Seq<char>,
))
    requires
        width > 0,
        height > 0,
        geometry.bounds.x_bp >= 0,
        geometry.bounds.y_bp >= 0,
        geometry.bounds.width_bp >= 0,
        geometry.bounds.height_bp >= 0,
    ensures
        geometry_mark(geometry, width, height) == "{\\an5\\pos("@ + marks.0 + ","@ + marks.1 + ")\\fs"@ + marks.2
            + "\\q2}"@,
        ({
            let middle = geometry.bounds.x_bp + geometry.bounds.width_bp as int / 2;
            -10_000 < 2 * (10_000 * number_in(marks.0) - middle * width) <= 10_000
        }),
        ({
            let middle = geometry.bounds.y_bp + geometry.bounds.height_bp as int / 2;
            -10_000 < 2 * (10_000 * number_in(marks.1) - middle * height) <= 10_000
        }),
        number_in(marks.2) >= 1,
        number_in(marks.2) > 1 ==> -10_000 < 2 * (10_000 * number_in(marks.2) - geometry.font_size_bp * height)
            <= 10_000,
{
    let x = geometry.bounds.x_bp + truncated(geometry.bounds.width_bp as int, 2);
    let y = geometry.bounds.y_bp + truncated(geometry.bounds.height_bp as int, 2);
    lemma_nearest_pixel(x, width);
    lemma_nearest_pixel(y, height);
    lemma_nearest_pixel(geometry.font_size_bp as int, height);
    let left = scaled_basis_point(x, width) as nat;
    let top = scaled_basis_point(y, height) as nat;
    let size = larger(scaled_basis_point(geometry.font_size_bp as int, height), 1) as nat;
    a_number_reads_as_itself(left);
    a_number_reads_as_itself(top);
    a_number_reads_as_itself(size);
    (decimal(left), decimal(top), decimal(size))
}

proof fn lemma_nearest_pixel(value: int, pixels: int)
    requires
        value >= 0,
        pixels > 0,
    ensures
        scaled_basis_point(value, pixels) >= 0,
        -10_000 < 2 * (10_000 * scaled_basis_point(value, pixels) - value * pixels) <= 10_000,
{
    assert(value * pixels >= 0) by (nonlinear_arith)
        requires
            value >= 0,
            pixels > 0,
    ;
}

} // verus!
