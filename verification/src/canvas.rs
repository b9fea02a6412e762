//! What is rendered, and on which canvas.

use crate::caption_presets::CaptionTheme;
use crate::manifest::{CanvasMode, LayoutPlan, LayoutPlanModel};
use vstd::prelude::*;

verus! {

/// How good a render is.
#[derive(Clone, Copy, Debug, PartialEq, Eq, Structural)]
pub enum RenderProfile {
    Proxy,
    Preview,
    Final,
}

/// How pictures of another shape fill the canvas.
#[derive(Clone, Copy, Debug, PartialEq, Eq, Structural)]
pub enum PortraitLayout {
    CenterCrop,
    Contain,
    BlurPad,
}

/// How a timeline is put together.
#[derive(Clone, Copy, Debug, PartialEq, Eq, Structural)]
pub struct AssemblyOptions {
    pub profile: RenderProfile,
    pub portrait_layout: PortraitLayout,
    pub caption_theme: CaptionTheme,
    pub include_title_cards: bool,
    pub include_speaker_cards: bool,
    pub burn_captions: bool,
}

impl Default for AssemblyOptions {
    fn default() -> (options: Self)
        ensures
            options.profile == RenderProfile::Preview,
            options.portrait_layout == PortraitLayout::CenterCrop,
            options.caption_theme == CaptionTheme::CleanWhite,
            options.include_title_cards,
            options.include_speaker_cards,
            options.burn_captions,
    {
        AssemblyOptions {
            profile: RenderProfile::Preview,
            portrait_layout: PortraitLayout::CenterCrop,
            caption_theme: CaptionTheme::CleanWhite,
            include_title_cards: true,
            include_speaker_cards: true,
            burn_captions: true,
        }
    }
}

/// The width and the height that a layout renders at.
pub open spec fn dimensions(profile: RenderProfile, layout: LayoutPlanModel) -> (u32, u32) {
    match (layout.mode, profile) {
        (CanvasMode::Custom, _) => (layout.canvas.width, layout.canvas.height),
        (CanvasMode::Portrait, RenderProfile::Proxy) => (540, 960),
        (CanvasMode::Portrait, RenderProfile::Preview) => (720, 1280),
        (CanvasMode::Portrait, RenderProfile::Final) => (1080, 1920),
        (CanvasMode::Square, RenderProfile::Proxy) => (540, 540),
        (CanvasMode::Square, RenderProfile::Preview) => (720, 720),
        (CanvasMode::Square, RenderProfile::Final) => (1080, 1080),
        (CanvasMode::Landscape, RenderProfile::Proxy) => (960, 540),
        (CanvasMode::Landscape, RenderProfile::Preview) => (1280, 720),
        (CanvasMode::Landscape, RenderProfile::Final) => (3840, 2160),
    }
}

/// The canvas an episode renders on, so that generated artwork is drawn at exactly the size it will be
/// composited at.
pub fn profile_dimensions(profile: RenderProfile, layout: &LayoutPlan) -> (size: (u32, u32))
    ensures
        size == dimensions(profile, layout.deep_view()),
{
    match (layout.mode, profile) {
        (CanvasMode::Custom, _) => (layout.canvas.width, layout.canvas.height),
        (CanvasMode::Portrait, RenderProfile::Proxy) => (540, 960),
        (CanvasMode::Portrait, RenderProfile::Preview) => (720, 1280),
        (CanvasMode::Portrait, RenderProfile::Final) => (1080, 1920),
        (CanvasMode::Square, RenderProfile::Proxy) => (540, 540),
        (CanvasMode::Square, RenderProfile::Preview) => (720, 720),
        (CanvasMode::Square, RenderProfile::Final) => (1080, 1080),
        (CanvasMode::Landscape, RenderProfile::Proxy) => (960, 540),
        (CanvasMode::Landscape, RenderProfile::Preview) => (1280, 720),
        (CanvasMode::Landscape, RenderProfile::Final) => (3840, 2160),
    }
}

/// The shape of a render is the shape of its layout, whatever the profile: a portrait is higher than wide, a
/// square as high as wide, a landscape wider than high, and a custom canvas is rendered as it is.
pub proof fn a_render_has_the_shape_of_its_layout(profile: RenderProfile, layout: LayoutPlanModel)
    ensures
        ({
            let (width, height) = dimensions(profile, layout);
            match layout.mode {
                CanvasMode::Portrait => 0 < width < height,
                CanvasMode::Square => 0 < width == height,
                CanvasMode::Landscape => width > height > 0,
                CanvasMode::Custom => width == layout.canvas.width && height == layout.canvas.height,
            }
        }),
{
}

/// The proxy, the preview and the final render of a layout are one picture at different sizes.
pub proof fn every_profile_has_one_aspect_ratio(left: RenderProfile, right: RenderProfile, layout: LayoutPlanModel)
    ensures
        dimensions(left, layout).0 * dimensions(right, layout).1 == dimensions(right, layout).0 * dimensions(
            left,
            layout,
        ).1,
{
    let (w1, h1) = dimensions(left, layout);
    let (w2, h2) = dimensions(right, layout);
    if layout.mode == CanvasMode::Custom {
        assert(w1 * h2 == w2 * h1) by (nonlinear_arith)
            requires
                w1 == w2,
                h1 == h2,
        ;
    }
}

/// A better profile never renders smaller: a preview is at least as large as a proxy, and a final at least as
/// large as a preview, and larger where the layout has sizes of its own. No size of a layout's own is odd.
pub proof fn better_profiles_render_larger(layout: LayoutPlanModel)
    ensures
        ({
            let proxy = dimensions(RenderProfile::Proxy, layout);
            let preview = dimensions(RenderProfile::Preview, layout);
            let last = dimensions(RenderProfile::Final, layout);
            &&& proxy.0 <= preview.0 <= last.0
            &&& proxy.1 <= preview.1 <= last.1
            &&& layout.mode != CanvasMode::Custom ==> {
                &&& proxy.0 < preview.0 < last.0
                &&& proxy.1 < preview.1 < last.1
                &&& proxy.0 % 2 == 0 && proxy.1 % 2 == 0
                &&& preview.0 % 2 == 0 && preview.1 % 2 == 0
                &&& last.0 % 2 == 0 && last.1 % 2 == 0
            }
        }),
{
}

/// A portrait and a landscape of one profile are each other turned, but for the final landscape, which is
/// twice as wide and as high; a square is as wide as the portrait, and a portrait is sixteen by nine.
pub proof fn layouts_of_a_profile_match(
    profile: RenderProfile,
    portrait: LayoutPlanModel,
    square: LayoutPlanModel,
    landscape: LayoutPlanModel,
)
    requires
        portrait.mode == CanvasMode::Portrait,
        square.mode == CanvasMode::Square,
        landscape.mode == CanvasMode::Landscape,
    ensures
        ({
            let scale: int = if profile == RenderProfile::Final { 2 } else { 1 };
            let (width, height) = dimensions(profile, portrait);
            &&& dimensions(profile, landscape).0 == scale * height
            &&& dimensions(profile, landscape).1 == scale * width
            &&& dimensions(profile, square) == (width, width)
            &&& 16 * width == 9 * height
        }),
{
}

/// A portrait or a square is 540 pixels wide in a proxy, 720 in a preview and 1080 in a final render.
pub proof fn profiles_have_their_widths(layout: LayoutPlanModel)
    requires
        layout.mode == CanvasMode::Portrait || layout.mode == CanvasMode::Square,
    ensures
        dimensions(RenderProfile::Proxy, layout).0 == 540,
        dimensions(RenderProfile::Preview, layout).0 == 720,
        dimensions(RenderProfile::Final, layout).0 == 1080,
{
}

} // verus!
