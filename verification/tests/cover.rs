//! Cover cards.

use soundar_video::cover::{
    cover_palette, cover_spec, cover_subtitle, palette_numbered, CoverSpec, COVER_PALETTE_COUNT, MAX_COVER_TITLE_CHARS,
};
use soundar_video::manifest::{CastDelivery, CastMember};

fn member(id: &str, display_name: &str) -> CastMember {
    CastMember {
        id: id.to_string(),
        name: display_name.to_uppercase(),
        display_name: display_name.to_string(),
        voice_id: "af_heart".to_string(),
        model_id: "hexgrad/Kokoro-82M".to_string(),
        language: "en-US".to_string(),
        delivery: CastDelivery::default(),
        consent_reference_id: None,
        notes: None,
        created_at: "2026-08-30T00:00:00Z".to_string(),
    }
}

#[test]
fn the_same_episode_always_draws_the_same_card() {
    let cast = [member("a", "Mara"), member("b", "Tobi")];
    let first = cover_spec("project-1", "The Quiet Server", &cast, 1920, 1080);
    let second = cover_spec("project-1", "The Quiet Server", &cast, 1920, 1080);
    assert_eq!(first, second);
    assert_eq!(first.cache_key(), second.cache_key());
}

#[test]
fn renaming_an_episode_redraws_the_card_but_keeps_its_colour() {
    let cast = [member("a", "Mara")];
    let before = cover_spec("project-1", "First name", &cast, 1920, 1080);
    let after = cover_spec("project-1", "Second name", &cast, 1920, 1080);
    // The card is regenerated, so the stale one is never reused for a renamed episode.
    assert_ne!(before.cache_key(), after.cache_key());
    // Identity, not the title, chooses the colour, so a rename does not restyle the show.
    assert_eq!(before.palette, after.palette);
}

#[test]
fn recasting_an_episode_redraws_the_card() {
    let one = cover_spec("project-1", "Episode", &[member("a", "Mara")], 1920, 1080);
    let two = cover_spec(
        "project-1",
        "Episode",
        &[member("a", "Mara"), member("b", "Tobi")],
        1920,
        1080,
    );
    assert_ne!(one.cache_key(), two.cache_key());
    assert_eq!(two.subtitle, "Mara · Tobi");
}

#[test]
fn every_palette_is_one_that_was_chosen_rather_than_computed() {
    // A hash picks between palettes; it never mixes its own colours, so no generated cover can
    // land on text that disappears into its background.
    for index in 0..64 {
        let palette = cover_palette(&format!("project-{index}"));
        assert!((0..COVER_PALETTE_COUNT).any(|chosen| palette_numbered(chosen) == palette));
        assert_ne!(palette.background, palette.foreground);
        assert_ne!(palette.background, palette.muted);
    }
}

#[test]
fn a_large_cast_is_counted_rather_than_cut_off_mid_list() {
    let cast = (0..9)
        .map(|index| member(&format!("c{index}"), &format!("Voice {index}")))
        .collect::<Vec<_>>();
    // Listing four and stopping would read as though the episode had only four voices.
    assert_eq!(cover_subtitle(&cast), "9 voices");
}

#[test]
fn an_unnamed_episode_still_gets_a_card() {
    let spec = cover_spec("project-1", "   ", &[], 1920, 1080);
    assert_eq!(spec.title, "Untitled episode");
    assert!(spec.subtitle.is_empty());
}

#[test]
fn a_long_title_is_shortened_visibly_and_shrunk_to_fit() {
    let long =
        "A remarkably long episode title that keeps going well past anything that could \
                be read at a glance on a card";
    let spec = cover_spec("project-1", long, &[], 1920, 1080);
    assert!(spec.title.chars().count() <= MAX_COVER_TITLE_CHARS);
    // Truncation is marked, so the title never looks like it simply ended there.
    assert!(spec.title.ends_with('…'));
    let short = cover_spec("project-1", "Short", &[], 1920, 1080);
    assert!(spec.title_font_size() < short.title_font_size());
    assert!(spec.title_font_size() >= 24);
}

#[test]
fn title_type_stays_a_fraction_of_the_canvas_at_every_size() {
    // A card is drawn once at full size and scaled down for every preview, so type that is
    // capped at a pixel count disappears on a large canvas shown small.
    for (width, height) in [(1280_u32, 720_u32), (1920, 1080), (3840, 2160)] {
        let spec = cover_spec("project-1", "Close to Home", &[], width, height);
        let size = spec.title_font_size();
        assert!(
            size >= width / 32,
            "{width}x{height}: title {size} is too small"
        );
        assert!(
            size <= width / 8,
            "{width}x{height}: title {size} is too large"
        );
    }
}

#[test]
fn changing_how_a_card_is_drawn_changes_its_address() {
    // The drawn pixels depend on derived type sizes as well as on the title. If the address
    // ignored them, changing the drawing rules would keep serving cards drawn by the old ones.
    let spec = cover_spec("project-1", "Close to Home", &[], 1920, 1080);
    let restyled = CoverSpec {
        title: format!("{} ", spec.title),
        ..spec.clone()
    };
    assert_ne!(spec.cache_key(), restyled.cache_key());

    let wider = CoverSpec {
        width: 2560,
        ..spec.clone()
    };
    assert_ne!(spec.title_font_size(), wider.title_font_size());
    assert_ne!(spec.cache_key(), wider.cache_key());
}

#[test]
fn a_card_scales_with_its_canvas() {
    let small = cover_spec("project-1", "Episode", &[], 640, 360);
    let large = cover_spec("project-1", "Episode", &[], 3840, 2160);
    assert!(large.title_font_size() > small.title_font_size());
    assert!(large.accent_height() >= small.accent_height());
    // Two canvases are two different files, never one reused at the wrong size.
    assert_ne!(small.cache_key(), large.cache_key());
}

#[test]
fn a_card_is_addressed_by_everything_that_is_drawn() {
    let base = cover_spec("project-1", "Episode", &[member("a", "Mara")], 1920, 1080);
    assert_eq!(base.cache_key().len(), 64);
    let wider = cover_spec("project-1", "Episode", &[member("a", "Mara")], 1921, 1080);
    assert_ne!(base.cache_key(), wider.cache_key());
    let blank = cover_spec("project-1", "   ", &[], 1920, 1080);
    assert!(!blank.title.is_empty());
}

#[test]
fn type_stays_readable_on_every_canvas() {
    for (width, height) in [(1, 1), (64, 64), (320, 240), (1080, 1920), (3840, 2160), (u32::MAX, u32::MAX)] {
        let card = cover_spec("project-1", &"long title ".repeat(20), &[member("a", "Mara")], width, height);
        assert!(card.title.chars().count() <= MAX_COVER_TITLE_CHARS);
        assert!(card.title_font_size() > 0 && card.subtitle_font_size() > 0 && card.accent_height() > 0);
    }
}
