//! Numbers, clocks and notations, held against the arithmetic and the formatting of the machine.

use soundar_video::decimals::{fixed_text, scale};
use soundar_video::doubles::{double_of, lies_above, multiply, not_below_zero, signed_double_of};
use soundar_video::filters::{atempo_filters, normalized_crop_filter, write_tenths, write_thousandths};
use soundar_video::manifest::NormalizedRect;
use soundar_video::notation::{ass_dialogue, ass_time, escape, ffmpeg_time, Place};
use soundar_video::time::{gcd_u32, Microseconds, RationalFrameRate, RationalRate, TimeRange};
use soundar_video::timeline::quantize_range_outward;
use soundar_video::words::{fit_bytes, normalized_text, split_words};

/// Numbers that spread over every size, from a simple generator.
fn spread(count: usize) -> Vec<u64> {
    let mut state: u64 = 0x9e37_79b9_7f4a_7c15;
    let mut numbers = Vec::new();
    while numbers.len() < count {
        state ^= state << 13;
        state ^= state >> 7;
        state ^= state << 17;
        numbers.push(state >> (numbers.len() % 64));
    }
    numbers
}

#[test]
fn a_whole_number_becomes_the_double_that_the_machine_makes_of_it() {
    for value in spread(4_000).into_iter().chain([0, 1, 2, 9_007_199_254_740_993, u64::MAX]) {
        assert_eq!(double_of(value), (value as f64).to_bits(), "{value}");
        let signed = value as i64;
        assert_eq!(signed_double_of(signed), (signed as f64).to_bits(), "{signed}");
    }
    assert_eq!(signed_double_of(i64::MIN), (i64::MIN as f64).to_bits());
}

#[test]
fn seconds_are_multiplied_and_rounded_as_doubles_are() {
    let mut seconds = vec![0.0, -0.0, 0.1, 1.4, 5.4, 11.5, 0.000_000_5, 0.000_000_499_999, 9_223_372_036_854.775, 1e300];
    for value in spread(4_000) {
        seconds.push(value as f64 / 1_000_003.0);
        seconds.push(f64::from_bits(value % 0x7ff0_0000_0000_0000));
    }
    for value in seconds {
        for factor in [1_000u32, 1_000_000] {
            let rounded = (value * f64::from(factor)).round();
            let expected = if rounded.is_finite() && rounded <= i64::MAX as f64 {
                Some(rounded as u64)
            } else {
                None
            };
            assert_eq!(multiply(value.to_bits(), factor), expected, "{value:e} times {factor}");
        }
    }
}

#[test]
fn doubles_are_compared_by_their_bits() {
    for (value, expected) in [
        (0.0, true),
        (-0.0, true),
        (1.5, true),
        (-1.5, false),
        (f64::INFINITY, false),
        (f64::NAN, false),
        (5e-324, true),
        (-5e-324, false),
    ] {
        assert_eq!(not_below_zero(f64::to_bits(value)), expected, "{value}");
    }
    for (low, high) in [(0.0, 5e-324), (-0.0, 1.0), (1.0, 1.0000000000000002), (2.5, 1e300)] {
        assert!(lies_above(f64::to_bits(high), f64::to_bits(low)));
        assert!(!lies_above(f64::to_bits(low), f64::to_bits(high)));
        assert!(!lies_above(f64::to_bits(low), f64::to_bits(low)));
    }
    assert!(!lies_above(f64::INFINITY.to_bits(), 1.0f64.to_bits()));
    assert!(!lies_above(0.0f64.to_bits(), (-0.0f64).to_bits()));
}

#[test]
fn fractions_read_as_formatted_doubles_do() {
    for value in spread(3_000) {
        let number = value % 4_000_000_000;
        assert_eq!(fixed_text(number, 1_000, 1_000, 3), format!("{:.3}", number as f64 / 1_000.0));
        assert_eq!(fixed_text(number, 1_000_000, 10, 1), format!("{:.1}", number as f64 / 1_000_000.0));
        let below = value % 4_294_967_295 + 1;
        assert_eq!(fixed_text(number, below, 1_000_000_000, 9), format!("{:.9}", number as f64 / below as f64));
    }
    // Halves go to the even digit, and a double just below a half goes down.
    assert_eq!(fixed_text(250_000, 1_000_000, 10, 1), "0.2");
    assert_eq!(fixed_text(750_000, 1_000_000, 10, 1), "0.8");
    assert_eq!(fixed_text(1_050_000, 1_000_000, 10, 1), "1.1");
    assert_eq!(fixed_text(1_150_000, 1_000_000, 10, 1), "1.1");
}

#[test]
fn sizes_are_scaled_as_doubles_are() {
    for height in (0..2_200).chain([4_096, 8_192, 16_384]) {
        for thousandths in [32u32, 36, 44, 52, 65, 90, 105, 120] {
            let expected = (f64::from(height) * (f64::from(thousandths) / 1_000.0)).round() as u64;
            assert_eq!(scale(height, thousandths), expected, "{height} by {thousandths}");
        }
    }
}

#[test]
fn instants_read_in_seconds_with_six_decimals() {
    assert_eq!(ffmpeg_time(Microseconds(0)), "0.000000");
    assert_eq!(ffmpeg_time(Microseconds(1_500_000)), "1.500000");
    assert_eq!(ffmpeg_time(Microseconds(61_000_007)), "61.000007");
    for value in [0i64, 1, 999_999, 1_000_000, -1, -1_500_000, -2_000_000, i64::MAX, i64::MIN] {
        assert_eq!(ffmpeg_time(Microseconds(value)), format!("{}.{:06}", value / 1_000_000, value % 1_000_000));
    }
}

#[test]
fn instants_read_as_a_subtitle_clock() {
    assert_eq!(ass_time(Microseconds(0)), "0:00:00.00");
    assert_eq!(ass_time(Microseconds(-5)), "0:00:00.00");
    assert_eq!(ass_time(Microseconds(1_239_999)), "0:00:01.23");
    assert_eq!(ass_time(Microseconds(3_661_500_000)), "1:01:01.50");
    assert_eq!(
        ass_dialogue(1, Microseconds(0), Microseconds(2_000_000), "Speaker", "Ada, Countess", "Hi"),
        "Dialogue: 1,0:00:00.00,0:00:02.00,Speaker,Ada  Countess,0,0,0,,Hi\n"
    );
}

#[test]
fn escaped_text_can_neither_end_its_line_nor_open_an_override() {
    let hostile = "a\\b{\\pos(1,2)}\r\nc";
    assert_eq!(escape(Place::Subtitle, hostile), "a\\\\b\\{\\\\pos(1,2)\\}\\N\\Nc");
    assert_eq!(escape(Place::SubtitleField, hostile), "a\\\\b\\{\\\\pos(1 2)\\}\\N\\Nc");
    assert_eq!(escape(Place::FilterPath, "/tmp/it's [a]:b\\c"), "/tmp/it\\'s \\[a\\]\\:b\\\\c");
    for text in [escape(Place::Subtitle, hostile), escape(Place::SubtitleField, hostile)] {
        assert!(!text.contains('\n') && !text.contains('\r'));
        let chars: Vec<char> = text.chars().collect();
        for (index, c) in chars.iter().enumerate() {
            assert!(!matches!(c, '{' | '}') || chars[index - 1] == '\\');
        }
    }
    assert!(!escape(Place::SubtitleField, hostile).contains(','));
}

#[test]
fn gains_and_crops_read_as_filters_write_them() {
    for value in [0i32, 1, -1, 499, 500, -6_000, -3_000, 12_345, -12_345, 24_000, -96_000] {
        assert_eq!(write_thousandths(value), format!("{:.3}", f64::from(value) / 1_000.0));
        assert_eq!(write_tenths(value), format!("{:.1}", f64::from(value) / 1_000.0));
    }
    let crop = NormalizedRect { x_bp: 2_500, y_bp: 0, width_bp: 5_000, height_bp: 10_000 };
    assert_eq!(
        normalized_crop_filter(crop),
        "crop=w='max(2\\,trunc(iw*5000/20000)*2)':h='max(2\\,trunc(ih*10000/20000)*2)':x='trunc(iw*2500/10000/2)*2':y='trunc(ih*0/10000/2)*2'"
    );
}

/// The same filters from the arithmetic of doubles.
fn tempo_by_doubles(rate: RationalRate) -> String {
    let mut remaining = f64::from(rate.numerator) / f64::from(rate.denominator);
    let mut filters = Vec::new();
    while remaining > 2.0 {
        filters.push("atempo=2.0".to_string());
        remaining /= 2.0;
    }
    while remaining < 0.5 {
        filters.push("atempo=0.5".to_string());
        remaining /= 0.5;
    }
    if (remaining - 1.0).abs() > f64::EPSILON || filters.is_empty() {
        filters.push(format!("atempo={remaining:.8}"));
    }
    filters.join(",")
}

#[test]
fn tempo_changes_stay_within_what_one_filter_can_do() {
    assert_eq!(atempo_filters(RationalRate { numerator: 1, denominator: 1 }), "atempo=1.00000000");
    assert_eq!(atempo_filters(RationalRate { numerator: 2, denominator: 1 }), "atempo=2.00000000");
    assert_eq!(atempo_filters(RationalRate { numerator: 4, denominator: 1 }), "atempo=2.0,atempo=2.00000000");
    assert_eq!(atempo_filters(RationalRate { numerator: 1, denominator: 4 }), "atempo=0.5,atempo=0.50000000");
    for value in spread(2_000) {
        let rate = RationalRate { numerator: (value >> 32) as u32 + 1, denominator: (value as u32).max(1) };
        assert_eq!(atempo_filters(rate), tempo_by_doubles(rate), "{}/{}", rate.numerator, rate.denominator);
    }
    for (numerator, denominator) in [(3, 2), (2, 3), (1, 3), (7, 5), (1_000, 999)] {
        let rate = RationalRate { numerator, denominator };
        assert_eq!(atempo_filters(rate), tempo_by_doubles(rate));
    }
}

#[test]
fn a_range_is_widened_to_the_frames_it_touches() {
    let range = TimeRange::new(10_000, 50_000).unwrap();
    let wide = quantize_range_outward(range, RationalFrameRate::fps_30()).unwrap();
    assert_eq!(wide, TimeRange::new(0, 66_667).unwrap());
    assert!(wide.contains_range(range));
    let whole = TimeRange::new(1_000_000, 3_000_000).unwrap();
    assert_eq!(quantize_range_outward(whole, RationalFrameRate::fps_24()).unwrap(), whole);
}

#[test]
fn adjacent_ranges_share_no_sample() {
    let first = TimeRange::new(0, 1_000).unwrap();
    let second = TimeRange::new(1_000, 2_000).unwrap();
    for instant in [0, 500, 999, 1_000, 1_001, 1_999] {
        let instant = Microseconds(instant);
        assert!(first.contains(instant) != second.contains(instant));
    }
    assert!(first.contains_endpoint(Microseconds(1_000)) && second.contains_endpoint(Microseconds(1_000)));
}

#[test]
fn the_greatest_common_divisor_divides_both() {
    for (left, right, expected) in [(0, 0, 0), (0, 7, 7), (30_000, 1_001, 1), (24, 36, 12), (u32::MAX, 5, 5)] {
        assert_eq!(gcd_u32(left, right), expected);
    }
}

#[test]
fn words_are_parted_at_every_kind_of_whitespace() {
    let spaces: Vec<char> = (0..=char::MAX as u32).filter_map(char::from_u32).filter(|c| c.is_whitespace()).collect();
    for space in spaces {
        let text = format!("{space}one{space}{space}two{space}");
        assert_eq!(split_words(&text), vec!["one".to_string(), "two".to_string()], "{:x}", space as u32);
        assert_eq!(normalized_text(&text), "one two");
    }
    assert_eq!(normalized_text("one\u{200b}two"), "one\u{200b}two");
}

#[test]
fn a_shortened_text_ends_at_a_whole_character() {
    assert_eq!(fit_bytes("h\u{e9}llo", 2), "h");
    assert_eq!(fit_bytes("h\u{e9}llo", 3), "h\u{e9}");
    assert_eq!(fit_bytes("hello", 9), "hello");
}
