use coverlay::multiply;
use coverlay::overlay::handlers::title_lines;
use coverlay::overlay::helpers::{
    calc_font_size, calc_text_width, less_than, longest_str, FontMetrics,
};
use coverlay::overlay::image::{draw_glyphs, BlendMode, GlyphSample, Image, PositionType};
use coverlay::overlay::layout::compute_layout;
use coverlay::overlay::CoverError;

fn test_metrics() -> FontMetrics {
    FontMetrics::new(
        vec![
            ('a', 1000),
            ('b', 1000),
            ('A', 2000),
            ('B', 2000),
            ('x', 500),
        ],
        800,
    )
}

fn blank_canvas(w: u32, h: u32, fill: u8) -> Image {
    Image {
        width: w,
        height: h,
        pixels: vec![fill; (4 * w * h) as usize],
        url: String::new(),
    }
}

#[test]
fn multiply_small_factors() {
    assert_eq!(multiply(6, 7), 42);
}

#[test]
fn blend_none_full_alpha_full_coverage_is_text_color() {
    let out = Image::blend_mode(BlendMode::Normal, (10, 20, 30), (255, 128, 0), 255, 255);
    assert_eq!(out, [255, 128, 0, 255]);
}

#[test]
fn blend_overlay_dark_destination_scenario() {
    let out = Image::blend_mode(BlendMode::Overlay, (10, 10, 10), (255, 255, 255), 255, 255);
    assert_eq!(out, [20, 20, 20, 255]);
}

#[test]
fn blend_zero_alpha_keeps_rgb_both_modes() {
    let out = Image::blend_mode(BlendMode::Normal, (11, 22, 33), (255, 255, 255), 0, 255);
    assert_eq!(&out[0..3], &[11, 22, 33]);
    assert_eq!(out[3], 255);
    let out = Image::blend_mode(BlendMode::Overlay, (11, 22, 33), (255, 255, 255), 0, 200);
    assert_eq!(&out[0..3], &[11, 22, 33]);
    assert_eq!(out[3], 255);
}

#[test]
fn blend_output_alpha_always_opaque() {
    for mode in [BlendMode::Normal, BlendMode::Overlay] {
        for alpha in [0u8, 1, 127, 255] {
            for v in [0u8, 64, 255] {
                let out = Image::blend_mode(mode, (200, 100, 50), (255, 255, 255), alpha, v);
                assert_eq!(out[3], 255);
            }
        }
    }
}

#[test]
fn blend_none_truncates_partial_weight() {
    // weight = 255 * 128 = 32640 of 65025
    // (100 * (65025 - 32640) + 200 * 32640) / 65025 = 150 (truncated)
    let out = Image::blend_mode(BlendMode::Normal, (100, 100, 100), (200, 200, 200), 255, 128);
    assert_eq!(out, [150, 150, 150, 255]);
}

#[test]
fn blend_overlay_bright_destination_uses_screen_branch() {
    // dest = 200 >= 128: ov = 255 - 2 * 55 * 155 / 255 = 255 - 66 = 189
    let out = Image::blend_mode(BlendMode::Overlay, (200, 200, 200), (100, 100, 100), 255, 255);
    assert_eq!(out, [189, 189, 189, 255]);
}

#[test]
fn text_width_truncates_to_pixels() {
    let fm = test_metrics();
    // unit advance of "ab" = 2000 milli; at scale 2.0 -> 4 px
    assert_eq!(calc_text_width("ab", &fm, 2_000_000), 4);
    // at scale 1.25 -> 2500 milli -> 2 px (truncated)
    assert_eq!(calc_text_width("ab", &fm, 1_250_000), 2);
    // characters without an entry advance by zero
    assert_eq!(calc_text_width("zz", &fm, 5_000_000), 0);
}

#[test]
fn autosize_then_measure_round_trips() {
    let fm = test_metrics();
    let scale = calc_font_size(100, "ab", &fm).unwrap();
    assert_eq!(scale, 50_000_000); // 100 px over 2 px at unit scale
    let measured = calc_text_width("ab", &fm, scale);
    assert!(99 <= measured && measured <= 100);
    assert_eq!(measured, 100);
}

#[test]
fn autosize_rejects_zero_advance_text() {
    let fm = test_metrics();
    assert_eq!(calc_font_size(100, "", &fm), Err(CoverError::DegenerateText));
    assert_eq!(calc_font_size(100, "zz", &fm), Err(CoverError::DegenerateText));
}

#[test]
fn less_than_counts_graphemes_not_chars() {
    // "e\u{301}" is two chars but one user-perceived character
    assert!(less_than(2, vec![String::from("e\u{301}")]));
    assert!(!less_than(1, vec![String::from("e\u{301}")]));
    assert!(!less_than(3, vec![String::from("abc"), String::from("defg")]));
    assert!(!less_than(5, vec![]));
}

#[test]
fn longest_str_picks_most_graphemes() {
    let list = vec![
        String::from("abc"),
        String::from("e\u{301}e\u{301}e\u{301}e\u{301}"),
    ];
    // four graphemes beat three, though both spell fewer bytes apart
    assert_eq!(longest_str(&list), "e\u{301}e\u{301}e\u{301}e\u{301}");
}

#[test]
fn longest_str_keeps_earliest_of_equals() {
    let list = vec![String::from("ab"), String::from("cd")];
    assert_eq!(longest_str(&list), "ab");
    assert_eq!(longest_str(&Vec::new()), "");
}

#[test]
fn bottom_sides_alternates_left_right() {
    let fm = test_metrics();
    let lines = vec![
        String::from("a"),
        String::from("b"),
        String::from("a"),
        String::from("b"),
    ];
    let placed = compute_layout(&lines, &fm, 500, 400, PositionType::BottomSides).unwrap();
    assert_eq!(placed.len(), 4);
    // drawn uppercased, fixed 56x scale
    for p in &placed {
        assert_eq!(p.scale_micro, 56_000_000);
    }
    assert_eq!(placed[0].text, "A");
    // 'A' at scale 56.0: 2000 milli * 56 = 112 px
    let width_milli = 112 * 1000;
    // the left anchor is half the 25 px padding: 12.5 px
    assert_eq!(placed[0].x_milli, 12_500);
    assert_eq!(placed[1].x_milli, 500_000 - 12_500 - width_milli);
    assert_eq!(placed[2].x_milli, 12_500);
    assert_eq!(placed[3].x_milli, 500_000 - 12_500 - width_milli);
    // stacking climbs from the bottom: ascent step 800 milli * 56 = 44800;
    // the halved padding starts at 12.5 px and grows 17.5 px per line
    assert_eq!(placed[0].y_milli, 400_000 - 12_500);
    assert_eq!(placed[1].y_milli, 400_000 - 44_800 - 30_000);
    assert_eq!(placed[2].y_milli, 400_000 - 89_600 - 47_500);
    assert_eq!(placed[3].y_milli, 400_000 - 134_400 - 65_000);
    assert!(placed[1].y_milli < placed[0].y_milli);
    assert!(placed[2].y_milli < placed[1].y_milli);
    assert!(placed[3].y_milli < placed[2].y_milli);
}

#[test]
fn top_center_keeps_case_and_centers() {
    let fm = test_metrics();
    let lines = vec![String::from("ab"), String::from("a")];
    let placed = compute_layout(&lines, &fm, 300, 200, PositionType::TopCenter).unwrap();
    assert_eq!(placed.len(), 2);
    assert_eq!(placed[0].text, "ab");
    assert_eq!(placed[0].scale_micro, 24_000_000);
    // "ab" at 24x: 2000 milli * 24 = 48 px; x = 150_000 - 24_000
    assert_eq!(placed[0].x_milli, 300 * 500 - 48 * 500);
    // stacking grows downward from the top, first anchor at 20 + 12.5 px
    assert_eq!(placed[0].y_milli, 20_000 + 12_500);
    // step = 800 milli * 24 = 19200; pad half grows by 17_500
    assert_eq!(placed[1].y_milli, 20_000 + 19_200 + 30_000);
    assert!(placed[1].y_milli > placed[0].y_milli);
}

#[test]
fn bottom_left_shares_scale_of_longest_line() {
    let fm = test_metrics();
    let lines = vec![String::from("a"), String::from("ab")];
    let placed = compute_layout(&lines, &fm, 250, 300, PositionType::BottomLeft).unwrap();
    // longest raw line "ab" is 2 px at unit scale; target 250 - 25 = 225 px
    assert_eq!(placed[0].scale_micro, 112_500_000);
    assert_eq!(placed[1].scale_micro, 112_500_000);
    assert_eq!(placed[0].text, "A");
    assert_eq!(placed[1].text, "AB");
    assert_eq!(placed[0].x_milli, 12_500);
    assert_eq!(placed[1].x_milli, 12_500);
    // step = 800 milli * 112.5 = 90000
    assert_eq!(placed[0].y_milli, 300_000 - 12_500);
    assert_eq!(placed[1].y_milli, 300_000 - 90_000 - 30_000);
}

#[test]
fn bottom_center_centers_uppercased_width() {
    let fm = test_metrics();
    let lines = vec![String::from("ab")];
    let placed = compute_layout(&lines, &fm, 250, 300, PositionType::BottomCenter).unwrap();
    // shared scale from "ab": 112.5x; drawn "AB" is 4 px * 112.5 = 450 px
    assert_eq!(placed[0].scale_micro, 112_500_000);
    assert_eq!(placed[0].x_milli, 250 * 500 - 450 * 500);
}

#[test]
fn bottom_stretch_autosizes_each_line() {
    let fm = test_metrics();
    let lines = vec![String::from("A"), String::from("AB")];
    let placed = compute_layout(&lines, &fm, 250, 300, PositionType::BottomStretch).unwrap();
    // line widths at unit scale: 2 px and 4 px; target 250 - 25 = 225 px
    assert_eq!(placed[0].scale_micro, 112_500_000);
    assert_eq!(placed[1].scale_micro, 56_250_000);
    assert_eq!(placed[0].x_milli, 12_500);
    assert_eq!(placed[1].x_milli, 12_500);
}

#[test]
fn layout_rejects_degenerate_autosize_input() {
    let fm = test_metrics();
    let lines = vec![String::from("zz")];
    assert!(matches!(
        compute_layout(&lines, &fm, 250, 300, PositionType::BottomLeft),
        Err(CoverError::DegenerateText)
    ));
    let lines = vec![String::from("a"), String::from("")];
    assert!(matches!(
        compute_layout(&lines, &fm, 250, 300, PositionType::BottomStretch),
        Err(CoverError::DegenerateText)
    ));
    // fixed-scale strategies never autosize, so nothing is rejected
    let lines = vec![String::from("")];
    assert!(compute_layout(&lines, &fm, 250, 300, PositionType::BottomSides).is_ok());
}

#[test]
fn layout_of_empty_block_is_empty() {
    let fm = test_metrics();
    let placed = compute_layout(&Vec::new(), &fm, 250, 300, PositionType::BottomLeft).unwrap();
    assert!(placed.is_empty());
}

#[test]
fn successive_blocks_share_one_mutated_canvas() {
    // drawing the same overlay sample twice double-blends by design
    let canvas = blank_canvas(2, 2, 10);
    let s = GlyphSample { x: 0, y: 0, coverage: 255 };
    let canvas = draw_glyphs(
        vec![s],
        255,
        (255, 255, 255),
        (0, 0),
        BlendMode::Overlay,
        canvas,
    );
    assert_eq!(&canvas.pixels[0..4], &[20, 20, 20, 255]);
    let canvas = draw_glyphs(
        vec![s],
        255,
        (255, 255, 255),
        (0, 0),
        BlendMode::Overlay,
        canvas,
    );
    // the second pass blends over the already-modified pixel: 2*20*255/255
    assert_eq!(&canvas.pixels[0..4], &[40, 40, 40, 255]);
}

#[test]
fn draw_clips_samples_outside_canvas() {
    let canvas = blank_canvas(2, 2, 7);
    let before = canvas.pixels.clone();
    let samples = vec![
        GlyphSample { x: -1, y: 0, coverage: 255 },
        GlyphSample { x: 5, y: 5, coverage: 255 },
        GlyphSample { x: 0, y: 2, coverage: 255 },
    ];
    let canvas = draw_glyphs(samples, 255, (255, 255, 255), (0, 0), BlendMode::Normal, canvas);
    assert_eq!(canvas.width, 2);
    assert_eq!(canvas.height, 2);
    assert_eq!(canvas.pixels, before);
}

#[test]
fn draw_applies_offset_and_touches_one_pixel() {
    let canvas = blank_canvas(2, 2, 0);
    let samples = vec![GlyphSample { x: 0, y: 0, coverage: 255 }];
    let canvas = draw_glyphs(samples, 255, (9, 8, 7), (1, 1), BlendMode::Normal, canvas);
    // pixel (1, 1) is byte 4 * (1 * 2 + 1) = 12
    assert_eq!(&canvas.pixels[12..16], &[9, 8, 7, 255]);
    assert_eq!(&canvas.pixels[0..4], &[0, 0, 0, 0]);
}

#[test]
fn draw_with_zero_alpha_keeps_rgb() {
    let canvas = blank_canvas(1, 1, 33);
    let samples = vec![GlyphSample { x: 0, y: 0, coverage: 255 }];
    let canvas = draw_glyphs(samples, 0, (255, 255, 255), (0, 0), BlendMode::Normal, canvas);
    assert_eq!(&canvas.pixels[0..3], &[33, 33, 33]);
    assert_eq!(canvas.pixels[3], 255);
}

#[test]
fn from_bytes_decodes_png() {
    let raw: Vec<u8> = vec![
        1, 2, 3, 255, 4, 5, 6, 255, 7, 8, 9, 255, 10, 11, 12, 255,
    ];
    let img = image::RgbaImage::from_raw(2, 2, raw.clone()).unwrap();
    let mut buf: Vec<u8> = Vec::new();
    image::DynamicImage::ImageRgba8(img)
        .write_to(&mut std::io::Cursor::new(&mut buf), image::ImageFormat::Png)
        .unwrap();
    let canvas = Image::from_bytes(buf).unwrap();
    assert_eq!(canvas.width, 2);
    assert_eq!(canvas.height, 2);
    assert_eq!(canvas.pixels, raw);
    assert_eq!(canvas.url, "");
}

#[test]
fn from_bytes_rejects_malformed_input() {
    assert!(matches!(
        Image::from_bytes(vec![1, 2, 3]),
        Err(CoverError::DecodeError)
    ));
}

#[test]
fn title_lines_wraps_and_reverses() {
    let lines = title_lines("hello world", 5);
    assert_eq!(lines, vec![String::from("world"), String::from("hello")]);
    let lines = title_lines("one two three", 9);
    assert_eq!(lines, vec![String::from("three"), String::from("one two")]);
}

#[test]
fn bottom_stretch_stacks_upward_with_varying_scales() {
    let fm = test_metrics();
    let lines = vec![String::from("A"), String::from("AB")];
    let placed = compute_layout(&lines, &fm, 250, 300, PositionType::BottomStretch).unwrap();
    // first line: scale 112.5x, ascent step 800 milli * 112.5 = 90000
    assert_eq!(placed[0].y_milli, 300_000 - 12_500);
    assert_eq!(placed[1].y_milli, 300_000 - 90_000 - 30_000);
    assert!(placed[1].y_milli < placed[0].y_milli);
}

#[test]
fn top_center_of_empty_block_is_empty() {
    let fm = test_metrics();
    let placed = compute_layout(&Vec::new(), &fm, 250, 300, PositionType::TopCenter).unwrap();
    assert!(placed.is_empty());
}

#[test]
fn draw_offset_can_push_samples_off_canvas() {
    let canvas = blank_canvas(2, 2, 5);
    let before = canvas.pixels.clone();
    let samples = vec![GlyphSample { x: 1, y: 1, coverage: 255 }];
    let canvas = draw_glyphs(samples, 255, (255, 255, 255), (1, 1), BlendMode::Normal, canvas);
    assert_eq!(canvas.pixels, before);
}

#[test]
fn blend_channels_are_independent() {
    let out = Image::blend_mode(BlendMode::Normal, (0, 128, 255), (255, 255, 255), 255, 255);
    assert_eq!(out, [255, 255, 255, 255]);
    let out = Image::blend_mode(BlendMode::Overlay, (0, 127, 200), (100, 100, 100), 255, 255);
    // 2*0*100/255 = 0; 2*127*100/255 = 99; 255 - 2*55*155/255 = 189
    assert_eq!(out, [0, 99, 189, 255]);
}

#[test]
fn empty_autosized_block_allows_any_canvas_width() {
    let fm = test_metrics();
    // no line is measured, so nothing constrains the canvas width
    let placed = compute_layout(&Vec::new(), &fm, 10, 10, PositionType::BottomLeft).unwrap();
    assert!(placed.is_empty());
    let placed = compute_layout(&Vec::new(), &fm, 10, 10, PositionType::BottomCenter).unwrap();
    assert!(placed.is_empty());
}

#[test]
fn from_bytes_keeps_decoded_dimensions_and_bytes() {
    let raw: Vec<u8> = (0u8..48).collect();
    let img = image::RgbaImage::from_raw(4, 3, raw.clone()).unwrap();
    let mut buf: Vec<u8> = Vec::new();
    image::DynamicImage::ImageRgba8(img)
        .write_to(&mut std::io::Cursor::new(&mut buf), image::ImageFormat::Png)
        .unwrap();
    let canvas = Image::from_bytes(buf).unwrap();
    assert_eq!((canvas.width, canvas.height), (4, 3));
    assert_eq!(canvas.pixels, raw);
}
