use labelprint::canvas::{Canvas, CoverageSample, Glyph, render_text};
use labelprint::mono::{reduce_to_mono, render_image, scaled_width};

#[test]
fn text_render_paints_covered_pixels_only() {
    let glyphs = vec![Glyph {
        origin_x: 10,
        origin_y: 60,
        samples: vec![
            // coverage above one half: paints.
            CoverageSample { dx: 0, dy: 0, coverage: 255 },
            // coverage below one half: leaves background untouched.
            CoverageSample { dx: 1, dy: 0, coverage: 100 },
            // out of canvas bounds: clipped silently.
            CoverageSample { dx: 5, dy: 100, coverage: 255 },
        ],
    }];
    let (canvas, used) = render_text(2000, 96, &glyphs);
    assert_eq!(canvas.get_pixel(10, 60), 0);
    assert_eq!(canvas.get_pixel(11, 60), 255);
    assert_eq!(used, 11);
}

#[test]
fn text_render_clips_negative_origins() {
    let glyphs = vec![Glyph {
        origin_x: -5,
        origin_y: -5,
        samples: vec![CoverageSample { dx: 0, dy: 0, coverage: 255 }],
    }];
    let (canvas, used) = render_text(2000, 96, &glyphs);
    assert_eq!(used, 1);
    for x in 0..16u32 {
        for y in 0..16u32 {
            assert_eq!(canvas.get_pixel(x, y), 255);
        }
    }
}

#[test]
fn text_render_without_ink_uses_width_one() {
    let glyphs: Vec<Glyph> = Vec::new();
    let (_, used) = render_text(2000, 96, &glyphs);
    assert_eq!(used, 1);
}

#[test]
fn text_render_used_width_tracks_rightmost_column() {
    let glyphs = vec![
        Glyph {
            origin_x: 40,
            origin_y: 10,
            samples: vec![CoverageSample { dx: 2, dy: 1, coverage: 200 }],
        },
        Glyph {
            origin_x: 7,
            origin_y: 20,
            samples: vec![CoverageSample { dx: 0, dy: 0, coverage: 129 }],
        },
    ];
    let (canvas, used) = render_text(2000, 96, &glyphs);
    assert_eq!(canvas.get_pixel(42, 11), 0);
    assert_eq!(canvas.get_pixel(7, 20), 0);
    assert_eq!(used, 43);
}

#[test]
fn scaled_width_rounds_to_nearest() {
    // 400x200 scaled to height 96: round(400 * 96 / 200) = 192.
    assert_eq!(scaled_width(400, 200, 96), 192);
    // 100x96 keeps its width.
    assert_eq!(scaled_width(100, 96, 96), 100);
    // round(10 * 96 / 70) = round(13.71...) = 14.
    assert_eq!(scaled_width(10, 70, 96), 14);
    // round(10 * 96 / 64) = round(15.0) = 15.
    assert_eq!(scaled_width(10, 64, 96), 15);
}

#[test]
fn image_render_uses_scaled_width() {
    // A 400x200 source scaled to the 2000x96 canvas: used width is 192.
    let src = vec![0u8; 400 * 200];
    let (canvas, used) = render_image(&src, 400, 200, 2000, 96);
    assert_eq!(used, 192);
    assert_eq!(canvas.width, 2000);
    assert_eq!(canvas.height, 96);
    // Columns at and beyond the scaled width stay background.
    for y in 0..96u32 {
        assert_eq!(canvas.get_pixel(192, y), 255);
        assert_eq!(canvas.get_pixel(1999, y), 255);
    }
    // Columns inside the scaled content are strictly two-level.
    for y in 0..96u32 {
        for x in 0..192u32 {
            let v = canvas.get_pixel(x, y);
            assert!(v == 0 || v == 255, "sample ({}, {}) is {}", x, y, v);
        }
    }
}

#[test]
fn mono_reduction_is_two_valued() {
    // A flat mid-gray source: the reduction must output only 0 and 255,
    // so no input sample can pass through unchanged.
    let src = vec![100u8; 4 * 2];
    let out = reduce_to_mono(&src, 4, 2, 4, 2);
    assert_eq!(out.len(), 8);
    for v in &out {
        assert!(*v == 0 || *v == 255);
    }
}

#[test]
fn mono_reduction_resizes() {
    let src = vec![100u8; 4 * 2];
    let out = reduce_to_mono(&src, 4, 2, 2, 1);
    assert_eq!(out.len(), 2);
}

#[test]
fn preview_replicates_channels() {
    let canvas = Canvas { width: 2, height: 1, data: vec![0u8, 255u8] };
    let rgba = canvas.to_rgba();
    assert_eq!(rgba, vec![0, 0, 0, 255, 255, 255, 255, 255]);
}
