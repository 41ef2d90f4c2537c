use boot_console::graphical::{
    corners_size, encode_pixel, init_framebuffer, set_pixel, Console, Framebuffer, PixelFormat,
};
use boot_console::logger::Color;

fn make_fb(width: usize, height: usize, stride: usize, bpp: usize, format: PixelFormat) -> Framebuffer {
    Framebuffer {
        width,
        height,
        stride,
        bytes_per_pixel: bpp,
        format,
        buffer: vec![0u8; stride * height * bpp],
    }
}

fn pixel_bytes(c: &Console, x: usize, y: usize) -> Vec<u8> {
    let fb = &c.framebuffer;
    let start = (y * fb.stride + x) * fb.bytes_per_pixel;
    fb.buffer[start..start + fb.bytes_per_pixel].to_vec()
}

const COLORS: [Color; 5] = [Color::White, Color::Red, Color::Green, Color::Blue, Color::Yellow];

fn triple(c: Color) -> (u8, u8, u8) {
    (c.r(), c.g(), c.b())
}

#[test]
fn encoded_length_matches_bytes_per_pixel() {
    for &c in COLORS.iter() {
        for bpp in 1..=4 {
            assert_eq!(encode_pixel(c, 200, PixelFormat::Rgb, bpp).len(), bpp);
            assert_eq!(encode_pixel(c, 200, PixelFormat::Bgr, bpp).len(), bpp);
            assert_eq!(encode_pixel(c, 200, PixelFormat::U8, bpp).len(), bpp);
        }
    }
}

#[test]
fn full_intensity_recovers_channel_triple() {
    for &c in COLORS.iter() {
        let (r, g, b) = triple(c);
        assert_eq!(encode_pixel(c, 255, PixelFormat::Rgb, 4), vec![r, g, b, 0]);
        assert_eq!(encode_pixel(c, 255, PixelFormat::Bgr, 4), vec![b, g, r, 0]);
        assert_eq!(encode_pixel(c, 255, PixelFormat::U8, 1), vec![c.greyscale()]);
    }
}

#[test]
fn zero_intensity_is_all_zero() {
    for &c in COLORS.iter() {
        assert_eq!(encode_pixel(c, 0, PixelFormat::Rgb, 4), vec![0, 0, 0, 0]);
        assert_eq!(encode_pixel(c, 0, PixelFormat::Bgr, 4), vec![0, 0, 0, 0]);
        assert_eq!(encode_pixel(c, 0, PixelFormat::U8, 1), vec![0]);
    }
}

#[test]
fn unknown_format_falls_back_to_rgb() {
    for &c in COLORS.iter() {
        assert_eq!(
            encode_pixel(c, 255, PixelFormat::Unknown, 4),
            encode_pixel(c, 255, PixelFormat::Rgb, 4)
        );
    }
}

#[test]
fn intensity_scales_toward_zero() {
    // 0xff * 128 / 255 == 128 exactly with integer math rounding down.
    assert_eq!(encode_pixel(Color::Red, 128, PixelFormat::Rgb, 3), vec![128, 0, 0]);
    // 0xc0 * 100 / 255 == 75 (rounded toward zero from 75.29).
    assert_eq!(encode_pixel(Color::White, 100, PixelFormat::U8, 1), vec![75]);
}

#[test]
fn set_pixel_writes_only_its_pixel() {
    let mut fb = make_fb(10, 5, 12, 4, PixelFormat::Bgr);
    set_pixel(&mut fb, 3, 2, Color::Yellow, 255);
    let start = (2 * 12 + 3) * 4;
    for (i, &b) in fb.buffer.iter().enumerate() {
        if i >= start && i < start + 4 {
            let expected = [0u8, 255, 255, 0][i - start];
            assert_eq!(b, expected);
        } else {
            assert_eq!(b, 0);
        }
    }
}

#[test]
fn init_draws_corner_squares() {
    let (w, h) = (50, 40);
    let c = init_framebuffer(Some(make_fb(w, h, 55, 4, PixelFormat::Rgb)));
    assert!(c.present);
    assert_eq!(pixel_bytes(&c, 0, 0), vec![255, 0, 0, 0]);
    assert_eq!(pixel_bytes(&c, w - 1, 0), vec![0, 255, 0, 0]);
    assert_eq!(pixel_bytes(&c, 0, h - 1), vec![0, 0, 255, 0]);
    assert_eq!(pixel_bytes(&c, w - 1, h - 1), vec![255, 255, 0, 0]);
    // The squares are solid: an interior pixel of each square too.
    let s = 40 / 5;
    assert_eq!(pixel_bytes(&c, s - 1, s - 1), vec![255, 0, 0, 0]);
    assert_eq!(pixel_bytes(&c, w - s, s - 1), vec![0, 255, 0, 0]);
    // Just inside the squares' neighborhood but outside them: untouched zero.
    assert_eq!(pixel_bytes(&c, s, s), vec![0, 0, 0, 0]);
}

#[test]
fn init_corner_squares_in_bgr_and_grayscale() {
    let c = init_framebuffer(Some(make_fb(50, 40, 50, 3, PixelFormat::Bgr)));
    assert_eq!(pixel_bytes(&c, 0, 0), vec![0, 0, 255]);
    let c = init_framebuffer(Some(make_fb(50, 40, 50, 1, PixelFormat::U8)));
    assert_eq!(pixel_bytes(&c, 0, 0), vec![0xc0]);
}

#[test]
fn init_without_framebuffer_is_noop_sink() {
    let mut c = init_framebuffer(None);
    assert!(!c.present);
    assert_eq!(c.framebuffer.buffer.len(), 0);
    c.write("hello", Color::White);
    assert_eq!(c.framebuffer.buffer.len(), 0);
    assert_eq!(c.line_y, 0);
}

#[test]
fn corners_size_is_fifth_of_smaller_dimension() {
    let fb = make_fb(100, 60, 100, 1, PixelFormat::U8);
    assert_eq!(corners_size(&fb), 12);
    let fb = make_fb(30, 200, 30, 1, PixelFormat::U8);
    assert_eq!(corners_size(&fb), 6);
}

#[test]
fn write_never_touches_bytes_outside_content_rectangle() {
    let (w, h, stride, bpp) = (100usize, 60usize, 104usize, 4usize);
    let mut c = init_framebuffer(Some(make_fb(w, h, stride, bpp, PixelFormat::Rgb)));
    let snapshot = c.framebuffer.buffer.clone();
    let cs = 60 / 5;
    let (left, right) = (cs + 10, w - cs - 10 - 1);
    let (top, bottom) = (10, h - 10 - 1);
    let messages = [
        "The quick brown fox jumps over the lazy dog 0123456789 !?#",
        "",
        "\u{3bb}\u{4e16}\u{754c} mixed with ascii",
        "a very very very very very very very very very long line indeed",
    ];
    for m in 0..40 {
        c.write(messages[m % messages.len()], COLORS[m % COLORS.len()]);
    }
    for i in 0..c.framebuffer.buffer.len() {
        let p = i / bpp;
        let (x, y) = (p % stride, p / stride);
        let inside = x >= left && x <= right && y >= top && y <= bottom;
        if !inside {
            assert_eq!(c.framebuffer.buffer[i], snapshot[i], "byte {} at ({}, {})", i, x, y);
        }
    }
}

#[test]
fn write_renders_visible_glyph_pixels() {
    let mut c = init_framebuffer(Some(make_fb(100, 60, 100, 4, PixelFormat::Rgb)));
    let snapshot = c.framebuffer.buffer.clone();
    c.write("A", Color::White);
    assert_ne!(c.framebuffer.buffer, snapshot);
}

#[test]
fn write_advances_line_cursor() {
    let mut c = init_framebuffer(Some(make_fb(100, 60, 100, 4, PixelFormat::Rgb)));
    assert_eq!(c.line_y, 0);
    c.write("one", Color::White);
    assert_eq!(c.line_y, 14);
    c.write("two", Color::White);
    assert_eq!(c.line_y, 28);
}

#[test]
fn rendered_glyph_matches_font_bitmap() {
    // 100x60 geometry: corner squares of 12, so the pen starts at
    // x = 22 and the first line's glyph tops sit at y = 10; the whole
    // 8x14 glyph box lies inside the content rectangle.
    let mut c = init_framebuffer(Some(make_fb(100, 60, 104, 4, PixelFormat::Rgb)));
    c.write("A", Color::White);
    let bitmap = noto_sans_mono_bitmap::get_bitmap(
        'A',
        noto_sans_mono_bitmap::FontWeight::Regular,
        noto_sans_mono_bitmap::BitmapHeight::Size14,
    )
    .unwrap();
    let rows = bitmap.bitmap();
    assert_eq!(rows.len(), 14);
    for (r, row) in rows.iter().enumerate() {
        assert_eq!(row.len(), 8);
        for (col, &intensity) in row.iter().enumerate() {
            let scaled = (0xc0 as u16 * intensity as u16 / 255) as u8;
            assert_eq!(
                pixel_bytes(&c, 22 + col, 10 + r),
                vec![scaled, scaled, scaled, 0],
                "glyph pixel ({}, {})",
                col,
                r
            );
        }
    }
}

#[test]
fn unsupported_character_renders_placeholder_glyph() {
    let mut with_gap = init_framebuffer(Some(make_fb(100, 60, 104, 4, PixelFormat::Rgb)));
    // U+FFFD is outside the font's range and falls back to '?'.
    with_gap.write("\u{fffd}", Color::White);
    let mut question = init_framebuffer(Some(make_fb(100, 60, 104, 4, PixelFormat::Rgb)));
    question.write("?", Color::White);
    assert_eq!(with_gap.framebuffer.buffer, question.framebuffer.buffer);
}

#[test]
fn overlong_message_truncates_at_boundary_column() {
    let geometry = make_fb(100, 60, 100, 4, PixelFormat::Rgb);
    let mut long = init_framebuffer(Some(geometry));
    // Pen starts at 22 and advances 8 per glyph while the pen is left
    // of column width - 14, so exactly 8 glyphs of this line land.
    long.write("AAAAAAAAAAAAAAAAAAAAAAAAAAAAAAAA", Color::White);
    let mut short = init_framebuffer(Some(make_fb(100, 60, 100, 4, PixelFormat::Rgb)));
    short.write("AAAAAAAA", Color::White);
    assert_eq!(long.framebuffer.buffer, short.framebuffer.buffer);
}
