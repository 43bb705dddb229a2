use phantasm::canvas::{blend_channel, glyph_arith_fits, lines_fit_check, text_arith_fits, PixelCanvas, TinyRng};

fn px(c: &PixelCanvas, x: usize, y: usize) -> [u8; 4] {
    let i = (y * c.w + x) * 4;
    [c.buf[i], c.buf[i + 1], c.buf[i + 2], c.buf[i + 3]]
}

fn float_blend(d: u8, s: u8, a: u8) -> u8 {
    let a = a as f32 / 255.0;
    (s as f32 * a + d as f32 * (1.0 - a)).round() as u8
}

fn float_range(v: u32, n: usize) -> usize {
    let f = v as f32 / u32::MAX as f32;
    (f * n as f32) as usize % n
}

fn xorshift(mut x: u32) -> u32 {
    x ^= x << 13;
    x ^= x >> 17;
    x ^= x << 5;
    x
}

#[test]
fn new_canvas_is_transparent_black() {
    let c = PixelCanvas::new(3, 2);
    assert_eq!(c.w, 3);
    assert_eq!(c.h, 2);
    assert_eq!(c.buf.len(), 24);
    assert!(c.buf.iter().all(|&b| b == 0));
    assert_eq!(c.into_buf().len(), 24);
}

#[test]
fn fill_paints_every_pixel_exactly() {
    let mut c = PixelCanvas::new(4, 3);
    c.fill([1, 2, 3, 4]);
    for y in 0..3 {
        for x in 0..4 {
            assert_eq!(px(&c, x, y), [1, 2, 3, 4]);
        }
    }
}

#[test]
fn set_opaque_replaces_and_ignores_outside() {
    let mut c = PixelCanvas::new(4, 4);
    c.set(2, 1, [10, 20, 30, 255]);
    assert_eq!(px(&c, 2, 1), [10, 20, 30, 255]);
    let before = c.buf.clone();
    c.set(-1, 0, [9, 9, 9, 255]);
    c.set(4, 0, [9, 9, 9, 255]);
    c.set(0, 4, [9, 9, 9, 255]);
    c.set(0, -7, [9, 9, 9, 255]);
    assert_eq!(c.buf, before);
}

#[test]
fn set_translucent_blends_colour_keeps_alpha() {
    let mut c = PixelCanvas::new(2, 2);
    c.fill([200, 100, 0, 77]);
    c.set(1, 1, [0, 0, 0, 60]);
    assert_eq!(px(&c, 1, 1), [float_blend(200, 0, 60), float_blend(100, 0, 60), 0, 77]);
    assert_eq!(px(&c, 1, 1), [153, 76, 0, 77]);
    assert_eq!(px(&c, 0, 0), [200, 100, 0, 77]);
}

#[test]
fn blend_matches_float_formula_everywhere() {
    for a in 0..255u32 {
        for s in 0..256u32 {
            for d in 0..256u32 {
                let (a, s, d) = (a as u8, s as u8, d as u8);
                assert_eq!(blend_channel(d, s, a), float_blend(d, s, a), "d={} s={} a={}", d, s, a);
            }
        }
    }
}

#[test]
fn blend_extremes() {
    assert_eq!(blend_channel(17, 200, 0), 17);
    assert_eq!(blend_channel(17, 200, 255), 200);
    assert_eq!(blend_channel(0, 255, 128), 128);
}

#[test]
fn fill_rect_is_clipped() {
    let mut c = PixelCanvas::new(5, 5);
    c.fill_rect(-2, 3, 4, 10, [7, 7, 7, 255]);
    for y in 0..5 {
        for x in 0..5 {
            let inside = x < 2 && y >= 3;
            assert_eq!(px(&c, x, y), if inside { [7, 7, 7, 255] } else { [0, 0, 0, 0] }, "({}, {})", x, y);
        }
    }
    let before = c.buf.clone();
    c.fill_rect(1, 1, -3, 2, [1, 1, 1, 255]);
    c.fill_rect(1, 1, 2, 0, [1, 1, 1, 255]);
    assert_eq!(c.buf, before);
}

#[test]
fn fill_rect_twice_opaque_is_idempotent() {
    let mut a = PixelCanvas::new(6, 4);
    a.fill([3, 4, 5, 6]);
    a.fill_rect(1, 1, 3, 2, [9, 8, 7, 255]);
    let once = a.buf.clone();
    a.fill_rect(1, 1, 3, 2, [9, 8, 7, 255]);
    assert_eq!(a.buf, once);
}

fn pattern(w: usize, h: usize) -> PixelCanvas {
    let mut c = PixelCanvas::new(w, h);
    for y in 0..h {
        for x in 0..w {
            let i = (y * w + x) * 4;
            c.buf[i..i + 4].copy_from_slice(&[x as u8, y as u8, (x * 10 + y) as u8, 100]);
        }
    }
    c
}

#[test]
fn shift_rows_wraps_and_forces_alpha() {
    let mut c = pattern(4, 3);
    c.shift_rows(1, 1, 1);
    // row 1 moves right by one with wraparound, alpha becomes 255
    assert_eq!(px(&c, 0, 1), [3, 1, 31, 255]);
    assert_eq!(px(&c, 1, 1), [0, 1, 1, 255]);
    assert_eq!(px(&c, 3, 1), [2, 1, 21, 255]);
    // other rows untouched
    assert_eq!(px(&c, 0, 0), [0, 0, 0, 100]);
    assert_eq!(px(&c, 2, 2), [2, 2, 22, 100]);
}

#[test]
fn shift_rows_negative_and_large_offsets() {
    let mut c = pattern(5, 2);
    c.shift_rows(0, 1, -7);
    // -7 is -2 mod 5: pixel x takes source (x + 2) mod 5
    for x in 0..5usize {
        let sx = (x + 2) % 5;
        assert_eq!(px(&c, x, 0), [sx as u8, 0, (sx * 10) as u8, 255]);
    }
}

#[test]
fn shift_rows_skips_rows_off_canvas() {
    let mut c = pattern(3, 2);
    let before = c.buf.clone();
    c.shift_rows(-5, 3, 1);
    c.shift_rows(2, 10, 1);
    assert_eq!(c.buf, before);
}

#[test]
fn shift_and_unshift_restores_colour() {
    let mut c = pattern(7, 4);
    let before = c.buf.clone();
    c.shift_rows(1, 2, 3);
    c.shift_rows(1, 2, -3);
    for y in 0..4 {
        for x in 0..7 {
            let i = (y * 7 + x) * 4;
            assert_eq!(&c.buf[i..i + 3], &before[i..i + 3]);
            let expect_alpha = if (1..3).contains(&y) { 255 } else { 100 };
            assert_eq!(c.buf[i + 3], expect_alpha);
        }
    }
}

#[test]
fn invert_region_inverts_colour_only_and_twice_restores() {
    let mut c = pattern(3, 3);
    let before = c.buf.clone();
    c.invert_region(1, 1);
    assert_eq!(px(&c, 2, 1), [253, 254, 234, 100]);
    assert_eq!(px(&c, 2, 0), [2, 0, 20, 100]);
    c.invert_region(1, 1);
    assert_eq!(c.buf, before);
    c.invert_region(-4, 2);
    assert_eq!(c.buf, before);
}

#[test]
fn text_width_follows_lines() {
    assert_eq!(PixelCanvas::text_width("", 2), 0);
    assert_eq!(PixelCanvas::text_width("abc", 2), 34);
    assert_eq!(PixelCanvas::text_width("ab\nabcd", 1), 23);
    assert_eq!(PixelCanvas::text_width("a\r\nb", 1), 5);
    assert_eq!(PixelCanvas::text_width("a\n", 1), 5);
    assert_eq!(PixelCanvas::text_width("\n", 2), -2);
    assert_eq!(PixelCanvas::text_width("ab\r", 1), 17);
    assert_eq!(PixelCanvas::text_width("xyz", -1), -17);
}

#[test]
fn draw_text_draws_glyph_cells() {
    let mut c = PixelCanvas::new(20, 20);
    c.draw_text(1, 2, "I", [255, 0, 0, 255], 2);
    let g = phantasm::font::glyph('I').unwrap();
    for y in 0..20 {
        for x in 0..20 {
            let lit = x >= 1 && x < 11 && y >= 2 && y < 16 && {
                let rx = (x - 1) / 2;
                let ry = (y - 2) / 2;
                g[ry] & (1 << (4 - rx)) != 0
            };
            assert_eq!(px(&c, x, y), if lit { [255, 0, 0, 255] } else { [0, 0, 0, 0] }, "({}, {})", x, y);
        }
    }
}

#[test]
fn draw_text_newline_and_unknown_glyph_advance() {
    let mut a = PixelCanvas::new(40, 30);
    a.draw_text(0, 0, "\u{2603}A\nB", [9, 9, 9, 255], 1);
    let mut b = PixelCanvas::new(40, 30);
    b.draw_text(4, 0, "A", [9, 9, 9, 255], 1);
    b.draw_text(0, 8, "B", [9, 9, 9, 255], 1);
    assert_eq!(a.buf, b.buf);
}

#[test]
fn draw_text_lowercase_uses_capitals() {
    let mut a = PixelCanvas::new(30, 10);
    a.draw_text(0, 0, "abc", [1, 2, 3, 255], 1);
    let mut b = PixelCanvas::new(30, 10);
    b.draw_text(0, 0, "ABC", [1, 2, 3, 255], 1);
    assert_eq!(a.buf, b.buf);
}

#[test]
fn rng_seeds_and_sequence() {
    assert_eq!(TinyRng::new(0).s, 0x9E37_79B9);
    assert_eq!(TinyRng::new(5).s, 5);
    let mut r = TinyRng::new(1);
    assert_eq!(r.next_u32(), 270369);
    assert_eq!(r.next_u32(), 67634689);
    assert_eq!(r.next_u32(), 2647435461);
    assert_eq!(r.s, 2647435461);
}

#[test]
fn rng_next_range_zero_does_not_advance() {
    let mut r = TinyRng::new(42);
    assert_eq!(r.next_range(0), 0);
    assert_eq!(r.s, 42);
}

#[test]
fn rng_next_range_matches_f32_pipeline() {
    let sizes = [1usize, 2, 3, 7, 10, 22, 70, 256, 360, 640, 1000, 4095, 65537, 1 << 24, (1 << 24) + 1, 123_456_789, usize::MAX];
    for seed in 1..400u32 {
        let mut r = TinyRng::new(seed.wrapping_mul(2654435761));
        for &n in sizes.iter() {
            let v = xorshift(r.s);
            let got = r.next_range(n);
            assert_eq!(r.s, v);
            assert!(got < n);
            assert_eq!(got, float_range(v, n), "v={} n={}", v, n);
        }
    }
}

fn unshift_left(y: u32, k: u32) -> u32 {
    let mut x = y;
    for _ in 0..32 {
        x = y ^ (x << k);
    }
    x
}

fn unshift_right(y: u32, k: u32) -> u32 {
    let mut x = y;
    for _ in 0..32 {
        x = y ^ (x >> k);
    }
    x
}

/// The state whose next output is `v`.
fn state_before(v: u32) -> u32 {
    unshift_left(unshift_right(unshift_left(v, 5), 17), 13)
}

#[test]
fn rng_next_range_edge_values() {
    // outputs near u32::MAX round up to 2^32 in f32, and `% n` wraps them to 0
    for v in [u32::MAX, u32::MAX - 100, u32::MAX - 127, u32::MAX - 128, u32::MAX - 129, u32::MAX - 256, 1, 2, 1 << 31, 0x00FF_FFFF] {
        let s = state_before(v);
        assert_eq!(xorshift(s), v);
        for n in [640usize, 360, 70, 3, 1, 1 << 30] {
            let mut r = TinyRng { s };
            assert_eq!(r.next_range(n), float_range(v, n), "v={} n={}", v, n);
        }
    }
}

#[test]
fn rng_never_reaches_zero() {
    let mut r = TinyRng::new(0);
    for _ in 0..100_000 {
        assert_ne!(r.next_u32(), 0);
    }
    let mut r = TinyRng::new(u32::MAX);
    for _ in 0..100_000 {
        assert_ne!(r.next_u32(), 0);
    }
}

#[test]
fn new_accepts_any_buffer_that_fits() {
    let c = PixelCanvas::new(0, 7);
    assert_eq!((c.w, c.h), (0, 7));
    assert!(c.buf.is_empty());
}

#[test]
fn stamp_text_keeps_translucent_alpha() {
    let mut stamped = PixelCanvas::new(12, 12);
    stamped.stamp_text(1, 1, "I", [0, 0, 0, 220], 1);
    let mut blended = PixelCanvas::new(12, 12);
    blended.draw_text(1, 1, "I", [0, 0, 0, 220], 1);
    let g = phantasm::font::glyph('I').unwrap();
    for y in 0..12 {
        for x in 0..12 {
            let lit = (1..6).contains(&x) && (1..8).contains(&y) && g[y - 1] & (1 << (4 - (x - 1))) != 0;
            assert_eq!(px(&stamped, x, y), if lit { [0, 0, 0, 220] } else { [0, 0, 0, 0] });
            // blending translucent black onto transparent black changes nothing
            assert_eq!(px(&blended, x, y), [0, 0, 0, 0]);
        }
    }
}

#[test]
fn stamp_text_overwrites_what_is_there() {
    let mut c = PixelCanvas::new(8, 9);
    c.fill([200, 100, 50, 255]);
    c.stamp_text(0, 0, "I", [1, 2, 3, 4], 1);
    assert!(c.buf.chunks(4).any(|p| p == [1, 2, 3, 4]));
    assert!(c.buf.chunks(4).all(|p| p == [1, 2, 3, 4] || p == [200, 100, 50, 255]));
}

#[test]
fn draw_text_glyph_then_rest() {
    let mut a = PixelCanvas::new(40, 20);
    a.draw_text(2, 3, "AB", [7, 8, 9, 255], 2);
    let mut b = PixelCanvas::new(40, 20);
    b.draw_text(2, 3, "A", [7, 8, 9, 255], 2);
    b.draw_text(14, 3, "B", [7, 8, 9, 255], 2);
    assert_eq!(a.buf, b.buf);
}

#[test]
fn draw_text_stays_within_text_width() {
    let mut c = PixelCanvas::new(40, 30);
    c.draw_text(3, 4, "MW", [50, 60, 70, 255], 2);
    let tw = PixelCanvas::text_width("MW", 2) as usize;
    assert_eq!(tw, 22);
    let mut lit = 0;
    for y in 0..30 {
        for x in 0..40 {
            if px(&c, x, y) != [0, 0, 0, 0] {
                lit += 1;
                assert!((3..3 + tw).contains(&x) && (4..4 + 14).contains(&y), "({}, {})", x, y);
            }
        }
    }
    assert!(lit > 0);
    // the glyph cells reach both edges: M is lit in its leftmost column, W in its rightmost
    assert_eq!(px(&c, 3, 4), [50, 60, 70, 255]);
    assert_eq!(px(&c, 3 + tw - 1, 4), [50, 60, 70, 255]);
}

#[test]
fn range_checks_match_the_drawing_limits() {
    assert!(text_arith_fits(0, 0, "HELLO\nWORLD", 3));
    assert!(!text_arith_fits(i32::MAX - 5, 0, "A", 1));
    assert!(!text_arith_fits(0, i32::MAX - 3, "A\nB", 1));
    assert!(text_arith_fits(i32::MAX - 6, 0, "", 1));
    assert!(lines_fit_check("AB\nCDE", 1000));
    assert!(!lines_fit_check("AB\nCDE", i32::MAX / 10));
    assert!(lines_fit_check("", i32::MAX));
    let g = phantasm::font::glyph('M').unwrap();
    assert!(glyph_arith_fits(g, 0, 0, 4));
    assert!(!glyph_arith_fits(g, i32::MAX - 3, 0, 1));
}
