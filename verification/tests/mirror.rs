use phantasm::canvas::{PixelCanvas, TinyRng};
use phantasm::mirror::{
    goodbye_screen_fits_check, notepad_fits_check, terminal_fits_check,
    centered, clock_from_unix_secs, draw_window, echo_terminal_char, goodbye_message, paint_boot,
    paint_desktop_overlay, paint_goodbye, paint_terminal, rush_script, watching_script, MirrorFrame,
    MIRROR_H, MIRROR_W, STATIC_SPECKS,
};

fn px(c: &PixelCanvas, x: usize, y: usize) -> [u8; 4] {
    let i = (y * c.w + x) * 4;
    [c.buf[i], c.buf[i + 1], c.buf[i + 2], c.buf[i + 3]]
}

#[test]
fn dither_matches_f32_scaling() {
    let mut c = PixelCanvas::new(256, 1);
    for x in 0..256 {
        c.set(x as i32, 0, [x as u8, x as u8, x as u8, 255]);
    }
    c.invert_region_dither(0);
    for x in 0..256usize {
        let expect = if x % 2 == 0 { (x as f32 * 0.9) as u8 } else { x as u8 };
        assert_eq!(px(&c, x, 0), [expect, expect, expect, 255], "x={}", x);
    }
}

#[test]
fn dither_ignores_rows_off_canvas() {
    let mut c = PixelCanvas::new(4, 2);
    c.fill([100, 100, 100, 100]);
    let before = c.buf.clone();
    c.invert_region_dither(-1);
    c.invert_region_dither(2);
    assert_eq!(c.buf, before);
    c.invert_region_dither(1);
    assert_eq!(px(&c, 0, 1), [90, 90, 90, 100]);
    assert_eq!(px(&c, 1, 1), [100, 100, 100, 100]);
    assert_eq!(px(&c, 0, 0), [100, 100, 100, 100]);
}

#[test]
fn clock_is_utc_hours_and_minutes() {
    assert_eq!(clock_from_unix_secs(0), (0, 0));
    assert_eq!(clock_from_unix_secs(3600 * 25 + 61), (1, 1));
    assert_eq!(clock_from_unix_secs(86399), (23, 59));
}

#[test]
fn centered_text_is_centred_on_mirror_width() {
    let mut a = PixelCanvas::new(MIRROR_W, 20);
    centered(&mut a, 3, "HI", [5, 5, 5, 255], 2);
    let w = PixelCanvas::text_width("HI", 2);
    assert_eq!(w, 22);
    let mut b = PixelCanvas::new(MIRROR_W, 20);
    b.draw_text((640 - 22) / 2, 3, "HI", [5, 5, 5, 255], 2);
    assert_eq!(a.buf, b.buf);
}

#[test]
fn boot_screen_background_and_blink() {
    let mut on = PixelCanvas::new(MIRROR_W, MIRROR_H);
    paint_boot(&mut on, true);
    let mut off = PixelCanvas::new(MIRROR_W, MIRROR_H);
    paint_boot(&mut off, false);
    assert_eq!(px(&off, 0, 0), [5, 4, 6, 255]);
    assert_ne!(on.buf, off.buf);
    // the prompt only differs around its row
    for y in 0..280 {
        for x in 0..MIRROR_W {
            assert_eq!(px(&on, x, y), px(&off, x, y));
        }
    }
}

#[test]
fn terminal_screen_has_scanlines_and_cursor() {
    let mut c = PixelCanvas::new(MIRROR_W, MIRROR_H);
    paint_terminal(&mut c, "BOB", false);
    // background, darkened on every third row at even columns
    assert_eq!(px(&c, 1, 1), [4, 6, 4, 255]);
    assert_eq!(px(&c, 0, 3), [3, 5, 3, 255]);
    assert_eq!(px(&c, 1, 3), [4, 6, 4, 255]);
    let mut with_cursor = PixelCanvas::new(MIRROR_W, MIRROR_H);
    paint_terminal(&mut with_cursor, "BOB", true);
    let prompt_w = PixelCanvas::text_width("> ENTER YOUR NAME: BOB", 2);
    let cx = (24 + prompt_w + 2) as usize;
    assert_eq!(px(&with_cursor, cx + 1, 117), [70, 255, 140, 255]);
    assert_eq!(px(&c, cx + 1, 117), [4, 6, 4, 255]);
}

#[test]
fn window_layers_in_order() {
    let mut c = PixelCanvas::new(100, 60);
    draw_window(&mut c, 10, 5, 50, 40, "T");
    assert_eq!(px(&c, 12, 30), [30, 30, 38, 255]);
    assert_eq!(px(&c, 40, 8), [56, 56, 70, 255]);
    assert_eq!(px(&c, 40, 23), [10, 10, 12, 255]);
    assert_eq!(px(&c, 45, 10), [70, 70, 84, 255]);
    assert_eq!(px(&c, 5, 5), [0, 0, 0, 0]);
}

#[test]
fn goodbye_screen_consumes_three_draws_per_speck() {
    let mut c = PixelCanvas::new(MIRROR_W, MIRROR_H);
    let mut rng = TinyRng::new(7);
    let mut reference = TinyRng::new(7);
    for _ in 0..(3 * STATIC_SPECKS) {
        reference.next_u32();
    }
    paint_goodbye(&mut c, "GOODBYE", &mut rng, false);
    assert_eq!(rng.s, reference.s);
    assert_eq!(STATIC_SPECKS, MIRROR_W * MIRROR_H / 110);
}

#[test]
fn goodbye_screen_is_deterministic_and_blinks() {
    let mut a = PixelCanvas::new(MIRROR_W, MIRROR_H);
    let mut b = PixelCanvas::new(MIRROR_W, MIRROR_H);
    let mut ra = TinyRng::new(99);
    let mut rb = TinyRng::new(99);
    paint_goodbye(&mut a, "X\nY", &mut ra, true);
    paint_goodbye(&mut b, "X\nY", &mut rb, false);
    for y in 0..290 {
        for x in 0..MIRROR_W {
            assert_eq!(px(&a, x, y), px(&b, x, y));
        }
    }
    assert_ne!(a.buf, b.buf);
}

#[test]
fn desktop_overlay_notepad_and_clock() {
    let mut with = PixelCanvas::new(MIRROR_W, MIRROR_H);
    paint_desktop_overlay(&mut with, Some("hello"), false, 12, 5);
    let mut without = PixelCanvas::new(MIRROR_W, MIRROR_H);
    paint_desktop_overlay(&mut without, None, false, 12, 5);
    // notepad body is translucent grey blended over transparent black (alpha kept)
    assert_eq!(px(&with, 300, 250), [barely(216), barely(216), barely(214), 0]);
    assert_eq!(px(&without, 300, 250), [0, 0, 0, 0]);
    // taskbar
    assert_eq!(px(&with, 300, 345), [22, 22, 28, 255]);
    let mut other_time = PixelCanvas::new(MIRROR_W, MIRROR_H);
    paint_desktop_overlay(&mut other_time, None, false, 13, 5);
    assert_ne!(other_time.buf, without.buf);
}

fn barely(c: u8) -> u8 {
    let a = 235.0f32 / 255.0;
    (c as f32 * a).round() as u8
}

#[test]
fn notepad_cursor_follows_last_line() {
    let mut a = PixelCanvas::new(MIRROR_W, MIRROR_H);
    paint_desktop_overlay(&mut a, Some("ab\ncde"), true, 0, 0);
    let mut b = PixelCanvas::new(MIRROR_W, MIRROR_H);
    paint_desktop_overlay(&mut b, Some("ab\ncde"), false, 0, 0);
    // cursor at x = 174 + width("cde") + 1 = 192, y = 100 + 8
    assert_eq!(px(&a, 193, 110), [20, 20, 26, 255]);
    assert_ne!(px(&b, 193, 110), [20, 20, 26, 255]);
}

#[test]
fn scripts_and_messages() {
    let w = watching_script("BoB");
    assert_eq!(w, vec!["hello, bob.".to_string(), "i can see through your desktop.".to_string(), "do not look away.".to_string()]);
    assert_eq!(rush_script(), vec!["IT IS TOO LATE.".to_string(), "BEHIND YOU.".to_string()]);
    assert_eq!(goodbye_message("ann"), "THIS IS MINE NOW.\nYOU ARE UNNECESSARY.\nGOODBYE, ANN.");
}

#[test]
fn terminal_echo_is_capped() {
    let mut s = String::new();
    for c in "abcdefghijklmnopqrstuvwxyz".chars() {
        echo_terminal_char(&mut s, c);
    }
    assert_eq!(s, "abcdefghijklmnop");
}

#[test]
fn mirror_frame_holds_pixels() {
    let f = MirrorFrame { rgba: vec![1, 2, 3, 4] };
    assert_eq!(f.rgba.len(), 4);
}

#[test]
fn screen_range_checks_accept_what_the_game_shows() {
    assert!(terminal_fits_check("ADA", true));
    assert!(terminal_fits_check("", false));
    assert!(goodbye_screen_fits_check("THIS IS MINE NOW.\nYOU ARE UNNECESSARY.\nGOODBYE, ADA."));
    assert!(notepad_fits_check("hello, ada.", true));
    assert!(notepad_fits_check("", false));
}
