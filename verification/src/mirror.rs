//! The simulated desktop mirror: frame payloads and the painters' integer
//! drawing logic. The painter thread and its float-driven animation timing
//! live with the application.

use vstd::prelude::*;
use crate::canvas::{PixelCanvas, TinyRng, text_arith_fits, lines_fit_check, xorshift_spec, range_pick_spec, pixel_x, pixel_y, fill_rect_spec, lemma_pixel_bounds, lemma_pixel_of, draw_text_spec,
    text_width_spec, text_arith_ok, lines_fit, in_i32, lemma_text_fits, lemma_text_width_fits,
    lemma_text_width_bounds, text_covers, lemma_text_exact, lemma_text_local, lemma_text_len,
    lemma_text_covers_below, widest_from, max_opt, line_width};
use crate::sprite::centre_x;
use crate::text::{lines_spec, last_segment, newline_count, str_chars, push_char, str_to_lowercase,
    str_to_uppercase, to_lowercase, to_uppercase};
use crate::rounding::{round_f32, round_sig24, lemma_round_sig24_bound};

verus! {

pub const MIRROR_W: usize = 640;
pub const MIRROR_H: usize = 360;

/// One frame of the mirrored desktop, `MIRROR_W` x `MIRROR_H` RGBA pixels.
pub struct MirrorFrame {
    pub rgba: Vec<u8>,
}

/// `v` scaled by `0.9f32` (exactly 15099494 / 2^24) in binary32 and
/// truncated back to a byte.
pub open spec fn dim_spec(v: u8) -> u8 {
    (round_sig24((v * 15099494) as nat) / 0x100_0000nat) as u8
}

/// The buffer after darkening the colour channels of every even column of
/// scanline `y`.
pub open spec fn dither_row_spec(buf: Seq<u8>, w: int, y: int) -> Seq<u8> {
    Seq::new(
        buf.len(),
        |j: int|
            if pixel_y(j, w) == y && pixel_x(j, w) % 2 == 0 && j % 4 < 3 {
                dim_spec(buf[j])
            } else {
                buf[j]
            },
    )
}

fn dim(v: u8) -> (r: u8)
    ensures
        r == dim_spec(v),
{
    let p = round_f32(v as u128 * 15099494);
    assert(p / 0x100_0000 < 256) by {
        assert(p <= 2 * (v as u128 * 15099494));
    }
    (p / 0x100_0000) as u8
}

/// Dimming never brightens a channel.
pub proof fn lemma_dim_darkens(v: u8)
    ensures
        dim_spec(v) <= v,
{
    let x = (v * 15099494) as nat;
    lemma_round_sig24_bound(x);
    let r = round_sig24(x);
    assert(x / 0x80_0000 <= 2 * v) by (nonlinear_arith)
        requires x == v * 15099494, v <= 255;
    assert(r / 0x100_0000 <= v) by (nonlinear_arith)
        requires r <= x + 2 * v, x == v * 15099494, v <= 255;
}

/// `dither_row_spec` restricted to the columns left of `xlim`.
pub open spec fn dither_prefix_spec(buf: Seq<u8>, w: int, y: int, xlim: int) -> Seq<u8> {
    Seq::new(
        buf.len(),
        |j: int|
            if pixel_y(j, w) == y && pixel_x(j, w) % 2 == 0 && pixel_x(j, w) < xlim && j % 4 < 3 {
                dim_spec(buf[j])
            } else {
                buf[j]
            },
    )
}

impl PixelCanvas {
    /// Terminal scanline effect: darkens the colour channels of every even
    /// column of row `y` to 90%; rows off the canvas are ignored.
    pub fn invert_region_dither(&mut self, y: i32)
        requires
            old(self).wf(),
        ensures
            final(self).wf(),
            final(self).w == old(self).w,
            final(self).h == old(self).h,
            final(self).buf@ == dither_row_spec(old(self).buf@, old(self).w as int, y as int),
    {
        let ghost old_buf = self.buf@;
        let ghost wi = self.w as int;
        let ghost hi = self.h as int;
        let n = self.buf.len();
        if y < 0 || y >= self.h as i32 {
            assert forall|j: int| 0 <= j < n implies self.buf@[j] == dither_row_spec(old_buf, wi, y as int)[j] by {
                lemma_pixel_bounds(j, wi, hi);
            }
            assert(self.buf@ =~= dither_row_spec(old_buf, wi, y as int));
            return;
        }
        assert((y as usize) * self.w * 4 + self.w * 4 <= self.w * self.h * 4) by (nonlinear_arith)
            requires (y as usize) < self.h;
        let row_start = y as usize * self.w * 4;
        let mut x: usize = 0;
        assert(self.buf@ =~= dither_prefix_spec(old_buf, wi, y as int, 0));
        while x < self.w
            invariant
                self.wf(),
                self.w == old(self).w,
                self.h == old(self).h,
                wi == self.w, hi == self.h,
                n == self.buf@.len(),
                n == old_buf.len(),
                0 <= y < hi,
                row_start == y * wi * 4,
                row_start + wi * 4 <= n,
                x % 2 == 0,
                0 <= x <= wi + 1,
                self.buf@ == dither_prefix_spec(old_buf, wi, y as int, x as int),
            decreases wi + 1 - x,
        {
            let i = row_start + x * 4;
            proof {
                lemma_pixel_of(wi, x as int, y as int, 0);
                lemma_pixel_of(wi, x as int, y as int, 1);
                lemma_pixel_of(wi, x as int, y as int, 2);
                lemma_pixel_of(wi, x as int, y as int, 3);
            }
            self.buf[i] = dim(self.buf[i]);
            self.buf[i + 1] = dim(self.buf[i + 1]);
            self.buf[i + 2] = dim(self.buf[i + 2]);
            proof {
                let target = dither_prefix_spec(old_buf, wi, y as int, x + 2);
                assert forall|j: int| 0 <= j < n implies self.buf@[j] == target[j] by {
                    lemma_pixel_bounds(j, wi, hi);
                    if i <= j < i + 4 {
                        lemma_pixel_of(wi, x as int, y as int, j - i);
                    } else if pixel_y(j, wi) == y && pixel_x(j, wi) == x {
                        assert(j == i + j % 4);
                    }
                }
                assert(self.buf@ =~= target);
            }
            x += 2;
        }
        assert forall|j: int| 0 <= j < n implies self.buf@[j] == dither_row_spec(old_buf, wi, y as int)[j] by {
            lemma_pixel_bounds(j, wi, hi);
        }
        assert(self.buf@ =~= dither_row_spec(old_buf, wi, y as int));
    }
}

// ----------------------------------------------------------------------
// Act painters (the integer parts; blink timing is decided by the caller)
// ----------------------------------------------------------------------

/// `text` at scale `s` centred horizontally on the mirror width, at row `y`.
pub open spec fn centered_spec(buf: Seq<u8>, w: int, y: int, text: Seq<char>, col: [u8; 4], s: int) -> Seq<u8> {
    let x = centre_x(MIRROR_W as int, text_width_spec(text, s));
    draw_text_spec(buf, w, x, x, y, text, col, s)
}

/// The arithmetic of centring and drawing `text` stays within `i32`.
pub open spec fn centered_fits(text: Seq<char>, y: int, s: int) -> bool {
    let tw = text_width_spec(text, s);
    &&& lines_fit(lines_spec(text), s)
    &&& in_i32(MIRROR_W - tw)
    &&& text_arith_ok(centre_x(MIRROR_W as int, tw), centre_x(MIRROR_W as int, tw), y, text, s)
}

/// Short text at small scale and a small row always fits.
pub proof fn lemma_centered_fits(text: Seq<char>, y: int, s: int)
    requires
        text.len() <= 100_000,
        0 <= s <= 64,
        0 <= y <= 100_000,
    ensures
        centered_fits(text, y, s),
{
    let n = text.len() as int;
    assert(n * 6 * s <= 100_000 * 6 * 64) by (nonlinear_arith) requires 0 <= n <= 100_000, 0 <= s <= 64;
    lemma_text_width_fits(text, s);
    lemma_text_width_bounds(text, s);
    assert(6 * n * s <= 6 * 100_000 * 64) by (nonlinear_arith) requires 0 <= n <= 100_000, 0 <= s <= 64;
    let k = 38_600_000int;
    assert(8 * (s * (n + 1)) <= 8 * 64 * 100_001) by (nonlinear_arith) requires 0 <= n <= 100_000, 0 <= s <= 64;
    let x = centre_x(MIRROR_W as int, text_width_spec(text, s));
    lemma_text_fits(x, x, y, text, s, k);
}

/// Draws `text` centred horizontally on the mirror width at row `y`.
pub fn centered(c: &mut PixelCanvas, y: i32, text: &str, color: [u8; 4], scale: i32)
    requires
        old(c).wf(),
        centered_fits(text@, y as int, scale as int),
    ensures
        final(c).wf(),
        final(c).w == old(c).w,
        final(c).h == old(c).h,
        final(c).buf@ == centered_spec(old(c).buf@, old(c).w as int, y as int, text@, color, scale as int),
{
    let w = PixelCanvas::text_width(text, scale);
    c.draw_text((MIRROR_W as i32 - w) / 2, y, text, color, scale);
}

pub open spec fn fill_spec(len: nat, col: [u8; 4]) -> Seq<u8> {
    Seq::new(len, |j: int| col[j % 4])
}

pub open spec fn warning_yellow() -> [u8; 4] {
    [235u8, 200, 70, 255]
}

/// The boot (consent) screen: title, subtitle, three warnings, and the
/// blinking prompt when `blink_on`.
pub open spec fn boot_spec(len: nat, w: int, blink_on: bool) -> Seq<u8> {
    let b0 = fill_spec(len, [5u8, 4, 6, 255]);
    let b1 = centered_spec(b0, w, 62, "PHANTASM"@, [255u8, 32, 48, 255], 4);
    let b2 = centered_spec(b1, w, 118, "DESKTOP MIRROR"@, [140u8, 140, 150, 255], 2);
    let b3 = centered_spec(b2, w, 190, "WARNING: SUDDEN LOUD AUDIO."@, warning_yellow(), 1);
    let b4 = centered_spec(b3, w, 204, "WARNING: VIOLENT WINDOW MOTION."@, warning_yellow(), 1);
    let b5 = centered_spec(b4, w, 218, "HEADPHONES ARE A BAD IDEA."@, warning_yellow(), 1);
    if blink_on {
        centered_spec(b5, w, 284, "PRESS ANY KEY TO BEGIN"@, [240u8, 240, 245, 255], 2)
    } else {
        b5
    }
}

/// Paints the boot screen.
pub fn paint_boot(c: &mut PixelCanvas, blink_on: bool)
    requires
        old(c).wf(),
    ensures
        final(c).wf(),
        final(c).w == old(c).w,
        final(c).h == old(c).h,
        final(c).buf@ == boot_spec(old(c).buf@.len(), old(c).w as int, blink_on),
{
    proof {
        reveal_strlit("PHANTASM");
        reveal_strlit("DESKTOP MIRROR");
        reveal_strlit("WARNING: SUDDEN LOUD AUDIO.");
        reveal_strlit("WARNING: VIOLENT WINDOW MOTION.");
        reveal_strlit("HEADPHONES ARE A BAD IDEA.");
        reveal_strlit("PRESS ANY KEY TO BEGIN");
        lemma_centered_fits("PHANTASM"@, 62, 4);
        lemma_centered_fits("DESKTOP MIRROR"@, 118, 2);
        lemma_centered_fits("WARNING: SUDDEN LOUD AUDIO."@, 190, 1);
        lemma_centered_fits("WARNING: VIOLENT WINDOW MOTION."@, 204, 1);
        lemma_centered_fits("HEADPHONES ARE A BAD IDEA."@, 218, 1);
        lemma_centered_fits("PRESS ANY KEY TO BEGIN"@, 284, 2);
    }
    c.fill([5, 4, 6, 255]);
    centered(c, 62, "PHANTASM", [255, 32, 48, 255], 4);
    centered(c, 118, "DESKTOP MIRROR", [140, 140, 150, 255], 2);
    centered(c, 190, "WARNING: SUDDEN LOUD AUDIO.", [235, 200, 70, 255], 1);
    centered(c, 204, "WARNING: VIOLENT WINDOW MOTION.", [235, 200, 70, 255], 1);
    centered(c, 218, "HEADPHONES ARE A BAD IDEA.", [235, 200, 70, 255], 1);
    if blink_on {
        centered(c, 284, "PRESS ANY KEY TO BEGIN", [240, 240, 245, 255], 2);
    }
}

/// The CRT scanline pass: `dither_row_spec` applied to every third row
/// `0, 3, ..., 357` of the mirror height.
pub open spec fn scanlines_spec(buf: Seq<u8>, w: int) -> Seq<u8> {
    scanlines_prefix_spec(buf, w, MIRROR_H as int)
}

/// The scanline pass restricted to rows above `ylim`.
pub open spec fn scanlines_prefix_spec(buf: Seq<u8>, w: int, ylim: int) -> Seq<u8> {
    Seq::new(
        buf.len(),
        |j: int|
            if pixel_y(j, w) < ylim && pixel_y(j, w) % 3 == 0 && pixel_x(j, w) % 2 == 0 && j % 4 < 3 {
                dim_spec(buf[j])
            } else {
                buf[j]
            },
    )
}

fn paint_scanlines(c: &mut PixelCanvas)
    requires
        old(c).wf(),
    ensures
        final(c).wf(),
        final(c).w == old(c).w,
        final(c).h == old(c).h,
        final(c).buf@ == scanlines_spec(old(c).buf@, old(c).w as int),
{
    let ghost old_buf = c.buf@;
    let ghost w = c.w as int;
    let mut y: usize = 0;
    assert(c.buf@ =~= scanlines_prefix_spec(old_buf, w, 0));
    while y < MIRROR_H
        invariant
            c.wf(),
            c.w == old(c).w,
            c.h == old(c).h,
            w == c.w,
            y % 3 == 0,
            y <= MIRROR_H + 2,
            c.buf@ == scanlines_prefix_spec(old_buf, w, y as int),
        decreases MIRROR_H + 2 - y,
    {
        c.invert_region_dither(y as i32);
        assert(c.buf@ =~= scanlines_prefix_spec(old_buf, w, y + 3));
        y += 3;
    }
    assert(c.buf@ =~= scanlines_prefix_spec(old_buf, w, MIRROR_H as int));
}

pub open spec fn terminal_green() -> [u8; 4] {
    [70u8, 255, 140, 255]
}

pub open spec fn terminal_prompt(terminal: Seq<char>) -> Seq<char> {
    "> ENTER YOUR NAME: "@ + terminal
}

/// The terminal fallback screen: BIOS banner, the failure notice, the
/// name prompt echoing `terminal`, a block cursor when `blink_on`, and CRT
/// scanlines over everything.
pub open spec fn terminal_spec(len: nat, w: int, terminal: Seq<char>, blink_on: bool) -> Seq<u8> {
    let g = terminal_green();
    let b0 = fill_spec(len, [4u8, 6, 4, 255]);
    let b1 = draw_text_spec(b0, w, 24, 24, 26, "PHANTASM BIOS v0.9.7"@, g, 2);
    let b2 = draw_text_spec(b1, w, 24, 24, 54, "NO OPERATOR PROFILE FOUND ON THIS MACHINE."@, g, 1);
    let b3 = draw_text_spec(b2, w, 24, 24, 68, "LOCAL RECONNAISSANCE FAILED. FALLING BACK"@, g, 1);
    let b4 = draw_text_spec(b3, w, 24, 24, 82, "TO MANUAL IDENTIFICATION."@, g, 1);
    let p = terminal_prompt(terminal);
    let b5 = draw_text_spec(b4, w, 24, 24, 116, p, g, 2);
    let b6 = if blink_on {
        fill_rect_spec(b5, w, 24 + text_width_spec(p, 2) + 2, 116, 10, 15, g)
    } else {
        b5
    };
    scanlines_spec(b6, w)
}

/// The prompt's drawing arithmetic stays within `i32`.
pub open spec fn terminal_fits(terminal: Seq<char>, blink_on: bool) -> bool {
    let p = terminal_prompt(terminal);
    &&& text_arith_ok(24, 24, 116, p, 2)
    &&& blink_on ==> {
        &&& lines_fit(lines_spec(p), 2)
        &&& in_i32(24 + text_width_spec(p, 2) + 2 + 10)
    }
}

/// Any echo of at most 100 000 characters fits.
pub proof fn lemma_terminal_fits(terminal: Seq<char>, blink_on: bool)
    requires
        terminal.len() <= 100_000,
    ensures
        terminal_fits(terminal, blink_on),
{
    reveal_strlit("> ENTER YOUR NAME: ");
    let p = terminal_prompt(terminal);
    assert(p.len() == 19 + terminal.len());
    lemma_text_fits(24, 24, 116, p, 2, 38_600_000int);
    lemma_text_width_fits(p, 2);
    lemma_text_width_bounds(p, 2);
}

/// Paints the terminal fallback screen.
pub fn paint_terminal(c: &mut PixelCanvas, terminal: &str, blink_on: bool)
    requires
        old(c).wf(),
        terminal_fits(terminal@, blink_on),
    ensures
        final(c).wf(),
        final(c).w == old(c).w,
        final(c).h == old(c).h,
        final(c).buf@ == terminal_spec(old(c).buf@.len(), old(c).w as int, terminal@, blink_on),
{
    proof {
        reveal_strlit("PHANTASM BIOS v0.9.7");
        reveal_strlit("NO OPERATOR PROFILE FOUND ON THIS MACHINE.");
        reveal_strlit("LOCAL RECONNAISSANCE FAILED. FALLING BACK");
        reveal_strlit("TO MANUAL IDENTIFICATION.");
        lemma_text_fits(24, 24, 26, "PHANTASM BIOS v0.9.7"@, 2, 1000);
        lemma_text_fits(24, 24, 54, "NO OPERATOR PROFILE FOUND ON THIS MACHINE."@, 1, 1000);
        lemma_text_fits(24, 24, 68, "LOCAL RECONNAISSANCE FAILED. FALLING BACK"@, 1, 1000);
        lemma_text_fits(24, 24, 82, "TO MANUAL IDENTIFICATION."@, 1, 1000);
    }
    let green = [70u8, 255, 140, 255];
    c.fill([4, 6, 4, 255]);
    c.draw_text(24, 26, "PHANTASM BIOS v0.9.7", green, 2);
    c.draw_text(24, 54, "NO OPERATOR PROFILE FOUND ON THIS MACHINE.", green, 1);
    c.draw_text(24, 68, "LOCAL RECONNAISSANCE FAILED. FALLING BACK", green, 1);
    c.draw_text(24, 82, "TO MANUAL IDENTIFICATION.", green, 1);
    let mut prompt = String::from_str("> ENTER YOUR NAME: ");
    prompt.append(terminal);
    assert(prompt@ == terminal_prompt(terminal@));
    c.draw_text(24, 116, prompt.as_str(), green, 2);
    if blink_on {
        let cx = 24 + PixelCanvas::text_width(prompt.as_str(), 2) + 2;
        c.fill_rect(cx, 116, 10, 15, [70, 255, 140, 255]);
    }
    paint_scanlines(c);
}

/// A fake application window: body, title bar, separator, title text and
/// a close button.
pub open spec fn window_spec(buf: Seq<u8>, w: int, x: int, y: int, ww: int, wh: int, title: Seq<char>) -> Seq<u8> {
    let b1 = fill_rect_spec(buf, w, x, y, ww, wh, [30u8, 30, 38, 255]);
    let b2 = fill_rect_spec(b1, w, x, y, ww, 18, [56u8, 56, 70, 255]);
    let b3 = fill_rect_spec(b2, w, x, y + 18, ww, 1, [10u8, 10, 12, 255]);
    let b4 = draw_text_spec(b3, w, x + 6, x + 6, y + 5, title, [210u8, 210, 220, 255], 1);
    fill_rect_spec(b4, w, x + ww - 16, y + 4, 12, 11, [70u8, 70, 84, 255])
}

/// The window's coordinate arithmetic stays within `i32`.
pub open spec fn window_fits(x: int, y: int, ww: int, wh: int, title: Seq<char>) -> bool {
    &&& in_i32(y + wh)
    &&& in_i32(y + 19)
    &&& in_i32(x + 6)
    &&& in_i32(x + ww)
    &&& in_i32(x + ww - 16)
    &&& in_i32(x + ww - 4)
    &&& text_arith_ok(x + 6, x + 6, y + 5, title, 1)
}

/// Draws a fake application window.
pub fn draw_window(c: &mut PixelCanvas, x: i32, y: i32, ww: i32, wh: i32, title: &str)
    requires
        old(c).wf(),
        window_fits(x as int, y as int, ww as int, wh as int, title@),
    ensures
        final(c).wf(),
        final(c).w == old(c).w,
        final(c).h == old(c).h,
        final(c).buf@ == window_spec(old(c).buf@, old(c).w as int, x as int, y as int, ww as int, wh as int, title@),
{
    c.fill_rect(x, y, ww, wh, [30, 30, 38, 255]);
    c.fill_rect(x, y, ww, 18, [56, 56, 70, 255]);
    c.fill_rect(x, y + 18, ww, 1, [10, 10, 12, 255]);
    c.draw_text(x + 6, y + 5, title, [210, 210, 220, 255], 1);
    c.fill_rect(x + ww - 16, y + 4, 12, 11, [70, 70, 84, 255]);
}

/// Number of static specks sprinkled per farewell frame
/// (`MIRROR_W * MIRROR_H / 110`).
pub const STATIC_SPECKS: usize = 2094;

pub open spec fn speck_color(v: int) -> [u8; 4] {
    [v as u8, (v / 2) as u8, (v / 2) as u8, 255u8]
}

/// `k` static specks drawn from generator state `s`: each speck draws a
/// column below `MIRROR_W`, a row below `MIRROR_H` and a level `25..95`,
/// in that order. Returns the buffer and the final generator state.
pub open spec fn static_noise_spec(buf: Seq<u8>, w: int, s: u32, k: nat) -> (Seq<u8>, u32)
    decreases k,
{
    if k == 0 {
        (buf, s)
    } else {
        let s1 = xorshift_spec(s);
        let s2 = xorshift_spec(s1);
        let s3 = xorshift_spec(s2);
        let x = range_pick_spec(s1, MIRROR_W);
        let y = range_pick_spec(s2, MIRROR_H);
        let v = range_pick_spec(s3, 70) + 25;
        static_noise_spec(fill_rect_spec(buf, w, x as int, y as int, 1, 1, speck_color(v)), w, s3, (k - 1) as nat)
    }
}

/// Scale of the farewell text: 3 when its longest line has at most 34
/// characters (a line of `n` characters is `6n - 1` pixels wide at scale 1),
/// 2 otherwise.
pub open spec fn goodbye_scale(text: Seq<char>) -> int {
    if text_width_spec(text, 1) <= 203 { 3 } else { 2 }
}

/// The farewell screen: the ghost's text in red, boiling static, and the
/// blinking ownership notice when `blink_on`. Returns the buffer and the
/// generator state afterwards.
pub open spec fn goodbye_screen_spec(len: nat, w: int, text: Seq<char>, s0: u32, blink_on: bool) -> (Seq<u8>, u32) {
    let b0 = fill_spec(len, [4u8, 2, 3, 255]);
    let b1 = draw_text_spec(b0, w, 40, 40, 56, text, [255u8, 26, 40, 255], goodbye_scale(text));
    let (b2, s1) = static_noise_spec(b1, w, s0, STATIC_SPECKS as nat);
    let b3 = if blink_on {
        draw_text_spec(b2, w, 40, 40, 300, "THIS TERMINAL NO LONGER BELONGS TO YOU"@, [130u8, 28, 34, 255], 1)
    } else {
        b2
    };
    (b3, s1)
}

pub open spec fn goodbye_screen_fits(text: Seq<char>) -> bool {
    lines_fit(lines_spec(text), 1) && text_arith_ok(40, 40, 56, text, goodbye_scale(text))
}

/// Any farewell text of at most 100 000 characters fits.
pub proof fn lemma_goodbye_screen_fits(text: Seq<char>)
    requires
        text.len() <= 100_000,
    ensures
        goodbye_screen_fits(text),
{
    lemma_text_width_fits(text, 1);
    lemma_text_fits(40, 40, 56, text, goodbye_scale(text), 38_600_000int);
}

/// Paints the farewell screen, drawing the static from `rng`.
pub fn paint_goodbye(c: &mut PixelCanvas, text: &str, rng: &mut TinyRng, blink_on: bool)
    requires
        old(c).wf(),
        goodbye_screen_fits(text@),
    ensures
        final(c).wf(),
        final(c).w == old(c).w,
        final(c).h == old(c).h,
        (final(c).buf@, final(rng).s) == goodbye_screen_spec(old(c).buf@.len(), old(c).w as int, text@, old(rng).s, blink_on),
{
    let ghost w = c.w as int;
    c.fill([4, 2, 3, 255]);
    let scale = if PixelCanvas::text_width(text, 1) <= 203 { 3 } else { 2 };
    c.draw_text(40, 56, text, [255, 26, 40, 255], scale);
    let ghost b1 = c.buf@;
    let ghost s0 = rng.s;
    let mut k: usize = 0;
    while k < STATIC_SPECKS
        invariant
            c.wf(),
            c.w == old(c).w,
            c.h == old(c).h,
            w == c.w,
            0 <= k <= STATIC_SPECKS,
            static_noise_spec(c.buf@, w, rng.s, (STATIC_SPECKS - k) as nat)
                == static_noise_spec(b1, w, s0, STATIC_SPECKS as nat),
        decreases STATIC_SPECKS - k,
    {
        let ghost before = c.buf@;
        let ghost sb = rng.s;
        let x = rng.next_range(MIRROR_W) as i32;
        let y = rng.next_range(MIRROR_H) as i32;
        let v = rng.next_range(70) as u8 + 25;
        c.set(x, y, [v, v / 2, v / 2, 255]);
        assert(static_noise_spec(before, w, sb, (STATIC_SPECKS - k) as nat)
            == static_noise_spec(c.buf@, w, rng.s, (STATIC_SPECKS - (k + 1)) as nat));
        k += 1;
    }
    if blink_on {
        proof {
            reveal_strlit("THIS TERMINAL NO LONGER BELONGS TO YOU");
            lemma_text_fits(40, 40, 300, "THIS TERMINAL NO LONGER BELONGS TO YOU"@, 1, 1000);
        }
        c.draw_text(40, 300, "THIS TERMINAL NO LONGER BELONGS TO YOU", [130, 28, 34, 255], 1);
    }
}

// ----------------------------------------------------------------------
// The watching desktop (everything but the float-shaded wallpaper)
// ----------------------------------------------------------------------

pub open spec fn label_white() -> [u8; 4] {
    [235u8, 235, 240, 255]
}

/// Desktop icon `i` (counting from the top) with its label.
pub open spec fn icon_spec(buf: Seq<u8>, w: int, i: int, label: Seq<char>, col: [u8; 4]) -> Seq<u8> {
    let y = 16 + i * 58;
    let b1 = fill_rect_spec(buf, w, 18, y, 30, 24, [88u8, 96, 118, 255]);
    let b2 = fill_rect_spec(b1, w, 21, y + 3, 24, 18, [138u8, 150, 180, 255]);
    draw_text_spec(b2, w, 16, 16, y + 28, label, col, 1)
}

/// The four desktop icons and the two background windows.
pub open spec fn desktop_furniture_spec(buf: Seq<u8>, w: int) -> Seq<u8> {
    let b1 = icon_spec(buf, w, 0, "MY FILES"@, label_white());
    let b2 = icon_spec(b1, w, 1, "RECYCLING"@, label_white());
    let b3 = icon_spec(b2, w, 2, "DOORS"@, label_white());
    let b4 = icon_spec(b3, w, 3, "PHANTASM"@, [255u8, 60, 70, 255]);
    let b5 = window_spec(b4, w, 190, 44, 290, 170, "system properties - display"@);
    window_spec(b5, w, 350, 150, 220, 120, "C:\\system32 - DO NOT OPEN"@)
}

/// The ghost's notepad window showing `text`, with a text cursor after the
/// last character when `blink_on`.
pub open spec fn notepad_spec(buf: Seq<u8>, w: int, text: Seq<char>, blink_on: bool) -> Seq<u8> {
    let b1 = fill_rect_spec(buf, w, 160, 66, 320, 200, [216u8, 216, 214, 235]);
    let b2 = fill_rect_spec(b1, w, 160, 66, 320, 18, [58u8, 74, 122, 245]);
    let b3 = fill_rect_spec(b2, w, 160, 84, 320, 1, [10u8, 10, 12, 255]);
    let b4 = draw_text_spec(b3, w, 166, 166, 71, "untitled - Notepad"@, [235u8, 235, 245, 255], 1);
    let b5 = fill_rect_spec(b4, w, 463, 70, 12, 11, [190u8, 190, 196, 255]);
    let b6 = fill_rect_spec(b5, w, 448, 70, 12, 11, [190u8, 190, 196, 255]);
    let b7 = fill_rect_spec(b6, w, 433, 70, 12, 11, [190u8, 190, 196, 255]);
    let b8 = draw_text_spec(b7, w, 174, 174, 100, text, [24u8, 24, 28, 255], 1);
    if blink_on {
        let cx = 174 + text_width_spec(last_segment(text), 1) + 1;
        let cy = 100 + (newline_count(text) * 8) as int;
        fill_rect_spec(b8, w, cx, cy, 5, 8, [20u8, 20, 26, 255])
    } else {
        b8
    }
}

/// The notepad's drawing arithmetic stays within `i32`.
pub open spec fn notepad_fits(text: Seq<char>, blink_on: bool) -> bool {
    &&& text_arith_ok(174, 174, 100, text, 1)
    &&& blink_on ==> {
        &&& lines_fit(lines_spec(last_segment(text)), 1)
        &&& in_i32(174 + text_width_spec(last_segment(text), 1) + 1 + 5)
        &&& newline_count(text) * 8 + 108 <= i32::MAX
    }
}

pub proof fn lemma_segment_bounds(t: Seq<char>)
    ensures
        last_segment(t).len() <= t.len(),
        newline_count(t) <= t.len(),
    decreases t.len(),
{
    if t.len() > 0 {
        lemma_segment_bounds(t.drop_last());
    }
}

/// Any notepad text of at most 100 000 characters fits.
pub proof fn lemma_notepad_fits(text: Seq<char>, blink_on: bool)
    requires
        text.len() <= 100_000,
    ensures
        notepad_fits(text, blink_on),
{
    lemma_text_fits(174, 174, 100, text, 1, 38_600_000int);
    lemma_segment_bounds(text);
    lemma_text_width_fits(last_segment(text), 1);
    lemma_text_width_bounds(last_segment(text), 1);
}

/// Two decimal digits of `v` (which is below 100).
pub open spec fn two_digits(v: int) -> Seq<char> {
    seq![((v / 10) + 48) as char, ((v % 10) + 48) as char]
}

/// `HH:MM`, zero-padded.
pub open spec fn clock_text(hh: int, mm: int) -> Seq<char> {
    two_digits(hh) + seq![':'] + two_digits(mm)
}

/// The taskbar: bar, top edge, start button with its four-pane logo, and
/// the clock.
pub open spec fn taskbar_spec(buf: Seq<u8>, w: int, hh: int, mm: int) -> Seq<u8> {
    let logo = [225u8, 228, 235, 255];
    let b1 = fill_rect_spec(buf, w, 0, 330, 640, 30, [22u8, 22, 28, 255]);
    let b2 = fill_rect_spec(b1, w, 0, 329, 640, 1, [60u8, 60, 70, 255]);
    let b3 = fill_rect_spec(b2, w, 6, 335, 24, 20, [40u8, 40, 50, 255]);
    let b4 = fill_rect_spec(b3, w, 9, 338, 7, 7, logo);
    let b5 = fill_rect_spec(b4, w, 18, 338, 7, 7, logo);
    let b6 = fill_rect_spec(b5, w, 9, 347, 7, 7, logo);
    let b7 = fill_rect_spec(b6, w, 18, 347, 7, 7, logo);
    draw_text_spec(b7, w, 582, 582, 340, clock_text(hh, mm), [225u8, 225, 232, 255], 1)
}

/// Everything on the watching desktop drawn over the wallpaper: icons,
/// background windows, the ghost's notepad when it is awake (`notepad` is
/// its visible text), and the taskbar with the clock `hh:mm`.
pub open spec fn desktop_overlay_spec(buf: Seq<u8>, w: int, notepad: Option<Seq<char>>, blink_on: bool, hh: int, mm: int) -> Seq<u8> {
    let b1 = desktop_furniture_spec(buf, w);
    let b2 = match notepad {
        Some(t) => notepad_spec(b1, w, t, blink_on),
        None => b1,
    };
    taskbar_spec(b2, w, hh, mm)
}

/// The hour and minute (UTC) of a UNIX timestamp.
pub fn clock_from_unix_secs(secs: u64) -> (r: (u32, u32))
    ensures
        r.0 == (secs / 3600) % 24,
        r.1 == (secs / 60) % 60,
{
    (((secs / 3600) % 24) as u32, ((secs / 60) % 60) as u32)
}

fn digit(d: u32) -> (r: char)
    requires
        d < 10,
    ensures
        r == (d + 48) as char,
{
    ((d as u8) + 48) as char
}

fn format_clock(hh: u32, mm: u32) -> (r: String)
    requires
        hh < 100,
        mm < 100,
    ensures
        r@ == clock_text(hh as int, mm as int),
{
    let mut s = String::new();
    push_char(&mut s, digit(hh / 10));
    push_char(&mut s, digit(hh % 10));
    push_char(&mut s, ':');
    push_char(&mut s, digit(mm / 10));
    push_char(&mut s, digit(mm % 10));
    assert(s@ =~= clock_text(hh as int, mm as int));
    s
}

fn draw_icon(c: &mut PixelCanvas, i: i32, label: &str, col: [u8; 4])
    requires
        old(c).wf(),
        0 <= i < 4,
        label@.len() <= 100,
    ensures
        final(c).wf(),
        final(c).w == old(c).w,
        final(c).h == old(c).h,
        final(c).buf@ == icon_spec(old(c).buf@, old(c).w as int, i as int, label@, col),
{
    let x: i32 = 18;
    let y: i32 = 16 + i * 58;
    c.fill_rect(x, y, 30, 24, [88, 96, 118, 255]);
    c.fill_rect(x + 3, y + 3, 24, 18, [138, 150, 180, 255]);
    proof {
        lemma_text_fits(16, 16, y + 28, label@, 1, 10_000int);
    }
    c.draw_text(x - 2, y + 28, label, col, 1);
}

/// The last line of `text` (after its last newline) and its newline count.
fn cursor_anchor(text: &str) -> (r: (String, usize))
    ensures
        r.0@ == last_segment(text@),
        r.1 == newline_count(text@),
{
    let chars = str_chars(text);
    let mut nl: usize = 0;
    let mut start: usize = 0;
    let mut i: usize = 0;
    while i < chars.len()
        invariant
            chars@ == text@,
            0 <= start <= i <= chars@.len(),
            nl <= i,
            nl == newline_count(chars@.take(i as int)),
            chars@.subrange(start as int, i as int) == last_segment(chars@.take(i as int)),
        decreases chars@.len() - i,
    {
        proof {
            let t = chars@.take(i + 1);
            assert(t.drop_last() =~= chars@.take(i as int));
            assert(t.last() == chars@[i as int]);
        }
        if chars[i] == '\n' {
            nl += 1;
            start = i + 1;
            assert(chars@.subrange(start as int, i + 1) =~= Seq::<char>::empty());
        } else {
            assert(chars@.subrange(start as int, i + 1) =~= chars@.subrange(start as int, i as int).push(chars@[i as int]));
        }
        i += 1;
    }
    assert(chars@.take(chars@.len() as int) =~= chars@);
    let mut last = String::new();
    let mut k = start;
    while k < chars.len()
        invariant
            chars@ == text@,
            start <= k <= chars@.len(),
            last@ == chars@.subrange(start as int, k as int),
        decreases chars@.len() - k,
    {
        push_char(&mut last, chars[k]);
        assert(chars@.subrange(start as int, k + 1) =~= chars@.subrange(start as int, k as int).push(chars@[k as int]));
        k += 1;
    }
    (last, nl)
}

fn draw_notepad(c: &mut PixelCanvas, text: &str, blink_on: bool)
    requires
        old(c).wf(),
        notepad_fits(text@, blink_on),
    ensures
        final(c).wf(),
        final(c).w == old(c).w,
        final(c).h == old(c).h,
        final(c).buf@ == notepad_spec(old(c).buf@, old(c).w as int, text@, blink_on),
{
    let nx: i32 = ((MIRROR_W as i32) - 320) / 2;
    let ny: i32 = 66;
    c.fill_rect(nx, ny, 320, 200, [216, 216, 214, 235]);
    c.fill_rect(nx, ny, 320, 18, [58, 74, 122, 245]);
    c.fill_rect(nx, ny + 18, 320, 1, [10, 10, 12, 255]);
    proof {
        reveal_strlit("untitled - Notepad");
        lemma_text_fits(166, 166, 71, "untitled - Notepad"@, 1, 10_000int);
    }
    c.draw_text(nx + 6, ny + 5, "untitled - Notepad", [235, 235, 245, 255], 1);
    let mut i: i32 = 0;
    let ghost b4 = c.buf@;
    let ghost w = c.w as int;
    while i < 3
        invariant
            c.wf(),
            c.w == old(c).w,
            c.h == old(c).h,
            w == c.w,
            nx == 160, ny == 66,
            0 <= i <= 3,
            i == 0 ==> c.buf@ == b4,
            i == 1 ==> c.buf@ == fill_rect_spec(b4, w, 463, 70, 12, 11, [190u8, 190, 196, 255]),
            i == 2 ==> c.buf@ == fill_rect_spec(fill_rect_spec(b4, w, 463, 70, 12, 11, [190u8, 190, 196, 255]), w, 448, 70, 12, 11, [190u8, 190, 196, 255]),
            i == 3 ==> c.buf@ == fill_rect_spec(fill_rect_spec(fill_rect_spec(b4, w, 463, 70, 12, 11, [190u8, 190, 196, 255]), w, 448, 70, 12, 11, [190u8, 190, 196, 255]), w, 433, 70, 12, 11, [190u8, 190, 196, 255]),
        decreases 3 - i,
    {
        c.fill_rect(nx + 320 - 17 - i * 15, ny + 4, 12, 11, [190, 190, 196, 255]);
        i += 1;
    }
    c.draw_text(nx + 14, ny + 34, text, [24, 24, 28, 255], 1);
    if blink_on {
        let (last, nl) = cursor_anchor(text);
        let cx = nx + 14 + PixelCanvas::text_width(last.as_str(), 1) + 1;
        let lines_len: usize = nl + 1;
        let cy = ny + 34 + ((if lines_len > 1 { lines_len } else { 1 } - 1) * 8) as i32;
        c.fill_rect(cx, cy, 5, 8, [20, 20, 26, 255]);
    }
}

/// Whether `paint_terminal` can echo `terminal` (see `terminal_fits`).
pub fn terminal_fits_check(terminal: &str, blink_on: bool) -> (r: bool)
    ensures
        r == terminal_fits(terminal@, blink_on),
{
    let mut prompt = String::from_str("> ENTER YOUR NAME: ");
    prompt.append(terminal);
    assert(prompt@ == terminal_prompt(terminal@));
    if !text_arith_fits(24, 116, prompt.as_str(), 2) {
        return false;
    }
    if !blink_on {
        return true;
    }
    if !lines_fit_check(prompt.as_str(), 2) {
        return false;
    }
    let tw = PixelCanvas::text_width(prompt.as_str(), 2);
    let e = 24 + tw as i64 + 2 + 10;
    -2147483648 <= e && e <= 2147483647
}

/// Whether `paint_goodbye` can show `text` (see `goodbye_screen_fits`).
pub fn goodbye_screen_fits_check(text: &str) -> (r: bool)
    ensures
        r == goodbye_screen_fits(text@),
{
    if !lines_fit_check(text, 1) {
        return false;
    }
    let tw = PixelCanvas::text_width(text, 1);
    let s = if tw <= 203 { 3 } else { 2 };
    text_arith_fits(40, 56, text, s)
}

/// Whether the notepad can show `text` (see `notepad_fits`).
pub fn notepad_fits_check(text: &str, blink_on: bool) -> (r: bool)
    ensures
        r == notepad_fits(text@, blink_on),
{
    if !text_arith_fits(174, 100, text, 1) {
        return false;
    }
    if !blink_on {
        return true;
    }
    let (last, nl) = cursor_anchor(text);
    if !lines_fit_check(last.as_str(), 1) {
        return false;
    }
    let tw = PixelCanvas::text_width(last.as_str(), 1);
    let e = 174 + tw as i64 + 1 + 5;
    (-2147483648 <= e && e <= 2147483647) && nl as u128 * 8 + 108 <= 2147483647
}

/// Paints everything on the watching desktop over the wallpaper already in
/// `c`: icons, background windows, the ghost's notepad showing `notepad`
/// (when it is awake), and the taskbar with the clock `hh:mm`.
pub fn paint_desktop_overlay(c: &mut PixelCanvas, notepad: Option<&str>, blink_on: bool, hh: u32, mm: u32)
    requires
        old(c).wf(),
        hh < 24,
        mm < 60,
        notepad matches Some(t) ==> notepad_fits(t@, blink_on),
    ensures
        final(c).wf(),
        final(c).w == old(c).w,
        final(c).h == old(c).h,
        final(c).buf@ == desktop_overlay_spec(old(c).buf@, old(c).w as int,
            match notepad { Some(t) => Some(t@), None => None }, blink_on, hh as int, mm as int),
{
    proof {
        reveal_strlit("MY FILES");
        reveal_strlit("RECYCLING");
        reveal_strlit("DOORS");
        reveal_strlit("PHANTASM");
        reveal_strlit("system properties - display");
        reveal_strlit("C:\\system32 - DO NOT OPEN");
        lemma_text_fits(196, 196, 49, "system properties - display"@, 1, 10_000int);
        lemma_text_fits(356, 356, 155, "C:\\system32 - DO NOT OPEN"@, 1, 10_000int);
    }
    draw_icon(c, 0, "MY FILES", [235, 235, 240, 255]);
    draw_icon(c, 1, "RECYCLING", [235, 235, 240, 255]);
    draw_icon(c, 2, "DOORS", [235, 235, 240, 255]);
    draw_icon(c, 3, "PHANTASM", [255, 60, 70, 255]);
    draw_window(c, 190, 44, 290, 170, "system properties - display");
    draw_window(c, 350, 150, 220, 120, "C:\\system32 - DO NOT OPEN");
    match notepad {
        Some(text) => draw_notepad(c, text, blink_on),
        None => {},
    }
    let tb: i32 = MIRROR_H as i32 - 30;
    c.fill_rect(0, tb, MIRROR_W as i32, 30, [22, 22, 28, 255]);
    c.fill_rect(0, tb - 1, MIRROR_W as i32, 1, [60, 60, 70, 255]);
    c.fill_rect(6, tb + 5, 24, 20, [40, 40, 50, 255]);
    c.fill_rect(9, tb + 8, 7, 7, [225, 228, 235, 255]);
    c.fill_rect(18, tb + 8, 7, 7, [225, 228, 235, 255]);
    c.fill_rect(9, tb + 17, 7, 7, [225, 228, 235, 255]);
    c.fill_rect(18, tb + 17, 7, 7, [225, 228, 235, 255]);
    let clock = format_clock(hh, mm);
    proof {
        lemma_text_fits(582, 582, 340, clock@, 1, 10_000int);
    }
    c.draw_text(MIRROR_W as i32 - 58, tb + 10, clock.as_str(), [225, 225, 232, 255], 1);
}

// ----------------------------------------------------------------------
// The painter's script
// ----------------------------------------------------------------------

/// The act the mirror painter is showing.
#[derive(Clone, Copy, Debug, PartialEq, Eq, Structural)]
pub enum Act {
    Boot,
    Terminal,
    Watching,
    Rush,
    Goodbye,
}

/// Longest name the painter echoes at its terminal prompt, in characters.
pub const ECHO_MAX: usize = 16;

pub open spec fn strings_view(v: Seq<String>) -> Seq<Seq<char>> {
    v.map_values(|s: String| s@)
}

/// What the ghost types once the mirror starts watching `name`.
pub open spec fn watching_script_spec(name: Seq<char>) -> Seq<Seq<char>> {
    seq![
        "hello, "@ + str_to_lowercase(name) + "."@,
        "i can see through your desktop."@,
        "do not look away."@,
    ]
}

/// What the ghost types when the rush begins.
pub open spec fn rush_script_spec() -> Seq<Seq<char>> {
    seq!["IT IS TOO LATE."@, "BEHIND YOU."@]
}

/// The message the ghost types, and holds, at the end.
pub open spec fn goodbye_message_spec(name: Seq<char>) -> Seq<char> {
    "THIS IS MINE NOW.\nYOU ARE UNNECESSARY.\nGOODBYE, "@ + str_to_uppercase(name) + "."@
}

pub fn watching_script(name: &str) -> (r: Vec<String>)
    ensures
        strings_view(r@) == watching_script_spec(name@),
{
    let lower = to_lowercase(name);
    let mut first = String::from_str("hello, ");
    first.append(lower.as_str());
    first.append(".");
    let mut v: Vec<String> = Vec::new();
    v.push(first);
    v.push(String::from_str("i can see through your desktop."));
    v.push(String::from_str("do not look away."));
    assert(strings_view(v@) =~= watching_script_spec(name@));
    v
}

pub fn rush_script() -> (r: Vec<String>)
    ensures
        strings_view(r@) == rush_script_spec(),
{
    let mut v: Vec<String> = Vec::new();
    v.push(String::from_str("IT IS TOO LATE."));
    v.push(String::from_str("BEHIND YOU."));
    assert(strings_view(v@) =~= rush_script_spec());
    v
}

pub fn goodbye_message(name: &str) -> (r: String)
    ensures
        r@ == goodbye_message_spec(name@),
{
    let upper = to_uppercase(name);
    let mut m = String::from_str("THIS IS MINE NOW.\nYOU ARE UNNECESSARY.\nGOODBYE, ");
    m.append(upper.as_str());
    m.append(".");
    m
}

/// Echoes one typed character at the painter's terminal prompt, which holds
/// at most `ECHO_MAX` characters.
pub fn echo_terminal_char(buf: &mut String, c: char)
    ensures
        final(buf)@ == if old(buf)@.len() < ECHO_MAX { old(buf)@.push(c) } else { old(buf)@ },
{
    if buf.as_str().unicode_len() < ECHO_MAX {
        push_char(buf, c);
    }
}

// ----------------------------------------------------------------------
// What the screens show
// ----------------------------------------------------------------------

/// Pixel `(px, py)` of `buf`, a canvas `w` pixels wide, has colour `c`.
pub open spec fn pixel_is(buf: Seq<u8>, w: int, px: int, py: int, c: [u8; 4]) -> bool {
    let i = (py * w + px) * 4;
    buf[i] == c[0] && buf[i + 1] == c[1] && buf[i + 2] == c[2] && buf[i + 3] == c[3]
}

proof fn lemma_pixel_index(w: int, h: int, px: int, py: int, k: int)
    requires
        0 <= px < w,
        0 <= py < h,
        0 <= k < 4,
    ensures
        0 <= (py * w + px) * 4 + k < w * h * 4,
        pixel_x((py * w + px) * 4 + k, w) == px,
        pixel_y((py * w + px) * 4 + k, w) == py,
        ((py * w + px) * 4 + k) % 4 == k,
{
    lemma_pixel_of(w, px, py, k);
    assert(0 <= (py * w + px) * 4 + k < w * h * 4) by (nonlinear_arith)
        requires 0 <= px < w, 0 <= py < h, 0 <= k < 4;
}

proof fn lemma_icon_len(buf: Seq<u8>, w: int, i: int, label: Seq<char>, col: [u8; 4])
    ensures
        icon_spec(buf, w, i, label, col).len() == buf.len(),
{
    let y = 16 + i * 58;
    let b2 = fill_rect_spec(fill_rect_spec(buf, w, 18, y, 30, 24, [88u8, 96, 118, 255]), w, 21, y + 3, 24, 18, [138u8, 150, 180, 255]);
    lemma_text_len(b2, w, 16, 16, y + 28, label, col, 1, false);
}

proof fn lemma_window_len(buf: Seq<u8>, w: int, x: int, y: int, ww: int, wh: int, title: Seq<char>)
    ensures
        window_spec(buf, w, x, y, ww, wh, title).len() == buf.len(),
{
    let b1 = fill_rect_spec(buf, w, x, y, ww, wh, [30u8, 30, 38, 255]);
    let b2 = fill_rect_spec(b1, w, x, y, ww, 18, [56u8, 56, 70, 255]);
    let b3 = fill_rect_spec(b2, w, x, y + 18, ww, 1, [10u8, 10, 12, 255]);
    lemma_text_len(b3, w, x + 6, x + 6, y + 5, title, [210u8, 210, 220, 255], 1, false);
}

proof fn lemma_furniture_len(buf: Seq<u8>, w: int)
    ensures
        desktop_furniture_spec(buf, w).len() == buf.len(),
{
    let b1 = icon_spec(buf, w, 0, "MY FILES"@, label_white());
    let b2 = icon_spec(b1, w, 1, "RECYCLING"@, label_white());
    let b3 = icon_spec(b2, w, 2, "DOORS"@, label_white());
    let b4 = icon_spec(b3, w, 3, "PHANTASM"@, [255u8, 60, 70, 255]);
    let b5 = window_spec(b4, w, 190, 44, 290, 170, "system properties - display"@);
    lemma_icon_len(buf, w, 0, "MY FILES"@, label_white());
    lemma_icon_len(b1, w, 1, "RECYCLING"@, label_white());
    lemma_icon_len(b2, w, 2, "DOORS"@, label_white());
    lemma_icon_len(b3, w, 3, "PHANTASM"@, [255u8, 60, 70, 255]);
    lemma_window_len(b4, w, 190, 44, 290, 170, "system properties - display"@);
    lemma_window_len(b5, w, 350, 150, 220, 120, "C:\\system32 - DO NOT OPEN"@);
}

/// The taskbar touches nothing above row 329.
proof fn lemma_taskbar_above(buf: Seq<u8>, w: int, hh: int, mm: int, j: int)
    requires
        0 <= j < buf.len(),
        pixel_y(j, w) < 329,
    ensures
        taskbar_spec(buf, w, hh, mm)[j] == buf[j],
{
    let logo = [225u8, 228, 235, 255];
    let b1 = fill_rect_spec(buf, w, 0, 330, 640, 30, [22u8, 22, 28, 255]);
    let b2 = fill_rect_spec(b1, w, 0, 329, 640, 1, [60u8, 60, 70, 255]);
    let b3 = fill_rect_spec(b2, w, 6, 335, 24, 20, [40u8, 40, 50, 255]);
    let b4 = fill_rect_spec(b3, w, 9, 338, 7, 7, logo);
    let b5 = fill_rect_spec(b4, w, 18, 338, 7, 7, logo);
    let b6 = fill_rect_spec(b5, w, 9, 347, 7, 7, logo);
    let b7 = fill_rect_spec(b6, w, 18, 347, 7, 7, logo);
    assert(b7[j] == buf[j]);
    if text_covers(582, 582, 340, clock_text(hh, mm), 1, pixel_x(j, w), pixel_y(j, w)) {
        lemma_text_covers_below(582, 582, 340, clock_text(hh, mm), 1, pixel_x(j, w), pixel_y(j, w));
    }
    lemma_text_local(b7, w, 582, 582, 340, clock_text(hh, mm), [225u8, 225, 232, 255], 1, false, j);
}

/// The awake notepad shows the ghost's text: every pixel that the glyphs of
/// `text` cover when drawn from `(174, 100)` at scale 1, above the taskbar,
/// is in the notepad's ink `[24, 24, 28, 255]` (or, while the cursor blinks
/// on, possibly in the cursor's colour).
pub proof fn lemma_notepad_shows_text(buf: Seq<u8>, w: int, h: int, text: Seq<char>, blink_on: bool, hh: int, mm: int, px: int, py: int)
    requires
        buf.len() == w * h * 4,
        0 <= px < w,
        0 <= py < h,
        py < 329,
        text_covers(174, 174, 100, text, 1, px, py),
    ensures
        pixel_is(desktop_overlay_spec(buf, w, Some(text), blink_on, hh, mm), w, px, py, [24u8, 24, 28, 255])
            || (blink_on && pixel_is(desktop_overlay_spec(buf, w, Some(text), blink_on, hh, mm), w, px, py, [20u8, 20, 26, 255])),
        !blink_on ==> pixel_is(desktop_overlay_spec(buf, w, Some(text), blink_on, hh, mm), w, px, py, [24u8, 24, 28, 255]),
{
    let ink = [24u8, 24, 28, 255];
    let b1 = desktop_furniture_spec(buf, w);
    lemma_furniture_len(buf, w);
    let n1 = fill_rect_spec(b1, w, 160, 66, 320, 200, [216u8, 216, 214, 235]);
    let n2 = fill_rect_spec(n1, w, 160, 66, 320, 18, [58u8, 74, 122, 245]);
    let n3 = fill_rect_spec(n2, w, 160, 84, 320, 1, [10u8, 10, 12, 255]);
    let n4 = draw_text_spec(n3, w, 166, 166, 71, "untitled - Notepad"@, [235u8, 235, 245, 255], 1);
    lemma_text_len(n3, w, 166, 166, 71, "untitled - Notepad"@, [235u8, 235, 245, 255], 1, false);
    let n5 = fill_rect_spec(n4, w, 463, 70, 12, 11, [190u8, 190, 196, 255]);
    let n6 = fill_rect_spec(n5, w, 448, 70, 12, 11, [190u8, 190, 196, 255]);
    let n7 = fill_rect_spec(n6, w, 433, 70, 12, 11, [190u8, 190, 196, 255]);
    lemma_text_exact(n7, w, 174, 174, 100, text, ink, 1, false);
    let nb = notepad_spec(b1, w, text, blink_on);
    let r = desktop_overlay_spec(buf, w, Some(text), blink_on, hh, mm);
    assert(r == taskbar_spec(nb, w, hh, mm));
    let i = (py * w + px) * 4;
    lemma_pixel_index(w, h, px, py, 0);
    lemma_pixel_index(w, h, px, py, 1);
    lemma_pixel_index(w, h, px, py, 2);
    lemma_pixel_index(w, h, px, py, 3);
    lemma_taskbar_above(nb, w, hh, mm, i);
    lemma_taskbar_above(nb, w, hh, mm, i + 1);
    lemma_taskbar_above(nb, w, hh, mm, i + 2);
    lemma_taskbar_above(nb, w, hh, mm, i + 3);
}

/// The terminal screen echoes what was typed: every pixel that the glyphs of
/// `"> ENTER YOUR NAME: "` followed by `terminal` cover when drawn from
/// `(24, 116)` at scale 2 is terminal green, wherever the scanline pass
/// leaves it (rows not divisible by 3, and odd columns).
pub proof fn lemma_terminal_echoes(w: int, h: int, terminal: Seq<char>, blink_on: bool, px: int, py: int)
    requires
        0 <= px < w,
        0 <= py < h,
        py % 3 != 0 || px % 2 == 1,
        text_covers(24, 24, 116, "> ENTER YOUR NAME: "@ + terminal, 2, px, py),
    ensures
        pixel_is(terminal_spec((w * h * 4) as nat, w, terminal, blink_on), w, px, py, [70u8, 255, 140, 255]),
{
    let g = terminal_green();
    assert(0 <= w * h * 4) by (nonlinear_arith) requires 0 <= px < w, 0 <= py < h;
    let b0 = fill_spec((w * h * 4) as nat, [4u8, 6, 4, 255]);
    let b1 = draw_text_spec(b0, w, 24, 24, 26, "PHANTASM BIOS v0.9.7"@, g, 2);
    let b2 = draw_text_spec(b1, w, 24, 24, 54, "NO OPERATOR PROFILE FOUND ON THIS MACHINE."@, g, 1);
    let b3 = draw_text_spec(b2, w, 24, 24, 68, "LOCAL RECONNAISSANCE FAILED. FALLING BACK"@, g, 1);
    let b4 = draw_text_spec(b3, w, 24, 24, 82, "TO MANUAL IDENTIFICATION."@, g, 1);
    lemma_text_len(b0, w, 24, 24, 26, "PHANTASM BIOS v0.9.7"@, g, 2, false);
    lemma_text_len(b1, w, 24, 24, 54, "NO OPERATOR PROFILE FOUND ON THIS MACHINE."@, g, 1, false);
    lemma_text_len(b2, w, 24, 24, 68, "LOCAL RECONNAISSANCE FAILED. FALLING BACK"@, g, 1, false);
    lemma_text_len(b3, w, 24, 24, 82, "TO MANUAL IDENTIFICATION."@, g, 1, false);
    let p = terminal_prompt(terminal);
    lemma_text_exact(b4, w, 24, 24, 116, p, g, 2, false);
    lemma_pixel_index(w, h, px, py, 0);
    lemma_pixel_index(w, h, px, py, 1);
    lemma_pixel_index(w, h, px, py, 2);
    lemma_pixel_index(w, h, px, py, 3);
}

/// Whether every line of `ls` is at most `34` characters long is whether
/// their widest width at scale 1 (with `best` so far) stays within 203.
proof fn lemma_widest_short(best: Option<int>, ls: Seq<Seq<char>>)
    ensures
        (match widest_from(best, ls, 1) { Some(v) => v <= 203, None => true })
            <==> ((match best { Some(b) => b <= 203, None => true })
                && forall|i: int| 0 <= i < ls.len() ==> (#[trigger] ls[i]).len() <= 34),
    decreases ls.len(),
{
    if ls.len() > 0 {
        let rest = ls.drop_first();
        lemma_widest_short(max_opt(best, line_width(ls[0].len() as int, 1)), rest);
        assert((forall|i: int| 0 <= i < ls.len() ==> (#[trigger] ls[i]).len() <= 34)
            <==> (ls[0].len() <= 34 && forall|i: int| 0 <= i < rest.len() ==> (#[trigger] rest[i]).len() <= 34)) by {
            if ls[0].len() <= 34 && forall|i: int| 0 <= i < rest.len() ==> (#[trigger] rest[i]).len() <= 34 {
                assert forall|i: int| 0 <= i < ls.len() implies (#[trigger] ls[i]).len() <= 34 by {
                    if i > 0 {
                        assert(ls[i] == rest[i - 1]);
                    }
                }
            }
            if forall|i: int| 0 <= i < ls.len() ==> (#[trigger] ls[i]).len() <= 34 {
                assert forall|i: int| 0 <= i < rest.len() implies (#[trigger] rest[i]).len() <= 34 by {
                    assert(rest[i] == ls[i + 1]);
                }
            }
        }
    }
}

/// A pixel of the farewell screen showing the ghost's red ink or a static
/// speck.
pub open spec fn red_or_speck(buf: Seq<u8>, w: int, px: int, py: int) -> bool {
    pixel_is(buf, w, px, py, [255u8, 26, 40, 255])
        || exists|v: int| 25 <= v < 95 && pixel_is(buf, w, px, py, #[trigger] speck_color(v))
}

/// Static only ever turns a pixel into a speck.
proof fn lemma_static_keeps_ink(buf: Seq<u8>, w: int, h: int, s: u32, k: nat, px: int, py: int)
    requires
        buf.len() == w * h * 4,
        0 <= px < w,
        0 <= py < h,
        red_or_speck(buf, w, px, py),
    ensures
        static_noise_spec(buf, w, s, k).0.len() == buf.len(),
        red_or_speck(static_noise_spec(buf, w, s, k).0, w, px, py),
    decreases k,
{
    if k > 0 {
        let s1 = xorshift_spec(s);
        let s2 = xorshift_spec(s1);
        let s3 = xorshift_spec(s2);
        let x = range_pick_spec(s1, MIRROR_W);
        let y = range_pick_spec(s2, MIRROR_H);
        let v = range_pick_spec(s3, 70) + 25;
        let b = fill_rect_spec(buf, w, x as int, y as int, 1, 1, speck_color(v));
        lemma_pixel_index(w, h, px, py, 0);
        lemma_pixel_index(w, h, px, py, 1);
        lemma_pixel_index(w, h, px, py, 2);
        lemma_pixel_index(w, h, px, py, 3);
        if in_rect_at(px, py, x as int, y as int) {
            assert(pixel_is(b, w, px, py, speck_color(v)));
        } else {
            assert(pixel_is(b, w, px, py, [255u8, 26, 40, 255]) <==> pixel_is(buf, w, px, py, [255u8, 26, 40, 255]));
            if !pixel_is(buf, w, px, py, [255u8, 26, 40, 255]) {
                let v0 = choose|v0: int| 25 <= v0 < 95 && pixel_is(buf, w, px, py, #[trigger] speck_color(v0));
                assert(pixel_is(b, w, px, py, speck_color(v0)));
            }
        }
        lemma_static_keeps_ink(b, w, h, s3, (k - 1) as nat, px, py);
    }
}

spec fn in_rect_at(px: int, py: int, x: int, y: int) -> bool {
    px == x && py == y
}

/// The farewell screen shows the ghost's text: every pixel that the glyphs
/// of `text` cover when drawn from `(40, 56)` at scale 3 (when no line is
/// longer than 34 characters) or 2 is the ghost's red `[255, 26, 40, 255]`,
/// unless a static speck or the blinking ownership notice lies over it.
pub proof fn lemma_goodbye_screen_shows_text(w: int, h: int, text: Seq<char>, s0: u32, blink_on: bool, scale: int, px: int, py: int)
    requires
        0 <= px < w,
        0 <= py < h,
        scale == (if forall|i: int| 0 <= i < lines_spec(text).len() ==> (#[trigger] lines_spec(text)[i]).len() <= 34 { 3int } else { 2int }),
        text_covers(40, 40, 56, text, scale, px, py),
    ensures
        red_or_speck(goodbye_screen_spec((w * h * 4) as nat, w, text, s0, blink_on).0, w, px, py)
            || (blink_on && pixel_is(goodbye_screen_spec((w * h * 4) as nat, w, text, s0, blink_on).0, w, px, py, [130u8, 28, 34, 255])),
{
    let red = [255u8, 26, 40, 255];
    lemma_widest_short(None, lines_spec(text));
    assert(goodbye_scale(text) == scale);
    assert(0 <= w * h * 4) by (nonlinear_arith) requires 0 <= px < w, 0 <= py < h;
    let b0 = fill_spec((w * h * 4) as nat, [4u8, 2, 3, 255]);
    lemma_text_exact(b0, w, 40, 40, 56, text, red, scale, false);
    let b1 = draw_text_spec(b0, w, 40, 40, 56, text, red, scale);
    lemma_pixel_index(w, h, px, py, 0);
    lemma_pixel_index(w, h, px, py, 1);
    lemma_pixel_index(w, h, px, py, 2);
    lemma_pixel_index(w, h, px, py, 3);
    assert(pixel_is(b1, w, px, py, red));
    lemma_static_keeps_ink(b1, w, h, s0, STATIC_SPECKS as nat, px, py);
    let b2 = static_noise_spec(b1, w, s0, STATIC_SPECKS as nat).0;
    if blink_on {
        let notice = "THIS TERMINAL NO LONGER BELONGS TO YOU"@;
        let dark = [130u8, 28, 34, 255];
        let i = (py * w + px) * 4;
        if text_covers(40, 40, 300, notice, 1, px, py) {
            lemma_text_exact(b2, w, 40, 40, 300, notice, dark, 1, false);
        } else {
            lemma_text_local(b2, w, 40, 40, 300, notice, dark, 1, false, i);
            lemma_text_local(b2, w, 40, 40, 300, notice, dark, 1, false, i + 1);
            lemma_text_local(b2, w, 40, 40, 300, notice, dark, 1, false, i + 2);
            lemma_text_local(b2, w, 40, 40, 300, notice, dark, 1, false, i + 3);
            let b3 = draw_text_spec(b2, w, 40, 40, 300, notice, dark, 1);
            assert(pixel_is(b3, w, px, py, red) <==> pixel_is(b2, w, px, py, red));
            if !pixel_is(b2, w, px, py, red) {
                let v0 = choose|v0: int| 25 <= v0 < 95 && pixel_is(b2, w, px, py, #[trigger] speck_color(v0));
                assert(pixel_is(b3, w, px, py, speck_color(v0)));
            }
        }
    }
}

} // verus!
