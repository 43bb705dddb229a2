//! The sprite foundry's farewell texture. (The monster sheet itself is
//! shaded with floating-point geometry and is painted by the application.)

use vstd::prelude::*;
use crate::canvas::{PixelCanvas, draw_text_spec, draw_text_spec_as, text_width_spec, text_arith_ok, lines_fit, in_i32,
    lemma_text_fits, lemma_text_width_fits, lemma_text_width_bounds, paint_where_as, text_covers, lemma_text_exact,
    lemma_text_covers_shift, lemma_pixel_of, lines_fit_check, text_arith_fits};
use crate::text::{lines_spec, str_to_uppercase, to_uppercase};

verus! {

pub const FRAME_PX: usize = 256;
pub const SHEET_COLS: usize = 4;
pub const SHEET_ROWS: usize = 2;
pub const FRAME_COUNT: usize = 8;

pub const GOODBYE_W: usize = 480;
pub const GOODBYE_H: usize = 160;

/// Upper-cased names of at most this many characters always fit (see
/// `lemma_goodbye_fits`).
pub const GOODBYE_NAME_LIMIT: usize = 90_000_000;

/// `v / 2` rounded toward zero, as `i32` division does.
pub open spec fn trunc_half(v: int) -> int {
    if v >= 0 { v / 2 } else { -((-v) / 2) }
}

/// Left edge that centres text `tw` pixels wide on a canvas `cw` wide.
pub open spec fn centre_x(cw: int, tw: int) -> int {
    trunc_half(cw - tw)
}

/// The three farewell lines for an already upper-cased name.
pub open spec fn goodbye_lines(upper: Seq<char>) -> Seq<Seq<char>> {
    seq!["THIS IS MINE NOW."@, "YOU ARE UNNECESSARY."@, "GOODBYE, "@ + upper + "."@]
}

pub open spec fn goodbye_red() -> [u8; 4] {
    [255u8, 24, 36, 255]
}

pub open spec fn goodbye_shadow() -> [u8; 4] {
    [0u8, 0, 0, 220]
}

/// One farewell line centred at row `y`: a drop shadow 2 px down-right,
/// stamped in translucent black so that it stays visible on the transparent
/// canvas, then the red text over it, both at scale 2.
pub open spec fn goodbye_line_spec(buf: Seq<u8>, line: Seq<char>, y: int) -> Seq<u8> {
    let x = centre_x(GOODBYE_W as int, text_width_spec(line, 2));
    let shadowed = draw_text_spec_as(buf, GOODBYE_W as int, x + 2, x + 2, y + 2, line, goodbye_shadow(), 2, true);
    draw_text_spec(shadowed, GOODBYE_W as int, x, x, y, line, goodbye_red(), 2)
}

/// The drawing arithmetic of one centred farewell line stays within `i32`.
pub open spec fn goodbye_line_fits(line: Seq<char>, y: int) -> bool {
    let tw = text_width_spec(line, 2);
    let x = centre_x(GOODBYE_W as int, tw);
    &&& lines_fit(lines_spec(line), 2)
    &&& in_i32(GOODBYE_W - tw)
    &&& in_i32(x + 2)
    &&& in_i32(y + 2)
    &&& text_arith_ok(x + 2, x + 2, y + 2, line, 2)
    &&& text_arith_ok(x, x, y, line, 2)
}

pub open spec fn goodbye_fits(upper: Seq<char>) -> bool {
    let ls = goodbye_lines(upper);
    goodbye_line_fits(ls[0], 38) && goodbye_line_fits(ls[1], 64) && goodbye_line_fits(ls[2], 90)
}

/// The farewell texture for upper-cased name `upper`: a transparent
/// 480x160 canvas with the three lines centred at rows 38, 64 and 90.
pub open spec fn goodbye_spec(upper: Seq<char>) -> Seq<u8> {
    let ls = goodbye_lines(upper);
    let blank = Seq::new((GOODBYE_W * GOODBYE_H * 4) as nat, |j: int| 0u8);
    goodbye_line_spec(goodbye_line_spec(goodbye_line_spec(blank, ls[0], 38), ls[1], 64), ls[2], 90)
}

/// A line of at most `GOODBYE_NAME_LIMIT + 10` characters fits.
pub proof fn lemma_goodbye_line_fits(line: Seq<char>, y: int)
    requires
        line.len() <= GOODBYE_NAME_LIMIT + 10,
        0 <= y <= 100,
    ensures
        goodbye_line_fits(line, y),
{
    let n = line.len() as int;
    lemma_text_width_fits(line, 2);
    lemma_text_width_bounds(line, 2);
    let tw = text_width_spec(line, 2);
    let x = centre_x(GOODBYE_W as int, tw);
    assert(-6 * n - 1 <= x <= 241);
    let k = 6 * n + 300;
    lemma_text_fits(x + 2, x + 2, y + 2, line, 2, k);
    lemma_text_fits(x, x, y, line, 2, k);
}

pub proof fn lemma_goodbye_fits(upper: Seq<char>)
    requires
        upper.len() <= GOODBYE_NAME_LIMIT,
    ensures
        goodbye_fits(upper),
{
    reveal_strlit("THIS IS MINE NOW.");
    reveal_strlit("YOU ARE UNNECESSARY.");
    reveal_strlit("GOODBYE, ");
    reveal_strlit(".");
    let ls = goodbye_lines(upper);
    lemma_goodbye_line_fits(ls[0], 38);
    lemma_goodbye_line_fits(ls[1], 64);
    lemma_goodbye_line_fits(ls[2], 90);
}

/// Pixel `(px, py)` of a farewell texture `t` has colour `c`.
pub open spec fn texel_is(t: Seq<u8>, px: int, py: int, c: [u8; 4]) -> bool {
    let i = (py * GOODBYE_W + px) * 4;
    t[i] == c[0] && t[i + 1] == c[1] && t[i + 2] == c[2] && t[i + 3] == c[3]
}

/// Left edge of a centred farewell line.
pub open spec fn goodbye_line_x(line: Seq<char>) -> int {
    centre_x(GOODBYE_W as int, text_width_spec(line, 2))
}

/// A farewell line is two exact layers: the shadow's pixels set to the
/// shadow colour, then the text's pixels set to red.
proof fn lemma_line_layers(buf: Seq<u8>, line: Seq<char>, y: int)
    ensures
        goodbye_line_spec(buf, line, y) == paint_where_as(
            paint_where_as(buf, GOODBYE_W as int, goodbye_shadow(),
                |px: int, py: int| text_covers(goodbye_line_x(line) + 2, goodbye_line_x(line) + 2, y + 2, line, 2, px, py), true),
            GOODBYE_W as int, goodbye_red(),
            |px: int, py: int| text_covers(goodbye_line_x(line), goodbye_line_x(line), y, line, 2, px, py), true),
{
    let x = goodbye_line_x(line);
    let w = GOODBYE_W as int;
    lemma_text_exact(buf, w, x + 2, x + 2, y + 2, line, goodbye_shadow(), 2, true);
    let shadowed = draw_text_spec_as(buf, w, x + 2, x + 2, y + 2, line, goodbye_shadow(), 2, true);
    lemma_text_exact(shadowed, w, x, x, y, line, goodbye_red(), 2, false);
}

/// The drop shadow is visible: 2 px down and right of every red pixel of the
/// farewell texture lies either more red text or the shadow, black at
/// alpha 220 — never bare transparency.
pub proof fn lemma_goodbye_shadow_visible(upper: Seq<char>, px: int, py: int)
    requires
        0 <= px < GOODBYE_W - 2,
        0 <= py < GOODBYE_H - 2,
        texel_is(goodbye_spec(upper), px, py, goodbye_red()),
    ensures
        texel_is(goodbye_spec(upper), px + 2, py + 2, goodbye_red())
            || texel_is(goodbye_spec(upper), px + 2, py + 2, goodbye_shadow()),
{
    let w = GOODBYE_W as int;
    let ls = goodbye_lines(upper);
    let blank = Seq::new((GOODBYE_W * GOODBYE_H * 4) as nat, |j: int| 0u8);
    let l1 = goodbye_line_spec(blank, ls[0], 38);
    let l2 = goodbye_line_spec(l1, ls[1], 64);
    lemma_line_layers(blank, ls[0], 38);
    lemma_line_layers(l1, ls[1], 64);
    lemma_line_layers(l2, ls[2], 90);
    let x0 = goodbye_line_x(ls[0]);
    let x1 = goodbye_line_x(ls[1]);
    let x2 = goodbye_line_x(ls[2]);
    lemma_text_covers_shift(x0, x0, 38, ls[0], 2, px, py, 2, 2);
    lemma_text_covers_shift(x1, x1, 64, ls[1], 2, px, py, 2, 2);
    lemma_text_covers_shift(x2, x2, 90, ls[2], 2, px, py, 2, 2);
    lemma_pixel_of(w, px, py, 0);
    lemma_pixel_of(w, px, py, 1);
    lemma_pixel_of(w, px, py, 2);
    lemma_pixel_of(w, px, py, 3);
    lemma_pixel_of(w, px + 2, py + 2, 0);
    lemma_pixel_of(w, px + 2, py + 2, 1);
    lemma_pixel_of(w, px + 2, py + 2, 2);
    lemma_pixel_of(w, px + 2, py + 2, 3);
}

/// The name enters the farewell texture only upper-cased: names with equal
/// upper-case forms give equal textures, each of 480 x 160 RGBA pixels.
pub proof fn lemma_goodbye_depends_on_upper(a: Seq<char>, b: Seq<char>)
    requires
        str_to_uppercase(a) == str_to_uppercase(b),
    ensures
        goodbye_spec(str_to_uppercase(a)) == goodbye_spec(str_to_uppercase(b)),
        goodbye_spec(str_to_uppercase(a)).len() == GOODBYE_W * GOODBYE_H * 4,
{
    let ls = goodbye_lines(str_to_uppercase(a));
    let blank = Seq::new((GOODBYE_W * GOODBYE_H * 4) as nat, |j: int| 0u8);
    let l1 = goodbye_line_spec(blank, ls[0], 38);
    let l2 = goodbye_line_spec(l1, ls[1], 64);
    lemma_line_layers(blank, ls[0], 38);
    lemma_line_layers(l1, ls[1], 64);
    lemma_line_layers(l2, ls[2], 90);
}

fn draw_goodbye_line(c: &mut PixelCanvas, line: &str, y: i32)
    requires
        old(c).wf(),
        old(c).w == GOODBYE_W,
        goodbye_line_fits(line@, y as int),
    ensures
        final(c).wf(),
        final(c).w == old(c).w,
        final(c).h == old(c).h,
        final(c).buf@ == goodbye_line_spec(old(c).buf@, line@, y as int),
{
    let w = PixelCanvas::text_width(line, 2);
    let x = (GOODBYE_W as i32 - w) / 2;
    assert(x == centre_x(GOODBYE_W as int, w as int));
    c.stamp_text(x + 2, y + 2, line, [0, 0, 0, 220], 2);
    c.draw_text(x, y, line, [255, 24, 36, 255], 2);
}

/// Renders the farewell texture for a name that is already upper case.
pub fn render_goodbye(upper: &str) -> (r: Vec<u8>)
    requires
        goodbye_fits(upper@),
    ensures
        r@ == goodbye_spec(upper@),
{
    let mut c = PixelCanvas::new(GOODBYE_W, GOODBYE_H);
    let mut l3 = String::from_str("GOODBYE, ");
    l3.append(upper);
    l3.append(".");
    let ghost ls = goodbye_lines(upper@);
    assert(l3@ == ls[2]);
    draw_goodbye_line(&mut c, "THIS IS MINE NOW.", 38);
    draw_goodbye_line(&mut c, "YOU ARE UNNECESSARY.", 64);
    draw_goodbye_line(&mut c, l3.as_str(), 90);
    c.into_buf()
}

/// The farewell texture: "THIS IS MINE NOW. / YOU ARE UNNECESSARY. /
/// GOODBYE, [NAME]." in red with a drop shadow, 480x160 RGBA.
pub fn generate_goodbye_texture(name: &str) -> (r: Vec<u8>)
    requires
        goodbye_fits(str_to_uppercase(name@)),
    ensures
        r@ == goodbye_spec(str_to_uppercase(name@)),
{
    let upper = to_uppercase(name);
    render_goodbye(upper.as_str())
}

/// Whether one farewell line centred at row `y` can be drawn within `i32`.
fn goodbye_line_fits_check(line: &str, y: i32) -> (r: bool)
    requires
        0 <= y <= 100,
    ensures
        r == goodbye_line_fits(line@, y as int),
{
    if !lines_fit_check(line, 2) {
        return false;
    }
    let tw = PixelCanvas::text_width(line, 2);
    let d = GOODBYE_W as i64 - tw as i64;
    if !(-2147483648 <= d && d <= 2147483647) {
        return false;
    }
    let x = (d as i32) / 2;
    assert(x == centre_x(GOODBYE_W as int, tw as int));
    if !(x as i64 + 2 <= 2147483647) {
        return false;
    }
    text_arith_fits(x + 2, y + 2, line, 2) && text_arith_fits(x, y, line, 2)
}

/// `generate_goodbye_texture` for every name whose farewell lines can be
/// drawn within `i32` coordinates; `None` for the others.
pub fn goodbye_texture_checked(name: &str) -> (r: Option<Vec<u8>>)
    ensures
        r is Some <==> goodbye_fits(str_to_uppercase(name@)),
        r matches Some(v) ==> v@ == goodbye_spec(str_to_uppercase(name@)),
{
    let upper = to_uppercase(name);
    let mut l3 = String::from_str("GOODBYE, ");
    l3.append(upper.as_str());
    l3.append(".");
    let ghost ls = goodbye_lines(upper@);
    assert(l3@ == ls[2]);
    let fits = goodbye_line_fits_check("THIS IS MINE NOW.", 38)
        && goodbye_line_fits_check("YOU ARE UNNECESSARY.", 64)
        && goodbye_line_fits_check(l3.as_str(), 90);
    if fits {
        Some(generate_goodbye_texture(name))
    } else {
        None
    }
}

} // verus!
