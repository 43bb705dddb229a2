//! Tiny CPU rasteriser over an RGBA8 (straight alpha) buffer, and the
//! xorshift32 generator used by every procedural painter.

use vstd::prelude::*;
use vstd::arithmetic::div_mod::lemma_fundamental_div_mod_converse;
use crate::rounding::{round_f32, round_sig24};
use crate::font::{glyph, glyph_spec};
use crate::text::{str_chars, lines_from, lines_spec, strip_cr};

verus! {

// ----------------------------------------------------------------------
// Pixel model
// ----------------------------------------------------------------------

/// One colour channel of `s` with alpha `a` composited over `d`, rounded to
/// the nearest integer: `round(s * a/255 + d * (1 - a/255))`.
/// (The exact value is never a tie, since 255 is odd.)
pub open spec fn blend_spec(d: u8, s: u8, a: u8) -> u8 {
    ((2 * (s * a + d * (255 - a)) + 255) / 510) as u8
}

/// Channel `k` of a pixel whose old value is `old`, after painting colour `c`.
/// When blending (`replace` false), opaque colours replace all four channels
/// and translucent ones blend the colour channels, leaving alpha alone; when
/// replacing, the colour is written as it is, alpha included.
pub open spec fn paint_channel_as(old: u8, k: int, c: [u8; 4], replace: bool) -> u8 {
    if replace || c[3] == 255 {
        c[k]
    } else if k < 3 {
        blend_spec(old, c[k], c[3])
    } else {
        old
    }
}

/// Channel `k` of a pixel after blending colour `c` onto it.
pub open spec fn paint_channel(old: u8, k: int, c: [u8; 4]) -> u8 {
    paint_channel_as(old, k, c, false)
}

/// Column of the pixel that byte `j` belongs to, in a canvas `w` pixels wide.
pub open spec fn pixel_x(j: int, w: int) -> int {
    (j / 4) % w
}

/// Row of the pixel that byte `j` belongs to, in a canvas `w` pixels wide.
pub open spec fn pixel_y(j: int, w: int) -> int {
    (j / 4) / w
}

pub open spec fn in_rect(px: int, py: int, x: int, y: int, rw: int, rh: int) -> bool {
    x <= px < x + rw && y <= py < y + rh
}

/// Paints colour `c` onto every pixel selected by `sel`, leaving the others.
pub open spec fn paint_where_as(buf: Seq<u8>, w: int, c: [u8; 4], sel: spec_fn(int, int) -> bool, replace: bool) -> Seq<u8> {
    Seq::new(
        buf.len(),
        |j: int|
            if sel(pixel_x(j, w), pixel_y(j, w)) {
                paint_channel_as(buf[j], j % 4, c, replace)
            } else {
                buf[j]
            },
    )
}

/// Blends colour `c` onto every pixel selected by `sel`, leaving the others.
pub open spec fn paint_where(buf: Seq<u8>, w: int, c: [u8; 4], sel: spec_fn(int, int) -> bool) -> Seq<u8> {
    paint_where_as(buf, w, c, sel, false)
}

/// The buffer after painting the rectangle at `(x, y)` of size `rw` x `rh`
/// (clipped to the canvas) with `c`.
pub open spec fn fill_rect_spec_as(buf: Seq<u8>, w: int, x: int, y: int, rw: int, rh: int, c: [u8; 4], replace: bool) -> Seq<u8> {
    paint_where_as(buf, w, c, |px: int, py: int| in_rect(px, py, x, y, rw, rh), replace)
}

/// The buffer after filling the rectangle at `(x, y)` of size `rw` x `rh`
/// (clipped to the canvas) with `c`, blending.
pub open spec fn fill_rect_spec(buf: Seq<u8>, w: int, x: int, y: int, rw: int, rh: int, c: [u8; 4]) -> Seq<u8> {
    fill_rect_spec_as(buf, w, x, y, rw, rh, c, false)
}

pub proof fn lemma_pixel_bounds(j: int, w: int, h: int)
    requires
        0 <= j < w * h * 4,
        w > 0,
        h >= 0,
    ensures
        0 <= pixel_x(j, w) < w,
        0 <= pixel_y(j, w) < h,
        j == (pixel_y(j, w) * w + pixel_x(j, w)) * 4 + j % 4,
        0 <= j % 4 < 4,
{
    let p = j / 4;
    assert(p < w * h) by (nonlinear_arith)
        requires 0 <= j < w * h * 4, p == j / 4;
    assert(0 <= p);
    assert(p == (p / w) * w + p % w) by (nonlinear_arith) requires w > 0;
    assert(p / w < h) by (nonlinear_arith)
        requires 0 <= p < w * h, w > 0;
    assert(p / w >= 0) by (nonlinear_arith) requires p >= 0, w > 0;
    assert(j == p * 4 + j % 4);
}

pub proof fn lemma_pixel_of(w: int, x: int, y: int, k: int)
    requires
        0 <= x < w,
        0 <= y,
        0 <= k < 4,
    ensures
        pixel_x((y * w + x) * 4 + k, w) == x,
        pixel_y((y * w + x) * 4 + k, w) == y,
        ((y * w + x) * 4 + k) % 4 == k,
{
    let j = (y * w + x) * 4 + k;
    let p = y * w + x;
    lemma_fundamental_div_mod_converse(j, 4, p, k);
    assert(p == y * w + x);
    lemma_fundamental_div_mod_converse(p, w, y, x);
}

/// Painting two disjoint selections one after the other paints their union.
pub proof fn lemma_paint_union(buf: Seq<u8>, w: int, c: [u8; 4], s1: spec_fn(int, int) -> bool, s2: spec_fn(int, int) -> bool, replace: bool)
    requires
        forall|px: int, py: int| !(#[trigger] s1(px, py) && #[trigger] s2(px, py)),
    ensures
        paint_where_as(paint_where_as(buf, w, c, s1, replace), w, c, s2, replace)
            == paint_where_as(buf, w, c, |px: int, py: int| s1(px, py) || s2(px, py), replace),
{
    let a = paint_where_as(paint_where_as(buf, w, c, s1, replace), w, c, s2, replace);
    let b = paint_where_as(buf, w, c, |px: int, py: int| s1(px, py) || s2(px, py), replace);
    assert forall|j: int| 0 <= j < buf.len() implies a[j] == b[j] by {
        let px = pixel_x(j, w);
        let py = pixel_y(j, w);
        assert(!(s1(px, py) && s2(px, py)));
    }
    assert(a =~= b);
}

// ----------------------------------------------------------------------
// Canvas
// ----------------------------------------------------------------------

pub struct PixelCanvas {
    pub w: usize,
    pub h: usize,
    /// RGBA8, straight alpha, row-major.
    pub buf: Vec<u8>,
}

/// Straight-alpha blend of one channel (see `blend_spec`).
pub fn blend_channel(d: u8, s: u8, a: u8) -> (r: u8)
    ensures
        r == blend_spec(d, s, a),
{
    let s32 = s as u32;
    let d32 = d as u32;
    let a32 = a as u32;
    assert(s32 * a32 + d32 * (255 - a32) <= 255 * 255) by (nonlinear_arith)
        requires s32 <= 255, d32 <= 255, a32 <= 255;
    let v = (2 * (s32 * a32 + d32 * (255 - a32)) + 255) / 510;
    v as u8
}

impl PixelCanvas {
    /// The buffer holds exactly `w * h` RGBA pixels.
    pub open spec fn sized(&self) -> bool {
        self.buf@.len() == self.w * self.h * 4
    }

    /// A sized canvas whose dimensions fit the `i32` coordinates that the
    /// drawing operations take.
    pub open spec fn wf(&self) -> bool {
        &&& self.sized()
        &&& self.w <= i32::MAX
        &&& self.h <= i32::MAX
    }

    /// A fully transparent `w` x `h` canvas.
    pub fn new(w: usize, h: usize) -> (r: Self)
        requires
            w * h * 4 <= usize::MAX,
        ensures
            r.sized(),
            r.wf() <==> (w <= i32::MAX && h <= i32::MAX),
            r.w == w,
            r.h == h,
            r.buf@ == Seq::new((w * h * 4) as nat, |j: int| 0u8),
    {
        assert(w * h <= w * h * 4) by (nonlinear_arith) requires w * h >= 0;
        let n = w * h * 4;
        let buf = vec![0u8; n];
        let r = PixelCanvas { w, h, buf };
        assert(r.buf@ =~= Seq::new((w * h * 4) as nat, |j: int| 0u8));
        r
    }

    pub fn into_buf(self) -> (r: Vec<u8>)
        ensures
            r@ == self.buf@,
    {
        self.buf
    }

    /// Every pixel becomes exactly `c` (no blending).
    pub fn fill(&mut self, c: [u8; 4])
        requires
            old(self).sized(),
        ensures
            final(self).sized(),
            final(self).w == old(self).w,
            final(self).h == old(self).h,
            final(self).buf@ == Seq::new(old(self).buf@.len(), |j: int| c[j % 4]),
    {
        let n = self.buf.len();
        let mut j: usize = 0;
        while j < n
            invariant
                n == self.buf@.len(),
                n == old(self).buf@.len(),
                self.w == old(self).w,
                self.h == old(self).h,
                0 <= j <= n,
                forall|i: int| 0 <= i < j ==> self.buf@[i] == c[i % 4],
            decreases n - j,
        {
            self.buf[j] = c[j % 4];
            j += 1;
        }
        assert(self.buf@ =~= Seq::new(old(self).buf@.len(), |j: int| c[j % 4]));
    }

    /// Paints one pixel; coordinates outside the canvas are ignored.
    pub fn set(&mut self, x: i32, y: i32, c: [u8; 4])
        requires
            old(self).wf(),
        ensures
            final(self).wf(),
            final(self).w == old(self).w,
            final(self).h == old(self).h,
            final(self).buf@ == fill_rect_spec(old(self).buf@, old(self).w as int, x as int, y as int, 1, 1, c),
    {
        self.put_pixel(x, y, c, false);
    }

    /// Paints one pixel, blending or replacing; coordinates outside the
    /// canvas are ignored.
    fn put_pixel(&mut self, x: i32, y: i32, c: [u8; 4], replace: bool)
        requires
            old(self).wf(),
        ensures
            final(self).wf(),
            final(self).w == old(self).w,
            final(self).h == old(self).h,
            final(self).buf@ == fill_rect_spec_as(old(self).buf@, old(self).w as int, x as int, y as int, 1, 1, c, replace),
    {
        let ghost old_buf = self.buf@;
        let ghost w = self.w as int;
        let ghost h = self.h as int;
        let ghost target = fill_rect_spec_as(old_buf, w, x as int, y as int, 1, 1, c, replace);
        if x < 0 || y < 0 || x >= self.w as i32 || y >= self.h as i32 {
            assert forall|j: int| 0 <= j < old_buf.len() implies target[j] == old_buf[j] by {
                lemma_pixel_bounds(j, w, h);
            }
            assert(self.buf@ =~= target);
            return;
        }
        let xu = x as usize;
        let yu = y as usize;
        let n = self.buf.len();
        assert(yu * self.w + xu < self.w * self.h) by (nonlinear_arith)
            requires yu < self.h, xu < self.w;
        assert((yu * self.w + xu) * 4 < n);
        let i = (yu * self.w + xu) * 4;
        assert forall|j: int| 0 <= j < old_buf.len() implies
            (in_rect(pixel_x(j, w), pixel_y(j, w), x as int, y as int, 1, 1) <==> (i <= j < i + 4)) by {
            lemma_pixel_bounds(j, w, h);
            if i <= j < i + 4 {
                lemma_pixel_of(w, x as int, y as int, j - i);
            }
            if pixel_x(j, w) == x && pixel_y(j, w) == y {
                assert(j == i + j % 4);
            }
        }
        assert forall|k: int| 0 <= k < 4 implies (#[trigger] ((i + k) % 4)) == k by {
            lemma_pixel_of(w, x as int, y as int, k);
        }
        if replace || c[3] >= 255 {
            self.buf[i] = c[0];
            self.buf[i + 1] = c[1];
            self.buf[i + 2] = c[2];
            self.buf[i + 3] = c[3];
        } else {
            let b0 = blend_channel(self.buf[i], c[0], c[3]);
            self.buf[i] = b0;
            let b1 = blend_channel(self.buf[i + 1], c[1], c[3]);
            self.buf[i + 1] = b1;
            let b2 = blend_channel(self.buf[i + 2], c[2], c[3]);
            self.buf[i + 2] = b2;
        }
        assert(self.buf@ =~= target);
    }
}

impl PixelCanvas {
    /// Fills the `rw` x `rh` rectangle at `(x, y)`, clipped to the canvas,
    /// painting each covered pixel once as `set` does.
    pub fn fill_rect(&mut self, x: i32, y: i32, rw: i32, rh: i32, c: [u8; 4])
        requires
            old(self).wf(),
            i32::MIN <= y + rh <= i32::MAX,
            rh > 0 ==> i32::MIN <= x + rw <= i32::MAX,
        ensures
            final(self).wf(),
            final(self).w == old(self).w,
            final(self).h == old(self).h,
            final(self).buf@ == fill_rect_spec(old(self).buf@, old(self).w as int, x as int, y as int, rw as int, rh as int, c),
    {
        self.fill_rect_as(x, y, rw, rh, c, false);
    }

    /// `fill_rect`, blending or replacing.
    fn fill_rect_as(&mut self, x: i32, y: i32, rw: i32, rh: i32, c: [u8; 4], replace: bool)
        requires
            old(self).wf(),
            i32::MIN <= y + rh <= i32::MAX,
            rh > 0 ==> i32::MIN <= x + rw <= i32::MAX,
        ensures
            final(self).wf(),
            final(self).w == old(self).w,
            final(self).h == old(self).h,
            final(self).buf@ == fill_rect_spec_as(old(self).buf@, old(self).w as int, x as int, y as int, rw as int, rh as int, c, replace),
    {
        let ghost old_buf = self.buf@;
        let ghost w = self.w as int;
        let yend = y + rh;
        let mut yy = y;
        assert(self.buf@ =~= paint_where_as(old_buf, w, c, |px: int, py: int| in_rect(px, py, x as int, y as int, rw as int, 0), replace));
        while yy < yend
            invariant
                self.wf(),
                self.w == old(self).w,
                self.h == old(self).h,
                w == self.w,
                yend == y + rh,
                rh > 0 ==> i32::MIN <= x + rw <= i32::MAX,
                y <= yy,
                yy <= yend || yy == y,
                self.buf@ == paint_where_as(old_buf, w, c, |px: int, py: int| in_rect(px, py, x as int, y as int, rw as int, yy - y), replace),
            decreases yend - yy,
        {
            let xend = x + rw;
            let mut xx = x;
            let ghost rows_done = |px: int, py: int| in_rect(px, py, x as int, y as int, rw as int, yy - y);
            assert(self.buf@ =~= paint_where_as(old_buf, w, c, |px: int, py: int| rows_done(px, py) || (py == yy && x <= px < x), replace));
            while xx < xend
                invariant
                    self.wf(),
                    self.w == old(self).w,
                    self.h == old(self).h,
                    w == self.w,
                    xend == x + rw,
                    y <= yy < yend,
                    x <= xx,
                    xx <= xend || xx == x,
                    rows_done == (|px: int, py: int| in_rect(px, py, x as int, y as int, rw as int, yy - y)),
                    self.buf@ == paint_where_as(old_buf, w, c, |px: int, py: int| rows_done(px, py) || (py == yy && x <= px < xx), replace),
                decreases xend - xx,
            {
                let ghost s1 = |px: int, py: int| rows_done(px, py) || (py == yy && x <= px < xx);
                let ghost s2 = |px: int, py: int| in_rect(px, py, xx as int, yy as int, 1, 1);
                self.put_pixel(xx, yy, c, replace);
                proof {
                    lemma_paint_union(old_buf, w, c, s1, s2, replace);
                    assert(self.buf@ =~= paint_where_as(old_buf, w, c, |px: int, py: int| rows_done(px, py) || (py == yy && x <= px < xx + 1), replace));
                }
                xx += 1;
            }
            yy += 1;
            assert(self.buf@ =~= paint_where_as(old_buf, w, c, |px: int, py: int| in_rect(px, py, x as int, y as int, rw as int, yy - y), replace));
        }
        assert(self.buf@ =~= fill_rect_spec_as(old_buf, w, x as int, y as int, rw as int, rh as int, c, replace));
    }
}

/// Byte `j` of a scanline displaced `dx` pixels to the right with
/// wraparound: colour channels come from the source pixel, alpha becomes 255.
pub open spec fn shifted_byte(buf: Seq<u8>, w: int, j: int, dx: int) -> u8 {
    if j % 4 == 3 {
        255
    } else {
        buf[(pixel_y(j, w) * w + (pixel_x(j, w) - dx) % w) * 4 + j % 4]
    }
}

/// The buffer after displacing every scanline `ya <= y < yb` by `dx` pixels.
pub open spec fn shift_band_spec(buf: Seq<u8>, w: int, ya: int, yb: int, dx: int) -> Seq<u8> {
    Seq::new(
        buf.len(),
        |j: int| if ya <= pixel_y(j, w) < yb { shifted_byte(buf, w, j, dx) } else { buf[j] },
    )
}

/// Byte `j` with its colour channels inverted (alpha kept).
pub open spec fn inverted_byte(buf: Seq<u8>, j: int) -> u8 {
    if j % 4 == 3 { buf[j] } else { (255 - buf[j]) as u8 }
}

/// The buffer after inverting the colour channels of scanlines `ya <= y < yb`.
pub open spec fn invert_band_spec(buf: Seq<u8>, w: int, ya: int, yb: int) -> Seq<u8> {
    Seq::new(
        buf.len(),
        |j: int| if ya <= pixel_y(j, w) < yb { inverted_byte(buf, j) } else { buf[j] },
    )
}

/// Some scanline `ya <= y < yb` lies on a canvas `h` rows tall.
pub open spec fn band_hits(ya: int, yb: int, h: int) -> bool {
    ya < yb && ya < h && 0 < yb && 0 < h
}

/// `d` reduced into `0..w` (Euclidean remainder).
fn wrap_index(d: i32, w: i32) -> (r: usize)
    requires
        w > 0,
    ensures
        r == d as int % w as int,
        r < w,
{
    if d >= 0 {
        let r = (d as u32 % w as u32) as usize;
        r
    } else {
        let nd: u64 = (-(d as i64)) as u64;
        let m = nd % (w as u64);
        proof {
            let q = nd as int / w as int;
            assert(nd as int == q * w + m) by (nonlinear_arith)
                requires w > 0, q == nd as int / w as int, m == nd as int % w as int;
            if m == 0 {
                assert(d as int == (-q) * w + 0) by (nonlinear_arith)
                    requires d as int == -(nd as int), nd as int == q * w + m, m == 0;
                lemma_fundamental_div_mod_converse(d as int, w as int, -q, 0);
            } else {
                assert(d as int == (-q - 1) * w + (w - m)) by (nonlinear_arith)
                    requires d as int == -(nd as int), nd as int == q * w + m;
                lemma_fundamental_div_mod_converse(d as int, w as int, -q - 1, w - m);
            }
        }
        if m == 0 { 0 } else { (w as u64 - m) as usize }
    }
}

impl PixelCanvas {
    /// Horizontally displaces the scanlines `y0 .. y0 + rows` by `dx`
    /// pixels with wraparound, forcing alpha to 255 on them — the glitch
    /// primitive. Rows off the canvas are skipped.
    pub fn shift_rows(&mut self, y0: i32, rows: i32, dx: i32)
        requires
            old(self).wf(),
            i32::MIN <= y0 + rows <= i32::MAX,
            band_hits(y0 as int, y0 + rows, old(self).h as int) && old(self).w > 0
                ==> old(self).w - 1 - dx <= i32::MAX,
        ensures
            final(self).wf(),
            final(self).w == old(self).w,
            final(self).h == old(self).h,
            final(self).buf@ == shift_band_spec(old(self).buf@, old(self).w as int, y0 as int, y0 + rows, dx as int),
    {
        let ghost old_buf = self.buf@;
        let ghost wi = self.w as int;
        let ghost hi = self.h as int;
        let h = self.h as i32;
        let w = self.w as i32;
        let n = self.buf.len();
        let yend = y0 + rows;
        let mut y = y0;
        assert(self.buf@ =~= shift_band_spec(old_buf, wi, y0 as int, y0 as int, dx as int));
        while y < yend
            invariant
                self.wf(),
                self.w == old(self).w,
                self.h == old(self).h,
                wi == self.w, hi == self.h,
                h == hi, w == wi,
                n == self.buf@.len(),
                n == old_buf.len(),
                yend == y0 + rows,
                band_hits(y0 as int, y0 + rows, hi) && wi > 0 ==> wi - 1 - dx <= i32::MAX,
                y0 <= y,
                y <= yend || y == y0,
                self.buf@ == shift_band_spec(old_buf, wi, y0 as int, y as int, dx as int),
            decreases yend - y,
        {
            if y >= 0 && y < h {
                assert(band_hits(y0 as int, y0 + rows, hi)) by { assert(y0 <= y < yend && 0 <= y < h); }
                assert((y as usize) * self.w * 4 + self.w * 4 <= self.w * self.h * 4) by (nonlinear_arith)
                    requires (y as usize) < self.h;
                let row_start = y as usize * self.w * 4;
                let row_len = self.w * 4;
                // snapshot of the scanline before it is rewritten
                let mut row: Vec<u8> = Vec::new();
                let mut k: usize = 0;
                while k < row_len
                    invariant
                        self.buf@.len() == n,
                        row_start + row_len <= n,
                        0 <= k <= row_len,
                        row@.len() == k,
                        forall|t: int| 0 <= t < k ==> row@[t] == self.buf@[row_start + t],
                    decreases row_len - k,
                {
                    row.push(self.buf[row_start + k]);
                    k += 1;
                }
                let ghost mid = self.buf@;
                assert(forall|t: int| 0 <= t < row_len ==> row@[t] == mid[row_start + t]);
                assert forall|t: int| 0 <= t < row_len implies row@[t] == old_buf[row_start + t] by {
                    lemma_pixel_of(wi, t / 4, y as int, t % 4);
                    assert(row_start + t == (y * wi + t / 4) * 4 + t % 4);
                }
                let mut x: i32 = 0;
                while x < w
                    invariant
                        self.wf(),
                        self.w == old(self).w,
                        self.h == old(self).h,
                        wi == self.w, hi == self.h,
                        w == wi,
                        n == self.buf@.len(),
                        n == old_buf.len(),
                        0 <= y < hi,
                        y0 <= y < yend,
                        wi - 1 - dx <= i32::MAX,
                        row_start == y * wi * 4,
                        row_len == wi * 4,
                        row_start + row_len <= n,
                        row@.len() == row_len,
                        forall|t: int| 0 <= t < row_len ==> row@[t] == old_buf[row_start + t],
                        0 <= x <= w,
                        forall|j: int| 0 <= j < n ==> self.buf@[j] == (
                            if (y0 <= pixel_y(j, wi) < y) || (pixel_y(j, wi) == y && pixel_x(j, wi) < x) {
                                shifted_byte(old_buf, wi, j, dx as int)
                            } else {
                                old_buf[j]
                            }),
                    decreases w - x,
                {
                    let sx = wrap_index(x - dx, w);
                    let di = row_start + x as usize * 4;
                    let si = sx * 4;
                    assert(di + 4 <= n) by {
                        lemma_pixel_of(wi, x as int, y as int, 3);
                        assert(y * wi + x < wi * hi) by (nonlinear_arith) requires 0 <= x < wi, 0 <= y < hi;
                    }
                    self.buf[di] = row[si];
                    self.buf[di + 1] = row[si + 1];
                    self.buf[di + 2] = row[si + 2];
                    self.buf[di + 3] = 255;
                    proof {
                        assert forall|j: int| 0 <= j < n implies self.buf@[j] == (
                            if (y0 <= pixel_y(j, wi) < y) || (pixel_y(j, wi) == y && pixel_x(j, wi) < x + 1) {
                                shifted_byte(old_buf, wi, j, dx as int)
                            } else {
                                old_buf[j]
                            }) by {
                            lemma_pixel_bounds(j, wi, hi);
                            if di <= j < di + 4 {
                                lemma_pixel_of(wi, x as int, y as int, j - di);
                                lemma_pixel_of(wi, sx as int, y as int, j - di);
                                assert(row_start + si + (j - di) == (y * wi + sx) * 4 + (j - di));
                            } else {
                                if pixel_y(j, wi) == y && pixel_x(j, wi) == x {
                                    assert(j == di + j % 4);
                                }
                            }
                        }
                    }
                    x += 1;
                }
                assert forall|j: int| 0 <= j < n implies self.buf@[j] == shift_band_spec(old_buf, wi, y0 as int, y + 1, dx as int)[j] by {
                    lemma_pixel_bounds(j, wi, hi);
                }
                assert(self.buf@ =~= shift_band_spec(old_buf, wi, y0 as int, y + 1, dx as int));
            } else {
                assert forall|j: int| 0 <= j < n implies self.buf@[j] == shift_band_spec(old_buf, wi, y0 as int, y + 1, dx as int)[j] by {
                    if wi > 0 {
                        lemma_pixel_bounds(j, wi, hi);
                    }
                }
                assert(self.buf@ =~= shift_band_spec(old_buf, wi, y0 as int, y + 1, dx as int));
            }
            y += 1;
        }
        assert(self.buf@ =~= shift_band_spec(old_buf, wi, y0 as int, y0 + rows, dx as int));
    }
}

impl PixelCanvas {
    /// Inverts the colour channels (not alpha) of scanlines `y0 .. y0 + rows`;
    /// rows off the canvas are skipped.
    pub fn invert_region(&mut self, y0: i32, rows: i32)
        requires
            old(self).wf(),
            i32::MIN <= y0 + rows <= i32::MAX,
        ensures
            final(self).wf(),
            final(self).w == old(self).w,
            final(self).h == old(self).h,
            final(self).buf@ == invert_band_spec(old(self).buf@, old(self).w as int, y0 as int, y0 + rows),
    {
        let ghost old_buf = self.buf@;
        let ghost wi = self.w as int;
        let ghost hi = self.h as int;
        let h = self.h as i32;
        let n = self.buf.len();
        let yend = y0 + rows;
        let mut y = y0;
        assert(self.buf@ =~= invert_band_spec(old_buf, wi, y0 as int, y0 as int));
        while y < yend
            invariant
                self.wf(),
                self.w == old(self).w,
                self.h == old(self).h,
                wi == self.w, hi == self.h, h == hi,
                n == self.buf@.len(),
                n == old_buf.len(),
                yend == y0 + rows,
                y0 <= y,
                y <= yend || y == y0,
                self.buf@ == invert_band_spec(old_buf, wi, y0 as int, y as int),
            decreases yend - y,
        {
            if y >= 0 && y < h {
                assert((y as usize) * self.w * 4 + self.w * 4 <= self.w * self.h * 4) by (nonlinear_arith)
                    requires (y as usize) < self.h;
                let row_start = y as usize * self.w * 4;
                let mut x: usize = 0;
                while x < self.w
                    invariant
                        self.wf(),
                        self.w == old(self).w,
                        self.h == old(self).h,
                        wi == self.w, hi == self.h,
                        n == self.buf@.len(),
                        n == old_buf.len(),
                        0 <= y < hi,
                        y0 <= y < yend,
                        row_start == y * wi * 4,
                        row_start + wi * 4 <= n,
                        0 <= x <= wi,
                        forall|j: int| 0 <= j < n ==> self.buf@[j] == (
                            if (y0 <= pixel_y(j, wi) < y) || (pixel_y(j, wi) == y && pixel_x(j, wi) < x) {
                                inverted_byte(old_buf, j)
                            } else {
                                old_buf[j]
                            }),
                    decreases wi - x,
                {
                    let i = row_start + x * 4;
                    proof {
                        lemma_pixel_of(wi, x as int, y as int, 0);
                        lemma_pixel_of(wi, x as int, y as int, 1);
                        lemma_pixel_of(wi, x as int, y as int, 2);
                    }
                    self.buf[i] = 255 - self.buf[i];
                    self.buf[i + 1] = 255 - self.buf[i + 1];
                    self.buf[i + 2] = 255 - self.buf[i + 2];
                    proof {
                        assert forall|j: int| 0 <= j < n implies self.buf@[j] == (
                            if (y0 <= pixel_y(j, wi) < y) || (pixel_y(j, wi) == y && pixel_x(j, wi) < x + 1) {
                                inverted_byte(old_buf, j)
                            } else {
                                old_buf[j]
                            }) by {
                            lemma_pixel_bounds(j, wi, hi);
                            if i <= j < i + 4 {
                                lemma_pixel_of(wi, x as int, y as int, j - i);
                            } else if pixel_y(j, wi) == y && pixel_x(j, wi) == x {
                                assert(j == i + j % 4);
                            }
                        }
                    }
                    x += 1;
                }
                assert forall|j: int| 0 <= j < n implies self.buf@[j] == invert_band_spec(old_buf, wi, y0 as int, y + 1)[j] by {
                    lemma_pixel_bounds(j, wi, hi);
                }
                assert(self.buf@ =~= invert_band_spec(old_buf, wi, y0 as int, y + 1));
            } else {
                assert forall|j: int| 0 <= j < n implies self.buf@[j] == invert_band_spec(old_buf, wi, y0 as int, y + 1)[j] by {
                    if wi > 0 {
                        lemma_pixel_bounds(j, wi, hi);
                    }
                }
                assert(self.buf@ =~= invert_band_spec(old_buf, wi, y0 as int, y + 1));
            }
            y += 1;
        }
    }
}

// ----------------------------------------------------------------------
// Text
// ----------------------------------------------------------------------

pub open spec fn in_i32(v: int) -> bool {
    i32::MIN <= v <= i32::MAX
}

/// Whether column `rx` (0 = leftmost) of a glyph row is lit.
pub open spec fn glyph_bit(row: u8, rx: int) -> bool {
    row & (1u8 << ((4 - rx) as u8)) != 0
}

/// Whether pixel `(px, py)` is lit when glyph `g` is drawn with its top-left
/// corner at `(cx, cy)`, each glyph cell being a `s` x `s` square.
pub open spec fn glyph_covers(g: [u8; 7], cx: int, cy: int, s: int, px: int, py: int) -> bool {
    &&& s > 0
    &&& cx <= px < cx + 5 * s
    &&& cy <= py < cy + 7 * s
    &&& glyph_bit(g[(py - cy) / s], (px - cx) / s)
}

/// The coordinate arithmetic of drawing glyph `g` at `(cx, cy)` stays within `i32`.
pub open spec fn glyph_arith_ok(g: [u8; 7], cx: int, cy: int, s: int) -> bool {
    forall|rx: int, ry: int|
        0 <= rx < 5 && 0 <= ry < 7 && #[trigger] glyph_bit(g[ry], rx) ==> {
            &&& in_i32(rx * s)
            &&& in_i32(cx + rx * s)
            &&& in_i32(ry * s)
            &&& in_i32(cy + ry * s)
            &&& in_i32(cy + ry * s + s)
            &&& (s > 0 ==> in_i32(cx + rx * s + s))
        }
}

/// The buffer after drawing `chars` with the pen at `(cx, cy)`, blending or
/// replacing; a newline returns the pen to column `x` and moves it down
/// `8 * s`, a glyph advances it `6 * s`, and a character without a glyph
/// advances it `4 * s`.
pub open spec fn draw_text_spec_as(buf: Seq<u8>, w: int, x: int, cx: int, cy: int, chars: Seq<char>, c: [u8; 4], s: int, replace: bool) -> Seq<u8>
    decreases chars.len(),
{
    if chars.len() == 0 {
        buf
    } else {
        let ch = chars[0];
        let rest = chars.drop_first();
        if ch == '\n' {
            draw_text_spec_as(buf, w, x, x, cy + 8 * s, rest, c, s, replace)
        } else {
            match glyph_spec(ch) {
                Some(g) => draw_text_spec_as(
                    paint_where_as(buf, w, c, |px: int, py: int| glyph_covers(g, cx, cy, s, px, py), replace),
                    w, x, cx + 6 * s, cy, rest, c, s, replace,
                ),
                None => draw_text_spec_as(buf, w, x, cx + 4 * s, cy, rest, c, s, replace),
            }
        }
    }
}

/// The buffer after drawing `chars` with the pen at `(cx, cy)`, blending.
pub open spec fn draw_text_spec(buf: Seq<u8>, w: int, x: int, cx: int, cy: int, chars: Seq<char>, c: [u8; 4], s: int) -> Seq<u8> {
    draw_text_spec_as(buf, w, x, cx, cy, chars, c, s, false)
}

/// The pen arithmetic of drawing `chars` from `(cx, cy)` stays within `i32`.
pub open spec fn text_arith_ok(x: int, cx: int, cy: int, chars: Seq<char>, s: int) -> bool
    decreases chars.len(),
{
    if chars.len() == 0 {
        true
    } else {
        let ch = chars[0];
        let rest = chars.drop_first();
        if ch == '\n' {
            in_i32(8 * s) && in_i32(cy + 8 * s) && text_arith_ok(x, x, cy + 8 * s, rest, s)
        } else {
            match glyph_spec(ch) {
                Some(g) => glyph_arith_ok(g, cx, cy, s) && in_i32(6 * s) && in_i32(cx + 6 * s)
                    && text_arith_ok(x, cx + 6 * s, cy, rest, s),
                None => in_i32(4 * s) && in_i32(cx + 4 * s) && text_arith_ok(x, cx + 4 * s, cy, rest, s),
            }
        }
    }
}

/// For `s > 0`, `d` lies in cell `r` exactly when `d / s == r`.
proof fn lemma_cell(d: int, s: int, r: int)
    requires
        s > 0,
    ensures
        (r * s <= d < r * s + s) <==> d / s == r,
{
    if r * s <= d < r * s + s {
        lemma_fundamental_div_mod_converse(d, s, r, d - r * s);
    }
    if d / s == r {
        assert(d == s * (d / s) + d % s) by (nonlinear_arith) requires s > 0;
        assert(0 <= d % s < s) by (nonlinear_arith) requires s > 0;
        assert(r * s == s * r) by (nonlinear_arith);
    }
}

/// The pixels of glyph `g` lying in cells before row `ry`, column `rx` (in
/// drawing order).
pub open spec fn glyph_before(g: [u8; 7], cx: int, cy: int, s: int, ry: int, rx: int, px: int, py: int) -> bool {
    glyph_covers(g, cx, cy, s, px, py)
        && ((py - cy) / s < ry || ((py - cy) / s == ry && (px - cx) / s < rx))
}

impl PixelCanvas {
    fn draw_glyph(&mut self, cx: i32, cy: i32, g: [u8; 7], c: [u8; 4], s: i32, replace: bool)
        requires
            old(self).wf(),
            glyph_arith_ok(g, cx as int, cy as int, s as int),
        ensures
            final(self).wf(),
            final(self).w == old(self).w,
            final(self).h == old(self).h,
            final(self).buf@ == paint_where_as(old(self).buf@, old(self).w as int, c,
                |px: int, py: int| glyph_covers(g, cx as int, cy as int, s as int, px, py), replace),
    {
        let ghost old_buf = self.buf@;
        let ghost w = self.w as int;
        let ghost (gx, gy, gs) = (cx as int, cy as int, s as int);
        assert forall|px: int, py: int| !#[trigger] glyph_before(g, gx, gy, gs, 0, 0, px, py) by {
            if glyph_covers(g, gx, gy, gs, px, py) {
                assert((py - cy) / gs >= 0) by (nonlinear_arith) requires py - cy >= 0, gs > 0;
                assert((px - cx) / gs >= 0) by (nonlinear_arith) requires px - cx >= 0, gs > 0;
            }
        }
        assert(self.buf@ =~= paint_where_as(old_buf, w, c, |px: int, py: int| glyph_before(g, gx, gy, gs, 0, 0, px, py), replace));
        let mut ry: i32 = 0;
        while ry < 7
            invariant
                self.wf(),
                self.w == old(self).w,
                self.h == old(self).h,
                w == self.w,
                gx == cx, gy == cy, gs == s,
                0 <= ry <= 7,
                glyph_arith_ok(g, cx as int, cy as int, s as int),
                self.buf@ == paint_where_as(old_buf, w, c, |px: int, py: int| glyph_before(g, gx, gy, gs, ry as int, 0, px, py), replace),
            decreases 7 - ry,
        {
            let mut rx: i32 = 0;
            while rx < 5
                invariant
                    self.wf(),
                    self.w == old(self).w,
                    self.h == old(self).h,
                    w == self.w,
                    gx == cx, gy == cy, gs == s,
                    0 <= ry < 7,
                    0 <= rx <= 5,
                    glyph_arith_ok(g, cx as int, cy as int, s as int),
                    self.buf@ == paint_where_as(old_buf, w, c, |px: int, py: int| glyph_before(g, gx, gy, gs, ry as int, rx as int, px, py), replace),
                decreases 5 - rx,
            {
                let row = g[ry as usize];
                let lit = row & (1u8 << (4 - rx) as u8) != 0;
                let ghost sel0 = |px: int, py: int| glyph_before(g, gx, gy, gs, ry as int, rx as int, px, py);
                let ghost sel1 = |px: int, py: int| glyph_before(g, gx, gy, gs, ry as int, rx + 1, px, py);
                if lit {
                    assert(glyph_bit(g[ry as int], rx as int));
                    let x0 = cx + rx * s;
                    let y0 = cy + ry * s;
                    let ghost cell = |px: int, py: int| in_rect(px, py, x0 as int, y0 as int, gs, gs);
                    self.fill_rect_as(x0, y0, s, s, c, replace);
                    proof {
                        assert forall|px: int, py: int| !(#[trigger] sel0(px, py) && #[trigger] cell(px, py)) by {
                            if gs > 0 && cell(px, py) {
                                lemma_cell(px - gx, gs, rx as int);
                                lemma_cell(py - gy, gs, ry as int);
                            }
                        }
                        lemma_paint_union(old_buf, w, c, sel0, cell, replace);
                        assert forall|px: int, py: int|
                            (sel0(px, py) || cell(px, py)) == #[trigger] sel1(px, py) by {
                            if gs > 0 {
                                lemma_cell(px - gx, gs, rx as int);
                                lemma_cell(py - gy, gs, ry as int);
                                if cell(px, py) {
                                    assert(gx <= px < gx + 5 * gs) by (nonlinear_arith)
                                        requires x0 == gx + rx * gs, x0 <= px < x0 + gs, 0 <= rx < 5, gs > 0;
                                    assert(gy <= py < gy + 7 * gs) by (nonlinear_arith)
                                        requires y0 == gy + ry * gs, y0 <= py < y0 + gs, 0 <= ry < 7, gs > 0;
                                }
                            }
                        }
                        assert(self.buf@ =~= paint_where_as(old_buf, w, c, sel1, replace));
                    }
                } else {
                    proof {
                        assert forall|px: int, py: int| sel0(px, py) == #[trigger] sel1(px, py) by {
                            if sel1(px, py) && !sel0(px, py) {
                                assert((px - gx) / gs == rx);
                                assert((py - gy) / gs == ry);
                                assert(!glyph_bit(g[ry as int], rx as int));
                            }
                        }
                        assert(self.buf@ =~= paint_where_as(old_buf, w, c, sel1, replace));
                    }
                }
                rx += 1;
            }
            proof {
                assert forall|px: int, py: int|
                    #[trigger] glyph_before(g, gx, gy, gs, ry as int, 5, px, py) == glyph_before(g, gx, gy, gs, ry + 1, 0, px, py) by {
                    if glyph_covers(g, gx, gy, gs, px, py) {
                        assert((px - gx) / gs < 5) by (nonlinear_arith)
                            requires gx <= px < gx + 5 * gs, gs > 0;
                    }
                }
                assert(self.buf@ =~= paint_where_as(old_buf, w, c, |px: int, py: int| glyph_before(g, gx, gy, gs, ry + 1, 0, px, py), replace));
            }
            ry += 1;
        }
        proof {
            assert forall|px: int, py: int|
                #[trigger] glyph_before(g, gx, gy, gs, 7, 0, px, py) == glyph_covers(g, gx, gy, gs, px, py) by {
                if glyph_covers(g, gx, gy, gs, px, py) {
                    assert((py - gy) / gs < 7) by (nonlinear_arith)
                        requires gy <= py < gy + 7 * gs, gs > 0;
                }
            }
            assert(self.buf@ =~= paint_where_as(old_buf, w, c, |px: int, py: int| glyph_covers(g, gx, gy, gs, px, py), replace));
        }
    }

    /// 5x7 bitmap text at `(x, y)` with `'\n'` support; each glyph cell is
    /// a `scale` x `scale` square painted as `set` does, and characters the
    /// font lacks advance the pen narrowly.
    pub fn draw_text(&mut self, x: i32, y: i32, text: &str, c: [u8; 4], scale: i32)
        requires
            old(self).wf(),
            text_arith_ok(x as int, x as int, y as int, text@, scale as int),
        ensures
            final(self).wf(),
            final(self).w == old(self).w,
            final(self).h == old(self).h,
            final(self).buf@ == draw_text_spec(old(self).buf@, old(self).w as int, x as int, x as int, y as int, text@, c, scale as int),
    {
        self.draw_text_as(x, y, text, c, scale, false);
    }

    /// `draw_text`, except that each lit pixel takes the colour `c` as it
    /// is, alpha included, instead of blending it: a translucent colour
    /// leaves translucent text even on a transparent canvas.
    pub fn stamp_text(&mut self, x: i32, y: i32, text: &str, c: [u8; 4], scale: i32)
        requires
            old(self).wf(),
            text_arith_ok(x as int, x as int, y as int, text@, scale as int),
        ensures
            final(self).wf(),
            final(self).w == old(self).w,
            final(self).h == old(self).h,
            final(self).buf@ == draw_text_spec_as(old(self).buf@, old(self).w as int, x as int, x as int, y as int, text@, c, scale as int, true),
    {
        self.draw_text_as(x, y, text, c, scale, true);
    }

    fn draw_text_as(&mut self, x: i32, y: i32, text: &str, c: [u8; 4], scale: i32, replace: bool)
        requires
            old(self).wf(),
            text_arith_ok(x as int, x as int, y as int, text@, scale as int),
        ensures
            final(self).wf(),
            final(self).w == old(self).w,
            final(self).h == old(self).h,
            final(self).buf@ == draw_text_spec_as(old(self).buf@, old(self).w as int, x as int, x as int, y as int, text@, c, scale as int, replace),
    {
        let ghost old_buf = self.buf@;
        let ghost w = self.w as int;
        let chars = str_chars(text);
        let mut cx = x;
        let mut cy = y;
        let mut i: usize = 0;
        assert(chars@.skip(0) =~= chars@);
        while i < chars.len()
            invariant
                self.wf(),
                self.w == old(self).w,
                self.h == old(self).h,
                w == self.w,
                chars@ == text@,
                0 <= i <= chars@.len(),
                text_arith_ok(x as int, cx as int, cy as int, chars@.skip(i as int), scale as int),
                draw_text_spec_as(self.buf@, w, x as int, cx as int, cy as int, chars@.skip(i as int), c, scale as int, replace)
                    == draw_text_spec_as(old_buf, w, x as int, x as int, y as int, text@, c, scale as int, replace),
            decreases chars@.len() - i,
        {
            let ch = chars[i];
            let ghost rest = chars@.skip(i as int);
            assert(rest[0] == ch);
            assert(rest.drop_first() =~= chars@.skip(i + 1));
            if ch == '\n' {
                cx = x;
                cy += 8 * scale;
            } else {
                match glyph(ch) {
                    Some(g) => {
                        self.draw_glyph(cx, cy, g, c, scale, replace);
                        cx += 6 * scale;
                    },
                    None => {
                        cx += 4 * scale;
                    },
                }
            }
            i += 1;
        }
        assert(chars@.skip(i as int) =~= Seq::<char>::empty());
    }
}

/// Pixel width of one line of `len` characters at `scale`.
pub open spec fn line_width(len: int, s: int) -> int {
    (len * 6 - 1) * s
}

pub open spec fn max_opt(best: Option<int>, v: int) -> Option<int> {
    match best {
        Some(b) => Some(if b >= v { b } else { v }),
        None => Some(v),
    }
}

/// The widest of `best` and the widths of `lines`.
pub open spec fn widest_from(best: Option<int>, lines: Seq<Seq<char>>, s: int) -> Option<int>
    decreases lines.len(),
{
    if lines.len() == 0 {
        best
    } else {
        widest_from(max_opt(best, line_width(lines[0].len() as int, s)), lines.drop_first(), s)
    }
}

/// Width of the widest line of `text` (0 when it has no lines).
pub open spec fn text_width_spec(text: Seq<char>, s: int) -> int {
    match widest_from(None, lines_spec(text), s) {
        Some(v) => v,
        None => 0,
    }
}

/// Every line's width arithmetic stays within `i32`.
pub open spec fn lines_fit(lines: Seq<Seq<char>>, s: int) -> bool
    decreases lines.len(),
{
    lines.len() == 0 || (in_i32(lines[0].len() * 6 - 1) && in_i32(line_width(lines[0].len() as int, s))
        && lines_fit(lines.drop_first(), s))
}

proof fn lemma_lines_step(s: Seq<char>, i: int, cur: Seq<char>)
    requires
        0 <= i < s.len(),
    ensures
        s[i] == '\n' ==> lines_from(s.skip(i), cur) == seq![strip_cr(cur)] + lines_from(s.skip(i + 1), Seq::empty()),
        s[i] != '\n' ==> lines_from(s.skip(i), cur) == lines_from(s.skip(i + 1), cur.push(s[i])),
{
    assert(s.skip(i).drop_first() =~= s.skip(i + 1));
}

proof fn lemma_cons_first<A>(x: A, rest: Seq<A>)
    ensures
        (seq![x] + rest)[0] == x,
        (seq![x] + rest).drop_first() == rest,
        (seq![x] + rest).len() > 0,
{
    assert((seq![x] + rest).drop_first() =~= rest);
}

impl PixelCanvas {
    /// Pixel width of the widest line of `text` at `scale` (each character
    /// cell is 6 columns, less the trailing gap); 0 for text with no lines.
    pub fn text_width(text: &str, scale: i32) -> (r: i32)
        requires
            lines_fit(lines_spec(text@), scale as int),
        ensures
            r == text_width_spec(text@, scale as int),
    {
        let chars = str_chars(text);
        let n = chars.len();
        let mut best: Option<i32> = None;
        let mut cur_len: usize = 0;
        let mut last_cr = false;
        let ghost mut cur: Seq<char> = Seq::empty();
        let mut i: usize = 0;
        assert(chars@.skip(0) =~= chars@);
        while i < n
            invariant
                n == chars@.len(),
                chars@ == text@,
                0 <= i <= n,
                cur_len == cur.len(),
                cur_len <= i,
                last_cr == (cur.len() > 0 && cur.last() == '\r'),
                lines_fit(lines_from(chars@.skip(i as int), cur), scale as int),
                widest_from(match best { Some(b) => Some(b as int), None => None },
                    lines_from(chars@.skip(i as int), cur), scale as int)
                    == widest_from(None, lines_spec(text@), scale as int),
            decreases n - i,
        {
            let ch = chars[i];
            proof {
                lemma_lines_step(chars@, i as int, cur);
            }
            if ch == '\n' {
                let len = if last_cr { cur_len - 1 } else { cur_len };
                proof {
                    assert(strip_cr(cur).len() == len);
                    lemma_cons_first(strip_cr(cur), lines_from(chars@.skip(i + 1), Seq::empty()));
                }
                let wl = (len as i32 * 6 - 1) * scale;
                best = match best {
                    Some(b) => Some(if b >= wl { b } else { wl }),
                    None => Some(wl),
                };
                cur_len = 0;
                last_cr = false;
                proof {
                    cur = Seq::empty();
                }
            } else {
                cur_len = cur_len + 1;
                last_cr = ch == '\r';
                proof {
                    cur = cur.push(ch);
                }
            }
            i += 1;
        }
        proof {
            assert(chars@.skip(i as int) =~= Seq::<char>::empty());
        }
        if cur_len > 0 {
            proof {
                lemma_cons_first(cur, Seq::<Seq<char>>::empty());
                assert(seq![cur].drop_first() =~= Seq::<Seq<char>>::empty());
            }
            let ghost bi = match best { Some(b) => Some(b as int), None => None };
            let wl = (cur_len as i32 * 6 - 1) * scale;
            best = match best {
                Some(b) => Some(if b >= wl { b } else { wl }),
                None => Some(wl),
            };
            proof {
                let ls = lines_from(Seq::<char>::empty(), cur);
                assert(ls == seq![cur]);
                assert(widest_from(bi, ls, scale as int)
                    == widest_from(max_opt(bi, line_width(cur.len() as int, scale as int)), ls.drop_first(), scale as int));
                assert(ls.drop_first() =~= Seq::<Seq<char>>::empty());
            }
        }
        match best {
            Some(b) => b,
            None => 0,
        }
    }
}

// ----------------------------------------------------------------------
// Sufficient conditions for the text preconditions
// ----------------------------------------------------------------------

// ----------------------------------------------------------------------
// Range checks: whether drawing stays within `i32`
// ----------------------------------------------------------------------

/// The coordinate arithmetic of glyph cell `(rx, ry)` drawn at `(cx, cy)`
/// stays within `i32`.
pub open spec fn cell_arith_ok(cx: int, cy: int, s: int, rx: int, ry: int) -> bool {
    &&& in_i32(rx * s)
    &&& in_i32(cx + rx * s)
    &&& in_i32(ry * s)
    &&& in_i32(cy + ry * s)
    &&& in_i32(cy + ry * s + s)
    &&& (s > 0 ==> in_i32(cx + rx * s + s))
}

fn fits_i32(v: i64) -> (r: bool)
    ensures
        r == in_i32(v as int),
{
    -2147483648 <= v && v <= 2147483647
}

/// Whether the coordinate arithmetic of drawing glyph `g` at `(cx, cy)`
/// stays within `i32`.
pub fn glyph_arith_fits(g: [u8; 7], cx: i32, cy: i32, s: i32) -> (r: bool)
    ensures
        r == glyph_arith_ok(g, cx as int, cy as int, s as int),
{
    let mut ry: usize = 0;
    while ry < 7
        invariant
            0 <= ry <= 7,
            forall|rx2: int, ry2: int| 0 <= rx2 < 5 && 0 <= ry2 < ry && #[trigger] glyph_bit(g[ry2], rx2)
                ==> cell_arith_ok(cx as int, cy as int, s as int, rx2, ry2),
        decreases 7 - ry,
    {
        let mut rx: usize = 0;
        while rx < 5
            invariant
                0 <= ry < 7,
                0 <= rx <= 5,
                forall|rx2: int, ry2: int| 0 <= rx2 < 5 && 0 <= ry2 < 7 && (ry2 < ry || (ry2 == ry && rx2 < rx))
                    && #[trigger] glyph_bit(g[ry2], rx2) ==> cell_arith_ok(cx as int, cy as int, s as int, rx2, ry2),
            decreases 5 - rx,
        {
            let row = g[ry];
            let lit = row & (1u8 << (4 - rx) as u8) != 0;
            assert(-0x4_0000_0000 <= rx * s <= 0x4_0000_0000) by (nonlinear_arith)
                requires 0 <= rx < 5, -0x8000_0000 <= s < 0x8000_0000;
            assert(-0x4_0000_0000 <= ry * s <= 0x4_0000_0000) by (nonlinear_arith)
                requires 0 <= ry < 7, -0x8000_0000 <= s < 0x8000_0000;
            let a = rx as i64 * s as i64;
            let b = ry as i64 * s as i64;
            let ok = fits_i32(a) && fits_i32(cx as i64 + a) && fits_i32(b) && fits_i32(cy as i64 + b)
                && fits_i32(cy as i64 + b + s as i64) && (s <= 0 || fits_i32(cx as i64 + a + s as i64));
            assert(ok == cell_arith_ok(cx as int, cy as int, s as int, rx as int, ry as int));
            if lit && !ok {
                assert(glyph_bit(g[ry as int], rx as int));
                return false;
            }
            rx += 1;
        }
        ry += 1;
    }
    true
}

/// Whether the pen arithmetic of drawing `text` at `(x, y)` stays within
/// `i32` (the condition `draw_text` asks for).
pub fn text_arith_fits(x: i32, y: i32, text: &str, s: i32) -> (r: bool)
    ensures
        r == text_arith_ok(x as int, x as int, y as int, text@, s as int),
{
    let chars = str_chars(text);
    let n = chars.len();
    let mut cx = x;
    let mut cy = y;
    let mut i: usize = 0;
    assert(chars@.skip(0) =~= chars@);
    while i < n
        invariant
            n == chars@.len(),
            chars@ == text@,
            0 <= i <= n,
            text_arith_ok(x as int, x as int, y as int, text@, s as int)
                == text_arith_ok(x as int, cx as int, cy as int, chars@.skip(i as int), s as int),
        decreases n - i,
    {
        let ch = chars[i];
        let ghost rest = chars@.skip(i as int);
        assert(rest[0] == ch);
        assert(rest.drop_first() =~= chars@.skip(i + 1));
        if ch == '\n' {
            let d = 8 * s as i64;
            if !(fits_i32(d) && fits_i32(cy as i64 + d)) {
                return false;
            }
            cx = x;
            cy = (cy as i64 + d) as i32;
        } else {
            match glyph(ch) {
                Some(g) => {
                    let d = 6 * s as i64;
                    if !(glyph_arith_fits(g, cx, cy, s) && fits_i32(d) && fits_i32(cx as i64 + d)) {
                        return false;
                    }
                    cx = (cx as i64 + d) as i32;
                },
                None => {
                    let d = 4 * s as i64;
                    if !(fits_i32(d) && fits_i32(cx as i64 + d)) {
                        return false;
                    }
                    cx = (cx as i64 + d) as i32;
                },
            }
        }
        i += 1;
    }
    assert(chars@.skip(i as int) =~= Seq::<char>::empty());
    true
}

/// Whether the width arithmetic of a line of `len` characters stays within
/// `i32`.
fn line_fits(len: usize, s: i32) -> (r: bool)
    ensures
        r == (in_i32(len * 6 - 1) && in_i32(line_width(len as int, s as int))),
{
    let a = len as i128 * 6 - 1;
    assert(-0x10_0000_0000_0000_0000_0000_0000 <= a * (s as i128) <= 0x10_0000_0000_0000_0000_0000_0000) by (nonlinear_arith)
        requires -1 <= a <= 6 * 0x1_0000_0000_0000_0000, -0x8000_0000 <= s < 0x8000_0000;
    let b = a * s as i128;
    assert(a == len * 6 - 1);
    assert(b == line_width(len as int, s as int));
    -2147483648 <= a && a <= 2147483647 && -2147483648 <= b && b <= 2147483647
}

/// Whether the width arithmetic of every line of `text` stays within `i32`
/// (the condition `text_width` asks for).
pub fn lines_fit_check(text: &str, s: i32) -> (r: bool)
    ensures
        r == lines_fit(lines_spec(text@), s as int),
{
    let chars = str_chars(text);
    let n = chars.len();
    let mut cur_len: usize = 0;
    let mut last_cr = false;
    let ghost mut cur: Seq<char> = Seq::empty();
    let mut i: usize = 0;
    assert(chars@.skip(0) =~= chars@);
    while i < n
        invariant
            n == chars@.len(),
            chars@ == text@,
            0 <= i <= n,
            cur_len == cur.len(),
            cur_len <= i,
            last_cr == (cur.len() > 0 && cur.last() == '\r'),
            lines_fit(lines_spec(text@), s as int) == lines_fit(lines_from(chars@.skip(i as int), cur), s as int),
        decreases n - i,
    {
        let ch = chars[i];
        proof {
            lemma_lines_step(chars@, i as int, cur);
        }
        if ch == '\n' {
            let len = if last_cr { cur_len - 1 } else { cur_len };
            proof {
                assert(strip_cr(cur).len() == len);
                lemma_cons_first(strip_cr(cur), lines_from(chars@.skip(i + 1), Seq::empty()));
            }
            if !line_fits(len, s) {
                return false;
            }
            cur_len = 0;
            last_cr = false;
            proof {
                cur = Seq::empty();
            }
        } else {
            cur_len = cur_len + 1;
            last_cr = ch == '\r';
            proof {
                cur = cur.push(ch);
            }
        }
        i += 1;
    }
    proof {
        assert(chars@.skip(i as int) =~= Seq::<char>::empty());
    }
    if cur_len > 0 {
        proof {
            lemma_cons_first(cur, Seq::<Seq<char>>::empty());
            assert(seq![cur].drop_first() =~= Seq::<Seq<char>>::empty());
            assert(lines_from(Seq::<char>::empty(), cur) == seq![cur]);
            assert(lines_fit(Seq::<Seq<char>>::empty(), s as int));
            assert(lines_fit(seq![cur], s as int) == (in_i32(cur.len() * 6 - 1)
                && in_i32(line_width(cur.len() as int, s as int))));
        }
        line_fits(cur_len, s)
    } else {
        assert(lines_from(Seq::<char>::empty(), cur) == Seq::<Seq<char>>::empty());
        true
    }
}

/// A glyph drawn at small scale near the origin keeps its arithmetic in range.
pub proof fn lemma_glyph_fits(g: [u8; 7], cx: int, cy: int, s: int, k: int)
    requires
        0 <= s <= 64,
        k >= 0,
        -k <= cx <= k,
        -k <= cy <= k,
        k + 8 * s <= i32::MAX,
        -k >= i32::MIN,
    ensures
        glyph_arith_ok(g, cx, cy, s),
{
    assert forall|rx: int, ry: int| 0 <= rx < 5 && 0 <= ry < 7 && #[trigger] glyph_bit(g[ry], rx) implies {
        &&& in_i32(rx * s)
        &&& in_i32(cx + rx * s)
        &&& in_i32(ry * s)
        &&& in_i32(cy + ry * s)
        &&& in_i32(cy + ry * s + s)
        &&& (s > 0 ==> in_i32(cx + rx * s + s))
    } by {
        assert(0 <= rx * s <= 4 * s) by (nonlinear_arith) requires 0 <= rx < 5, 0 <= s;
        assert(0 <= ry * s <= 6 * s) by (nonlinear_arith) requires 0 <= ry < 7, 0 <= s;
    }
}

/// Text of `chars.len()` characters drawn at small scale from a pen position
/// near the origin keeps all of its pen arithmetic in range.
pub proof fn lemma_text_fits(x: int, cx: int, cy: int, chars: Seq<char>, s: int, k: int)
    requires
        0 <= s <= 64,
        k >= 0,
        -k <= x <= k,
        -k <= cx <= k,
        -k <= cy <= k,
        k + 8 * (s * (chars.len() + 1)) <= i32::MAX,
        -k >= i32::MIN,
    ensures
        text_arith_ok(x, cx, cy, chars, s),
    decreases chars.len(),
{
    if chars.len() > 0 {
        let rest = chars.drop_first();
        assert(8 * (s * (chars.len() + 1)) == 8 * s + 8 * (s * (rest.len() + 1))) by (nonlinear_arith)
            requires rest.len() + 1 == chars.len();
        assert(8 * (s * (rest.len() + 1)) >= 0) by (nonlinear_arith) requires s >= 0;
        let ch = chars[0];
        if ch == '\n' {
            lemma_text_fits(x, x, cy + 8 * s, rest, s, k + 8 * s);
        } else {
            match glyph_spec(ch) {
                Some(g) => {
                    lemma_glyph_fits(g, cx, cy, s, k);
                    lemma_text_fits(x, cx + 6 * s, cy, rest, s, k + 8 * s);
                },
                None => {
                    lemma_text_fits(x, cx + 4 * s, cy, rest, s, k + 8 * s);
                },
            }
        }
    }
}

/// Every line of `lines_from(t, cur)` is at most `cur.len() + t.len()` long.
pub proof fn lemma_lines_short(t: Seq<char>, cur: Seq<char>)
    ensures
        forall|i: int| 0 <= i < lines_from(t, cur).len() ==> #[trigger] lines_from(t, cur)[i].len() <= cur.len() + t.len(),
    decreases t.len(),
{
    if t.len() > 0 {
        let rest = t.drop_first();
        if t[0] == '\n' {
            lemma_lines_short(rest, Seq::empty());
            let tail = lines_from(rest, Seq::empty());
            assert(lines_from(t, cur) == seq![strip_cr(cur)] + tail);
            assert forall|i: int| 0 <= i < lines_from(t, cur).len() implies #[trigger] lines_from(t, cur)[i].len() <= cur.len() + t.len() by {
                if i > 0 {
                    assert(lines_from(t, cur)[i] == tail[i - 1]);
                    assert(tail[i - 1].len() <= rest.len());
                } else {
                    assert(lines_from(t, cur)[0] == strip_cr(cur));
                }
            }
        } else {
            lemma_lines_short(rest, cur.push(t[0]));
            assert(lines_from(t, cur) == lines_from(rest, cur.push(t[0])));
        }
    } else {
        assert(lines_from(t, cur) == (if cur.len() == 0 { Seq::<Seq<char>>::empty() } else { seq![cur] }));
    }
}

/// Lines no longer than `b` characters fit when `b * 6 * s` does.
pub proof fn lemma_lines_fit(ls: Seq<Seq<char>>, s: int, b: int)
    requires
        forall|i: int| 0 <= i < ls.len() ==> #[trigger] ls[i].len() <= b,
        0 <= s <= i32::MAX,
        b * 6 * s <= i32::MAX,
        b * 6 <= i32::MAX,
    ensures
        lines_fit(ls, s),
    decreases ls.len(),
{
    if ls.len() > 0 {
        let l = ls[0].len() as int;
        assert(l <= b);
        assert(-s <= (l * 6 - 1) * s <= b * 6 * s) by (nonlinear_arith)
            requires 0 <= l <= b, 0 <= s;
        assert forall|i: int| 0 <= i < ls.drop_first().len() implies #[trigger] ls.drop_first()[i].len() <= b by {
            assert(ls.drop_first()[i] == ls[i + 1]);
        }
        lemma_lines_fit(ls.drop_first(), s, b);
    }
}

/// Text of at most `b` characters per line fits `text_width`'s arithmetic.
pub proof fn lemma_text_width_fits(t: Seq<char>, s: int)
    requires
        0 <= s <= 64,
        t.len() * 6 * s <= i32::MAX,
        t.len() * 6 <= i32::MAX,
    ensures
        lines_fit(lines_spec(t), s),
{
    lemma_lines_short(t, Seq::empty());
    lemma_lines_fit(lines_spec(t), s, t.len() as int);
}

/// The width of text with lines of at most `b` characters lies in `[-s, 6 * b * s]`.
pub proof fn lemma_widest_bounds(best: Option<int>, ls: Seq<Seq<char>>, s: int, b: int)
    requires
        forall|i: int| 0 <= i < ls.len() ==> #[trigger] ls[i].len() <= b,
        0 <= s,
        b >= 0,
        best matches Some(v) ==> -s <= v <= 6 * b * s,
    ensures
        widest_from(best, ls, s) matches Some(v) ==> -s <= v <= 6 * b * s,
        ls.len() > 0 ==> widest_from(best, ls, s) is Some,
        widest_from(best, ls, s) is None ==> best is None,
    decreases ls.len(),
{
    if ls.len() > 0 {
        let l = ls[0].len() as int;
        assert(-s <= (l * 6 - 1) * s <= 6 * b * s) by (nonlinear_arith)
            requires 0 <= l <= b, 0 <= s;
        assert forall|i: int| 0 <= i < ls.drop_first().len() implies #[trigger] ls.drop_first()[i].len() <= b by {
            assert(ls.drop_first()[i] == ls[i + 1]);
        }
        lemma_widest_bounds(max_opt(best, line_width(l, s)), ls.drop_first(), s, b);
    }
}

/// `text_width` of a short text at non-negative scale lies in `[-s, 6 * len * s]`.
pub proof fn lemma_text_width_bounds(t: Seq<char>, s: int)
    requires
        0 <= s,
    ensures
        -s <= text_width_spec(t, s) <= 6 * t.len() * s,
{
    lemma_lines_short(t, Seq::empty());
    lemma_widest_bounds(None, lines_spec(t), s, t.len() as int);
    assert(0 <= 6 * t.len() * s) by (nonlinear_arith) requires s >= 0;
}

// ----------------------------------------------------------------------
// Laws of the rasteriser
// ----------------------------------------------------------------------

/// Whether pixel `(px, py)` is lit when `chars` is drawn with the pen at
/// `(cx, cy)`, newlines returning it to column `x`.
pub open spec fn text_covers(x: int, cx: int, cy: int, chars: Seq<char>, s: int, px: int, py: int) -> bool
    decreases chars.len(),
{
    if chars.len() == 0 {
        false
    } else {
        let ch = chars[0];
        let rest = chars.drop_first();
        if ch == '\n' {
            text_covers(x, x, cy + 8 * s, rest, s, px, py)
        } else {
            match glyph_spec(ch) {
                Some(g) => glyph_covers(g, cx, cy, s, px, py) || text_covers(x, cx + 6 * s, cy, rest, s, px, py),
                None => text_covers(x, cx + 4 * s, cy, rest, s, px, py),
            }
        }
    }
}

/// How far the pen moves right over `chars` (a line without newlines).
pub open spec fn pen_advance(chars: Seq<char>, s: int) -> int
    decreases chars.len(),
{
    if chars.len() == 0 {
        0
    } else {
        match glyph_spec(chars[0]) {
            Some(g) => 6 * s + pen_advance(chars.drop_first(), s),
            None => 4 * s + pen_advance(chars.drop_first(), s),
        }
    }
}

/// Replacing with the same colour twice paints the union of the selections.
proof fn lemma_replace_union(buf: Seq<u8>, w: int, c: [u8; 4], s1: spec_fn(int, int) -> bool, s2: spec_fn(int, int) -> bool)
    ensures
        paint_where_as(paint_where_as(buf, w, c, s1, true), w, c, s2, true)
            == paint_where_as(buf, w, c, |px: int, py: int| s1(px, py) || s2(px, py), true),
{
    assert(paint_where_as(paint_where_as(buf, w, c, s1, true), w, c, s2, true)
        =~= paint_where_as(buf, w, c, |px: int, py: int| s1(px, py) || s2(px, py), true));
}

/// When every write is exact (replacing, or an opaque colour), drawing text
/// sets exactly the pixels that the text covers to `c`.
pub proof fn lemma_text_exact(buf: Seq<u8>, w: int, x: int, cx: int, cy: int, chars: Seq<char>, c: [u8; 4], s: int, replace: bool)
    requires
        replace || c[3] == 255,
    ensures
        draw_text_spec_as(buf, w, x, cx, cy, chars, c, s, replace)
            == paint_where_as(buf, w, c, |px: int, py: int| text_covers(x, cx, cy, chars, s, px, py), true),
    decreases chars.len(),
{
    let all = |px: int, py: int| text_covers(x, cx, cy, chars, s, px, py);
    if chars.len() == 0 {
        assert(paint_where_as(buf, w, c, all, true) =~= buf);
    } else {
        let ch = chars[0];
        let rest = chars.drop_first();
        if ch == '\n' {
            lemma_text_exact(buf, w, x, x, cy + 8 * s, rest, c, s, replace);
            assert(paint_where_as(buf, w, c, |px: int, py: int| text_covers(x, x, cy + 8 * s, rest, s, px, py), true)
                =~= paint_where_as(buf, w, c, all, true));
        } else {
            match glyph_spec(ch) {
                Some(g) => {
                    let gsel = |px: int, py: int| glyph_covers(g, cx, cy, s, px, py);
                    let rsel = |px: int, py: int| text_covers(x, cx + 6 * s, cy, rest, s, px, py);
                    let b1 = paint_where_as(buf, w, c, gsel, replace);
                    assert(b1 =~= paint_where_as(buf, w, c, gsel, true));
                    lemma_text_exact(b1, w, x, cx + 6 * s, cy, rest, c, s, replace);
                    lemma_replace_union(buf, w, c, gsel, rsel);
                    assert(paint_where_as(buf, w, c, |px: int, py: int| gsel(px, py) || rsel(px, py), true)
                        =~= paint_where_as(buf, w, c, all, true));
                },
                None => {
                    lemma_text_exact(buf, w, x, cx + 4 * s, cy, rest, c, s, replace);
                    assert(paint_where_as(buf, w, c, |px: int, py: int| text_covers(x, cx + 4 * s, cy, rest, s, px, py), true)
                        =~= paint_where_as(buf, w, c, all, true));
                },
            }
        }
    }
}

/// Drawing text keeps the buffer's length.
pub proof fn lemma_text_len(buf: Seq<u8>, w: int, x: int, cx: int, cy: int, chars: Seq<char>, c: [u8; 4], s: int, replace: bool)
    ensures
        draw_text_spec_as(buf, w, x, cx, cy, chars, c, s, replace).len() == buf.len(),
    decreases chars.len(),
{
    if chars.len() > 0 {
        let rest = chars.drop_first();
        if chars[0] == '\n' {
            lemma_text_len(buf, w, x, x, cy + 8 * s, rest, c, s, replace);
        } else {
            match glyph_spec(chars[0]) {
                Some(g) => {
                    let b1 = paint_where_as(buf, w, c, |px: int, py: int| glyph_covers(g, cx, cy, s, px, py), replace);
                    lemma_text_len(b1, w, x, cx + 6 * s, cy, rest, c, s, replace);
                },
                None => lemma_text_len(buf, w, x, cx + 4 * s, cy, rest, c, s, replace),
            }
        }
    }
}

/// Text never covers a pixel above the row its pen starts on.
pub proof fn lemma_text_covers_below(x: int, cx: int, cy: int, chars: Seq<char>, s: int, px: int, py: int)
    requires
        s > 0,
        text_covers(x, cx, cy, chars, s, px, py),
    ensures
        cy <= py,
    decreases chars.len(),
{
    let rest = chars.drop_first();
    if chars[0] == '\n' {
        lemma_text_covers_below(x, x, cy + 8 * s, rest, s, px, py);
    } else {
        match glyph_spec(chars[0]) {
            Some(g) => {
                if !glyph_covers(g, cx, cy, s, px, py) {
                    lemma_text_covers_below(x, cx + 6 * s, cy, rest, s, px, py);
                }
            },
            None => lemma_text_covers_below(x, cx + 4 * s, cy, rest, s, px, py),
        }
    }
}

/// Moving the pen, its line start and the pixel by the same offset keeps
/// coverage.
pub proof fn lemma_text_covers_shift(x: int, cx: int, cy: int, chars: Seq<char>, s: int, px: int, py: int, dx: int, dy: int)
    ensures
        text_covers(x + dx, cx + dx, cy + dy, chars, s, px + dx, py + dy) == text_covers(x, cx, cy, chars, s, px, py),
    decreases chars.len(),
{
    if chars.len() > 0 {
        let rest = chars.drop_first();
        if chars[0] == '\n' {
            lemma_text_covers_shift(x, x, cy + 8 * s, rest, s, px, py, dx, dy);
        } else {
            match glyph_spec(chars[0]) {
                Some(g) => {
                    assert((py + dy) - (cy + dy) == py - cy);
                    assert((px + dx) - (cx + dx) == px - cx);
                    lemma_text_covers_shift(x, cx + 6 * s, cy, rest, s, px, py, dx, dy);
                },
                None => {
                    lemma_text_covers_shift(x, cx + 4 * s, cy, rest, s, px, py, dx, dy);
                },
            }
        }
    }
}

/// On a line without newlines the line start plays no part.
proof fn lemma_line_start_free(buf: Seq<u8>, w: int, x1: int, x2: int, cx: int, cy: int, chars: Seq<char>, c: [u8; 4], s: int, replace: bool)
    requires
        !chars.contains('\n'),
    ensures
        draw_text_spec_as(buf, w, x1, cx, cy, chars, c, s, replace)
            == draw_text_spec_as(buf, w, x2, cx, cy, chars, c, s, replace),
    decreases chars.len(),
{
    if chars.len() > 0 {
        let rest = chars.drop_first();
        assert(chars[0] != '\n') by { assert(chars.contains(chars[0])); }
        assert(!rest.contains('\n')) by {
            if rest.contains('\n') {
                let k = choose|k: int| 0 <= k < rest.len() && rest[k] == '\n';
                assert(chars[k + 1] == '\n');
            }
        }
        match glyph_spec(chars[0]) {
            Some(g) => {
                let b1 = paint_where_as(buf, w, c, |px: int, py: int| glyph_covers(g, cx, cy, s, px, py), replace);
                lemma_line_start_free(b1, w, x1, x2, cx + 6 * s, cy, rest, c, s, replace);
            },
            None => {
                lemma_line_start_free(buf, w, x1, x2, cx + 4 * s, cy, rest, c, s, replace);
            },
        }
    }
}

/// Drawing a newline-free line `a` and then `r` is drawing `a`, then `r`
/// with the pen moved on by `pen_advance(a)`.
proof fn lemma_text_concat(buf: Seq<u8>, w: int, x: int, cx: int, cy: int, a: Seq<char>, r: Seq<char>, c: [u8; 4], s: int, replace: bool)
    requires
        !a.contains('\n'),
    ensures
        draw_text_spec_as(buf, w, x, cx, cy, a + r, c, s, replace)
            == draw_text_spec_as(draw_text_spec_as(buf, w, x, cx, cy, a, c, s, replace), w, x, cx + pen_advance(a, s), cy, r, c, s, replace),
    decreases a.len(),
{
    if a.len() == 0 {
        assert(a + r =~= r);
    } else {
        let rest = a.drop_first();
        assert((a + r).drop_first() =~= rest + r);
        assert((a + r)[0] == a[0]);
        assert(a[0] != '\n') by { assert(a.contains(a[0])); }
        assert(!rest.contains('\n')) by {
            if rest.contains('\n') {
                let k = choose|k: int| 0 <= k < rest.len() && rest[k] == '\n';
                assert(a[k + 1] == '\n');
            }
        }
        match glyph_spec(a[0]) {
            Some(g) => {
                let b1 = paint_where_as(buf, w, c, |px: int, py: int| glyph_covers(g, cx, cy, s, px, py), replace);
                lemma_text_concat(b1, w, x, cx + 6 * s, cy, rest, r, c, s, replace);
            },
            None => {
                lemma_text_concat(buf, w, x, cx + 4 * s, cy, rest, r, c, s, replace);
            },
        }
    }
}

/// A newline returns the pen to the text's left edge, one `8 * scale` line
/// lower: drawing `a`, a newline and `b` is drawing `a`, then `b` from
/// `(x, y + 8 * s)`.
pub proof fn lemma_draw_text_newline(buf: Seq<u8>, w: int, x: int, y: int, a: Seq<char>, b: Seq<char>, c: [u8; 4], s: int)
    requires
        !a.contains('\n'),
    ensures
        draw_text_spec(buf, w, x, x, y, a + seq!['\n'] + b, c, s)
            == draw_text_spec(draw_text_spec(buf, w, x, x, y, a, c, s), w, x, x, y + 8 * s, b, c, s),
{
    let nb = seq!['\n'] + b;
    assert(a + seq!['\n'] + b =~= a + nb);
    lemma_text_concat(buf, w, x, x, y, a, nb, c, s, false);
    assert(nb.drop_first() =~= b);
    assert(nb[0] == '\n');
}

/// A character the font lacks draws nothing and moves the pen `4 * s`
/// right.
pub proof fn lemma_draw_text_unknown_char(buf: Seq<u8>, w: int, x: int, y: int, u: char, t: Seq<char>, c: [u8; 4], s: int)
    requires
        u != '\n',
        glyph_spec(u) is None,
        !t.contains('\n'),
    ensures
        draw_text_spec(buf, w, x, x, y, seq![u] + t, c, s) == draw_text_spec(buf, w, x + 4 * s, x + 4 * s, y, t, c, s),
{
    let ut = seq![u] + t;
    assert(ut[0] == u);
    assert(ut.drop_first() =~= t);
    lemma_line_start_free(buf, w, x, x + 4 * s, x + 4 * s, y, t, c, s, false);
}

/// A character with a glyph is drawn where the pen stands, which then
/// moves `6 * s` right.
pub proof fn lemma_draw_text_glyph_char(buf: Seq<u8>, w: int, x: int, y: int, u: char, t: Seq<char>, c: [u8; 4], s: int)
    requires
        u != '\n',
        glyph_spec(u) is Some,
        !t.contains('\n'),
    ensures
        draw_text_spec(buf, w, x, x, y, seq![u] + t, c, s)
            == draw_text_spec(draw_text_spec(buf, w, x, x, y, seq![u], c, s), w, x + 6 * s, x + 6 * s, y, t, c, s),
{
    let one = seq![u];
    assert(!one.contains('\n')) by {
        if one.contains('\n') {
            let k = choose|k: int| 0 <= k < one.len() && one[k] == '\n';
            assert(one[k] == u);
        }
    }
    lemma_text_concat(buf, w, x, x, y, one, t, c, s, false);
    assert(one.drop_first() =~= Seq::<char>::empty());
    assert(one[0] == u);
    assert(pen_advance(Seq::<char>::empty(), s) == 0);
    assert(pen_advance(one, s) == 6 * s);
    lemma_line_start_free(draw_text_spec(buf, w, x, x, y, one, c, s), w, x, x + 6 * s, x + 6 * s, y, t, c, s, false);
}

/// Drawing text changes only the pixels that the text covers, and keeps the
/// buffer's length.
pub proof fn lemma_text_local(buf: Seq<u8>, w: int, x: int, cx: int, cy: int, chars: Seq<char>, c: [u8; 4], s: int, replace: bool, j: int)
    requires
        0 <= j < buf.len(),
        !text_covers(x, cx, cy, chars, s, pixel_x(j, w), pixel_y(j, w)),
    ensures
        draw_text_spec_as(buf, w, x, cx, cy, chars, c, s, replace).len() == buf.len(),
        draw_text_spec_as(buf, w, x, cx, cy, chars, c, s, replace)[j] == buf[j],
    decreases chars.len(),
{
    if chars.len() > 0 {
        let rest = chars.drop_first();
        if chars[0] == '\n' {
            lemma_text_local(buf, w, x, x, cy + 8 * s, rest, c, s, replace, j);
        } else {
            match glyph_spec(chars[0]) {
                Some(g) => {
                    let b1 = paint_where_as(buf, w, c, |px: int, py: int| glyph_covers(g, cx, cy, s, px, py), replace);
                    lemma_text_local(b1, w, x, cx + 6 * s, cy, rest, c, s, replace, j);
                },
                None => {
                    lemma_text_local(buf, w, x, cx + 4 * s, cy, rest, c, s, replace, j);
                },
            }
        }
    }
}

/// The pen moves at most `6 * s` per character.
proof fn lemma_pen_advance_bounds(chars: Seq<char>, s: int)
    requires
        s > 0,
    ensures
        0 <= pen_advance(chars, s) <= 6 * s * chars.len(),
    decreases chars.len(),
{
    if chars.len() > 0 {
        lemma_pen_advance_bounds(chars.drop_first(), s);
        assert(6 * s * (chars.len() - 1) + 6 * s == 6 * s * chars.len()) by (nonlinear_arith);
    }
}

/// On a line without newlines, every covered pixel lies in the 7-cell-tall
/// band at the pen, between the pen and one gap short of where it ends up.
proof fn lemma_text_covers_box(x: int, cx: int, cy: int, chars: Seq<char>, s: int, px: int, py: int)
    requires
        s > 0,
        !chars.contains('\n'),
        text_covers(x, cx, cy, chars, s, px, py),
    ensures
        cx <= px < cx + pen_advance(chars, s) - s,
        cy <= py < cy + 7 * s,
    decreases chars.len(),
{
    let rest = chars.drop_first();
    assert(chars[0] != '\n') by { assert(chars.contains(chars[0])); }
    assert(!rest.contains('\n')) by {
        if rest.contains('\n') {
            let k = choose|k: int| 0 <= k < rest.len() && rest[k] == '\n';
            assert(chars[k + 1] == '\n');
        }
    }
    lemma_pen_advance_bounds(rest, s);
    match glyph_spec(chars[0]) {
        Some(g) => {
            if !glyph_covers(g, cx, cy, s, px, py) {
                lemma_text_covers_box(x, cx + 6 * s, cy, rest, s, px, py);
            }
        },
        None => {
            lemma_text_covers_box(x, cx + 4 * s, cy, rest, s, px, py);
        },
    }
}

/// A line without newlines is its own single line.
proof fn lemma_single_line(t: Seq<char>, cur: Seq<char>)
    requires
        !t.contains('\n'),
        cur.len() + t.len() > 0,
    ensures
        lines_from(t, cur) == seq![cur + t],
    decreases t.len(),
{
    if t.len() == 0 {
        assert(cur + t =~= cur);
    } else {
        let rest = t.drop_first();
        assert(t[0] != '\n') by { assert(t.contains(t[0])); }
        assert(!rest.contains('\n')) by {
            if rest.contains('\n') {
                let k = choose|k: int| 0 <= k < rest.len() && rest[k] == '\n';
                assert(t[k + 1] == '\n');
            }
        }
        lemma_single_line(rest, cur.push(t[0]));
        assert(cur.push(t[0]) + rest =~= cur + t);
    }
}

/// The width of non-empty text without newlines is that of its one line.
proof fn lemma_single_line_width(t: Seq<char>, s: int)
    requires
        t.len() > 0,
        !t.contains('\n'),
    ensures
        text_width_spec(t, s) == line_width(t.len() as int, s),
{
    lemma_single_line(t, Seq::empty());
    assert(Seq::<char>::empty() + t =~= t);
    let ls = lines_spec(t);
    assert(ls == seq![t]);
    assert(ls.drop_first() =~= Seq::<Seq<char>>::empty());
    let lw = line_width(t.len() as int, s);
    assert(ls[0] == t);
    assert(widest_from(Some(lw), Seq::<Seq<char>>::empty(), s) == Some(lw));
    assert(widest_from(None, ls, s) == widest_from(Some(lw), ls.drop_first(), s));
}

/// On a newline-free line `a`, text `a + r` covers what `a` covers and what
/// `r` covers from where the pen ends up after `a`.
proof fn lemma_text_covers_concat(x: int, cx: int, cy: int, a: Seq<char>, r: Seq<char>, s: int, px: int, py: int)
    requires
        !a.contains('\n'),
    ensures
        text_covers(x, cx, cy, a + r, s, px, py)
            == (text_covers(x, cx, cy, a, s, px, py) || text_covers(x, cx + pen_advance(a, s), cy, r, s, px, py)),
    decreases a.len(),
{
    if a.len() == 0 {
        assert(a + r =~= r);
    } else {
        let rest = a.drop_first();
        assert((a + r).drop_first() =~= rest + r);
        assert((a + r)[0] == a[0]);
        assert(a[0] != '\n') by { assert(a.contains(a[0])); }
        assert(!rest.contains('\n')) by {
            if rest.contains('\n') {
                let k = choose|k: int| 0 <= k < rest.len() && rest[k] == '\n';
                assert(a[k + 1] == '\n');
            }
        }
        match glyph_spec(a[0]) {
            Some(g) => lemma_text_covers_concat(x, cx + 6 * s, cy, rest, r, s, px, py),
            None => lemma_text_covers_concat(x, cx + 4 * s, cy, rest, r, s, px, py),
        }
    }
}

/// Over characters that all have glyphs the pen moves `6 * s` each.
proof fn lemma_pen_advance_glyphs(chars: Seq<char>, s: int)
    requires
        forall|i: int| 0 <= i < chars.len() ==> (#[trigger] glyph_spec(chars[i])) is Some,
    ensures
        pen_advance(chars, s) == 6 * s * chars.len(),
    decreases chars.len(),
{
    if chars.len() > 0 {
        let rest = chars.drop_first();
        assert forall|i: int| 0 <= i < rest.len() implies (#[trigger] glyph_spec(rest[i])) is Some by {
            assert(rest[i] == chars[i + 1]);
        }
        assert(glyph_spec(chars[0]) is Some);
        lemma_pen_advance_glyphs(rest, s);
        assert(6 * s + 6 * s * (chars.len() - 1) == 6 * s * chars.len()) by (nonlinear_arith);
    }
}

/// Text of one line whose characters all have glyphs reaches exactly from
/// column `x` to column `x + text_width - 1`: the first glyph's box starts at
/// `x`, the last one's ends at `x + text_width`, and a glyph cell lit in the
/// first glyph's leftmost column or the last glyph's rightmost column covers
/// those edge columns. Drawn in an opaque colour on a canvas that holds the
/// box, those edge pixels take the colour.
pub proof fn lemma_draw_text_reaches_width(buf: Seq<u8>, w: int, h: int, x: int, y: int, t: Seq<char>, c: [u8; 4], s: int, ry: int)
    requires
        s > 0,
        t.len() > 0,
        !t.contains('\n'),
        forall|i: int| 0 <= i < t.len() ==> (#[trigger] glyph_spec(t[i])) is Some,
        0 <= ry < 7,
        c[3] == 255,
        buf.len() == w * h * 4,
        0 <= x,
        x + text_width_spec(t, s) <= w,
        0 <= y,
        y + 7 * s <= h,
    ensures
        x + pen_advance(t.drop_last(), s) + 5 * s == x + text_width_spec(t, s),
        glyph_bit(glyph_spec(t[0]).unwrap()[ry], 0) ==> forall|k: int| 0 <= k < 4 ==>
            #[trigger] draw_text_spec(buf, w, x, x, y, t, c, s)[((y + ry * s) * w + x) * 4 + k] == c[k],
        glyph_bit(glyph_spec(t.last()).unwrap()[ry], 4) ==> forall|k: int| 0 <= k < 4 ==>
            #[trigger] draw_text_spec(buf, w, x, x, y, t, c, s)[((y + ry * s) * w + x + text_width_spec(t, s) - 1) * 4 + k] == c[k],
{
    let n = t.len() as int;
    let tw = text_width_spec(t, s);
    lemma_single_line_width(t, s);
    let a = t.drop_last();
    let l = t.last();
    let one = seq![l];
    assert(a + one =~= t);
    assert(!a.contains('\n')) by {
        if a.contains('\n') {
            let k = choose|k: int| 0 <= k < a.len() && a[k] == '\n';
            assert(t[k] == '\n');
            assert(t.contains('\n'));
        }
    }
    assert forall|i: int| 0 <= i < a.len() implies (#[trigger] glyph_spec(a[i])) is Some by {
        assert(a[i] == t[i]);
    }
    lemma_pen_advance_glyphs(a, s);
    assert(6 * s * (n - 1) + 5 * s == (n * 6 - 1) * s) by (nonlinear_arith);
    let cxl = x + 6 * s * (n - 1);
    let py = y + ry * s;
    assert(0 <= ry * s < 7 * s) by (nonlinear_arith) requires 0 <= ry < 7, s > 0;
    lemma_cell(ry * s, s, ry);
    assert(0 <= tw - 1 < w) by (nonlinear_arith) requires tw == (n * 6 - 1) * s, n >= 1, s > 0, x + tw <= w, x >= 0;
    lemma_text_exact(buf, w, x, x, y, t, c, s, false);
    // first glyph: its leftmost column is column x
    let g0 = glyph_spec(t[0]).unwrap();
    assert(glyph_spec(t[0]) is Some);
    lemma_cell(0, s, 0);
    assert(t[0] != '\n') by { assert(t.contains(t[0])); }
    if glyph_bit(g0[ry], 0) {
        assert(glyph_covers(g0, x, y, s, x, py));
        assert(text_covers(x, x, y, t, s, x, py));
        assert forall|k: int| 0 <= k < 4 implies
            #[trigger] draw_text_spec(buf, w, x, x, y, t, c, s)[(py * w + x) * 4 + k] == c[k] by {
            lemma_pixel_of(w, x, py, k);
            assert((py * w + x) * 4 + k < w * h * 4) by (nonlinear_arith)
                requires 0 <= x < w, 0 <= py < h, 0 <= k < 4;
        }
    }
    // last glyph: its box is columns cxl .. cxl + 5s, ending at x + tw
    let gl = glyph_spec(l).unwrap();
    assert(glyph_spec(l) is Some) by { assert(t[n - 1] == l); }
    assert(l != '\n') by { assert(t[n - 1] == l); assert(t.contains(t[n - 1])); }
    let px = x + tw - 1;
    if glyph_bit(gl[ry], 4) {
        lemma_cell(5 * s - 1, s, 4);
        assert(px - cxl == 5 * s - 1);
        assert(glyph_covers(gl, cxl, y, s, px, py));
        assert(one.drop_first() =~= Seq::<char>::empty());
        assert(one[0] == l);
        assert(text_covers(x, cxl, y, one, s, px, py));
        lemma_text_covers_concat(x, x, y, a, one, s, px, py);
        assert(text_covers(x, x, y, t, s, px, py));
        assert forall|k: int| 0 <= k < 4 implies
            #[trigger] draw_text_spec(buf, w, x, x, y, t, c, s)[(py * w + px) * 4 + k] == c[k] by {
            lemma_pixel_of(w, px, py, k);
            assert((py * w + px) * 4 + k < w * h * 4) by (nonlinear_arith)
                requires 0 <= px < w, 0 <= py < h, 0 <= k < 4;
        }
    }
}

/// Text of one line changes no pixel outside the box at `(x, y)` that is
/// `text_width` columns wide and 7 cells tall.
pub proof fn lemma_draw_text_within_width(buf: Seq<u8>, w: int, x: int, y: int, t: Seq<char>, c: [u8; 4], s: int, j: int)
    requires
        s > 0,
        t.len() > 0,
        !t.contains('\n'),
        0 <= j < buf.len(),
        !(x <= pixel_x(j, w) < x + text_width_spec(t, s) && y <= pixel_y(j, w) < y + 7 * s),
    ensures
        draw_text_spec(buf, w, x, x, y, t, c, s)[j] == buf[j],
{
    lemma_single_line_width(t, s);
    if text_covers(x, x, y, t, s, pixel_x(j, w), pixel_y(j, w)) {
        lemma_text_covers_box(x, x, y, t, s, pixel_x(j, w), pixel_y(j, w));
        lemma_pen_advance_bounds(t, s);
        assert(6 * s * t.len() - s == (t.len() * 6 - 1) * s) by (nonlinear_arith);
    }
    lemma_text_local(buf, w, x, x, y, t, c, s, false, j);
}

/// Blending never leaves the range spanned by the two colours, keeps the
/// old value at alpha 0 and takes the new one at alpha 255.
pub proof fn lemma_blend_between(d: u8, s: u8, a: u8)
    ensures
        (d <= s ==> d <= blend_spec(d, s, a) <= s),
        (s <= d ==> s <= blend_spec(d, s, a) <= d),
        a == 0 ==> blend_spec(d, s, a) == d,
        a == 255 ==> blend_spec(d, s, a) == s,
{
    let n = s * a + d * (255 - a);
    let lo: int = if d <= s { d as int } else { s as int };
    let hi: int = if d <= s { s as int } else { d as int };
    assert(lo * 255 <= n <= hi * 255) by (nonlinear_arith)
        requires n == s * a + d * (255 - a), 0 <= a <= 255,
            lo == (if d <= s { d as int } else { s as int }),
            hi == (if d <= s { s as int } else { d as int });
    assert((2 * n + 255) / 510 >= lo) by (nonlinear_arith) requires lo * 255 <= n, lo >= 0;
    assert((2 * n + 255) / 510 <= hi) by (nonlinear_arith) requires n <= hi * 255, hi >= 0;
    if a == 0 {
        assert(n == d * 255) by (nonlinear_arith) requires n == s * a + d * (255 - a), a == 0;
        assert((2 * (d * 255) + 255) / 510 == d) by (nonlinear_arith) requires 0 <= d <= 255;
    }
    if a == 255 {
        assert(n == s * 255) by (nonlinear_arith) requires n == s * a + d * (255 - a), a == 255;
        assert((2 * (s * 255) + 255) / 510 == s) by (nonlinear_arith) requires 0 <= s <= 255;
    }
}

/// Filling a rectangle with an opaque colour a second time changes nothing.
pub proof fn lemma_opaque_fill_idempotent(buf: Seq<u8>, w: int, x: int, y: int, rw: int, rh: int, c: [u8; 4])
    requires
        c[3] == 255,
    ensures
        fill_rect_spec(fill_rect_spec(buf, w, x, y, rw, rh, c), w, x, y, rw, rh, c)
            == fill_rect_spec(buf, w, x, y, rw, rh, c),
{
    assert(fill_rect_spec(fill_rect_spec(buf, w, x, y, rw, rh, c), w, x, y, rw, rh, c)
        =~= fill_rect_spec(buf, w, x, y, rw, rh, c));
}

/// Filling a rectangle only touches the pixels inside it.
pub proof fn lemma_fill_rect_local(buf: Seq<u8>, w: int, x: int, y: int, rw: int, rh: int, c: [u8; 4], j: int)
    requires
        0 <= j < buf.len(),
        !in_rect(pixel_x(j, w), pixel_y(j, w), x, y, rw, rh),
    ensures
        fill_rect_spec(buf, w, x, y, rw, rh, c)[j] == buf[j],
{
}

/// Inverting the same band of scanlines twice restores the canvas.
pub proof fn lemma_invert_involution(buf: Seq<u8>, w: int, ya: int, yb: int)
    ensures
        invert_band_spec(invert_band_spec(buf, w, ya, yb), w, ya, yb) == buf,
{
    let once = invert_band_spec(buf, w, ya, yb);
    assert(invert_band_spec(once, w, ya, yb) =~= buf);
}

/// Displacing a band by `dx` and then by `-dx` restores the colour of every
/// pixel in it (their alpha is left opaque); the rest of the canvas is
/// untouched.
pub proof fn lemma_shift_undo(buf: Seq<u8>, w: int, h: int, ya: int, yb: int, dx: int)
    requires
        w > 0,
        h >= 0,
        buf.len() == w * h * 4,
    ensures
        forall|j: int| 0 <= j < buf.len() ==> #[trigger] shift_band_spec(shift_band_spec(buf, w, ya, yb, dx), w, ya, yb, -dx)[j] == (
            if ya <= pixel_y(j, w) < yb && j % 4 == 3 { 255u8 } else { buf[j] }),
{
    let once = shift_band_spec(buf, w, ya, yb, dx);
    let twice = shift_band_spec(once, w, ya, yb, -dx);
    assert forall|j: int| 0 <= j < buf.len() implies #[trigger] twice[j] == (
        if ya <= pixel_y(j, w) < yb && j % 4 == 3 { 255u8 } else { buf[j] }) by {
        lemma_pixel_bounds(j, w, h);
        let px = pixel_x(j, w);
        let py = pixel_y(j, w);
        let k = j % 4;
        if ya <= py < yb && k != 3 {
            let a = (px - (-dx)) % w;
            assert(0 <= a < w);
            let j2 = (py * w + a) * 4 + k;
            lemma_pixel_of(w, a, py, k);
            assert(py * w + a < w * h) by (nonlinear_arith) requires 0 <= a < w, 0 <= py < h;
            assert(twice[j] == once[j2]);
            assert(once[j2] == buf[(py * w + (a - dx) % w) * 4 + k]);
            let q = (px + dx) / w;
            assert(px + dx == q * w + a) by {
                assert(px - (-dx) == px + dx);
                assert(px + dx == w * ((px + dx) / w) + (px + dx) % w) by (nonlinear_arith) requires w > 0;
            }
            assert(a - dx == (-q) * w + px) by (nonlinear_arith) requires px + dx == q * w + a;
            lemma_fundamental_div_mod_converse(a - dx, w, -q, px);
            assert(j == (py * w + px) * 4 + k);
        }
    }
}

// ----------------------------------------------------------------------
// xorshift32
// ----------------------------------------------------------------------

/// One xorshift32 step (shifts 13, 17, 5).
pub open spec fn xorshift_spec(x: u32) -> u32 {
    let a = x ^ (x << 13u32);
    let b = a ^ (a >> 17u32);
    b ^ (b << 5u32)
}

/// xorshift32 — deterministic, allocation-free noise.
pub struct TinyRng {
    pub s: u32,
}

impl TinyRng {
    pub fn new(seed: u32) -> (r: Self)
        ensures
            r.s == (if seed == 0 { 0x9E37_79B9u32 } else { seed }),
            r.s != 0,
    {
        TinyRng { s: if seed == 0 { 0x9E37_79B9 } else { seed } }
    }

    pub fn next_u32(&mut self) -> (r: u32)
        ensures
            r == xorshift_spec(old(self).s),
            final(self).s == r,
            old(self).s != 0 ==> r != 0,
    {
        proof {
            if self.s != 0 {
                lemma_xorshift_nonzero(self.s);
            }
        }
        let mut x = self.s;
        x ^= x << 13;
        x ^= x >> 17;
        x ^= x << 5;
        self.s = x;
        x
    }
}

/// The index that `next_range(n)` draws from the raw output `v`: the
/// binary32 computation `((v as f32 / u32::MAX as f32) * n as f32) as usize % n`,
/// in which `u32::MAX as f32` is exactly 2^32, the division is exact, the
/// product is rounded once, and the cast truncates (saturating at `usize::MAX`).
pub open spec fn range_pick_spec(v: u32, n: usize) -> usize {
    if n == 0 {
        0
    } else {
        let p = round_sig24(round_sig24(v as nat) * round_sig24(n as nat));
        let t = p / 0x1_0000_0000nat;
        let t = if t > usize::MAX { usize::MAX as nat } else { t };
        (t % (n as nat)) as usize
    }
}

impl TinyRng {
    /// A pseudo-random index below `n` (0 when `n == 0`, in which case the
    /// generator does not advance).
    pub fn next_range(&mut self, n: usize) -> (r: usize)
        ensures
            n == 0 ==> r == 0 && final(self).s == old(self).s,
            n > 0 ==> final(self).s == xorshift_spec(old(self).s)
                && r == range_pick_spec(xorshift_spec(old(self).s), n)
                && r < n,
    {
        if n == 0 {
            0
        } else {
            let v = self.next_u32();
            let a = round_f32(v as u128);
            let b = round_f32(n as u128);
            assert(a * b <= 0x2_0000_0000 * 2 * 0x1_0000_0000_0000_0000) by (nonlinear_arith)
                requires a <= 2 * (v as u128), b <= 2 * (n as u128), v <= u32::MAX, n <= usize::MAX,
                    usize::MAX <= u64::MAX;
            let p = round_f32(a * b);
            let t = p / 0x1_0000_0000u128;
            let t: usize = if t > usize::MAX as u128 { usize::MAX } else { t as usize };
            t % n
        }
    }
}

/// xorshift32 never maps a non-zero state to zero, so a generator seeded
/// through `TinyRng::new` never gets stuck.
pub proof fn lemma_xorshift_nonzero(x: u32)
    requires
        x != 0,
    ensures
        xorshift_spec(x) != 0,
{
    let a = x ^ (x << 13u32);
    assert(a != 0) by (bit_vector) requires x != 0, a == x ^ (x << 13u32);
    let b = a ^ (a >> 17u32);
    assert(b != 0) by (bit_vector) requires a != 0, b == a ^ (a >> 17u32);
    let r = b ^ (b << 5u32);
    assert(r != 0) by (bit_vector) requires b != 0, r == b ^ (b << 5u32);
}

} // verus!
