//! Simple software drawing into a top-down RGBA8 buffer: a scaled sprite blit and an
//! 8x8 bitmap font (from `font8x8`) for a menu. Drawing clips to the buffer.

use vstd::arithmetic::div_mod::{lemma_fundamental_div_mod, lemma_fundamental_div_mod_converse};
use vstd::prelude::*;

verus! {

/// The scale of the menu's bitmap font.
pub const MENU_SCALE: i32 = 2;

/// Height of one menu row, in pixels.
pub const MENU_ROW_H: i32 = 22;

/// The tallest a menu grows; longer menus scroll.
pub const MENU_MAX_H: i32 = 640;

/// Byte `c` of an opaque pixel of color `rgb`.
pub open spec fn color_byte(rgb: [u8; 3], c: int) -> u8 {
    if c < 3 {
        rgb@[c]
    } else {
        255
    }
}

/// An RGBA buffer `w` pixels wide with the pixels `inside` holds painted `rgb` (opaque).
pub open spec fn painted(px: Seq<u8>, w: int, rgb: [u8; 3], inside: spec_fn(int, int) -> bool) -> Seq<u8> {
    Seq::new(px.len(), |q: int| if inside((q / 4) % w, (q / 4) / w) { color_byte(rgb, q % 4) } else { px[q] })
}

/// Whether `(cx, cy)` lies in the `rw` by `rh` rectangle at `(x, y)`.
pub open spec fn in_rect(cx: int, cy: int, x: int, y: int, rw: int, rh: int) -> bool {
    x <= cx < x + rw && y <= cy < y + rh
}

/// A buffer with a rectangle filled.
pub open spec fn filled(px: Seq<u8>, w: int, x: int, y: int, rw: int, rh: int, rgb: [u8; 3]) -> Seq<u8> {
    painted(px, w, rgb, |cx: int, cy: int| in_rect(cx, cy, x, y, rw, rh))
}

/// The pixel at `(x, y)` of a `w`-wide buffer is pixel `y * w + x`.
proof fn lemma_pixel(p: int, w: int, x: int, y: int)
    requires
        w > 0,
        0 <= x < w,
        y >= 0,
        p >= 0,
    ensures
        (p == y * w + x) == (p % w == x && p / w == y),
{
    if p == y * w + x {
        lemma_fundamental_div_mod_converse(p, w, y, x);
    }
    lemma_fundamental_div_mod(p, w);
    vstd::arithmetic::mul::lemma_mul_is_commutative(w, y);
    vstd::arithmetic::mul::lemma_mul_is_commutative(w, p / w);
}

/// A borrowed RGBA8 drawing target.
pub struct Canvas<'a> {
    buf: &'a mut [u8],
    w: i32,
    h: i32,
}

/// A canvas as plain values.
pub struct CanvasView {
    pub pixels: Seq<u8>,
    pub w: int,
    pub h: int,
}

impl<'a> View for Canvas<'a> {
    type V = CanvasView;

    closed spec fn view(&self) -> CanvasView {
        CanvasView { pixels: self.buf@, w: self.w as int, h: self.h as int }
    }
}

/// Whether a canvas is `w * h` pixels of 4 bytes.
pub open spec fn canvas_wf(c: CanvasView) -> bool {
    &&& 0 <= c.w <= i32::MAX
    &&& 0 <= c.h <= i32::MAX
    &&& c.pixels.len() == c.w * c.h * 4
}

impl<'a> Canvas<'a> {
    /// Draw into `buf`, a top-down `w` by `h` RGBA8 image.
    pub fn new(buf: &'a mut [u8], w: u32, h: u32) -> (c: Canvas<'a>)
        requires
            w <= i32::MAX,
            h <= i32::MAX,
            old(buf)@.len() == w * h * 4,
        ensures
            c@ == (CanvasView { pixels: old(buf)@, w: w as int, h: h as int }),
            canvas_wf(c@),
    {
        Canvas { buf, w: w as i32, h: h as i32 }
    }

    /// Paint the pixel at `(x, y)`, which is on the canvas.
    fn set_px(&mut self, x: i64, y: i64, rgb: [u8; 3])
        requires
            canvas_wf(old(self)@),
            0 <= x < old(self)@.w,
            0 <= y < old(self)@.h,
        ensures
            final(self)@ == (CanvasView {
                pixels: painted(old(self)@.pixels, old(self)@.w, rgb, |cx: int, cy: int| cx == x && cy == y),
                ..old(self)@
            }),
    {
        let ghost w = self.w as int;
        let ghost h = self.h as int;
        assert(y * w + x < w * h) by (nonlinear_arith)
            requires
                0 <= x < w,
                0 <= y < h,
        ;
        assert(y * w <= 0x7FFF_FFFF * 0x7FFF_FFFF) by (nonlinear_arith)
            requires
                0 <= y < h <= 0x7FFF_FFFF,
                0 <= w <= 0x7FFF_FFFF,
        ;
        let blen = self.buf.len();
        let p = (y * self.w as i64 + x) as usize;
        let o = p * 4;
        self.buf[o] = rgb[0];
        self.buf[o + 1] = rgb[1];
        self.buf[o + 2] = rgb[2];
        self.buf[o + 3] = 0xFF;
        proof {
            assert forall|q: int| 0 <= q < self.buf@.len() implies self.buf@[q] == painted(old(self)@.pixels, w, rgb, |cx: int, cy: int| cx == x && cy == y)[q] by {
                lemma_pixel(q / 4, w, x as int, y as int);
                if o <= q < o + 4 {
                    assert(q / 4 == p);
                }
            }
            assert(self.buf@ =~= painted(old(self)@.pixels, w, rgb, |cx: int, cy: int| cx == x && cy == y));
        }
    }
}

/// The pixel coordinates of a byte of a `w` by `h` buffer lie on it.
proof fn lemma_coords(q: int, w: int, h: int)
    requires
        0 <= q < w * h * 4,
        w > 0,
        h > 0,
    ensures
        0 <= (q / 4) % w < w,
        0 <= (q / 4) / w < h,
{
    let p = q / 4;
    assert(p < w * h);
    lemma_fundamental_div_mod(p, w);
    assert((p / w) < h) by (nonlinear_arith)
        requires
            p < w * h,
            p == w * (p / w) + p % w,
            0 <= p % w,
            w > 0,
    ;
}

/// Painting the same buffer under predicates that agree on it gives the same buffer.
proof fn lemma_painted_ext(px: Seq<u8>, w: int, h: int, rgb: [u8; 3], f: spec_fn(int, int) -> bool, g: spec_fn(int, int) -> bool)
    requires
        w > 0,
        h > 0,
        px.len() == w * h * 4,
        forall|cx: int, cy: int| 0 <= cx < w && 0 <= cy < h ==> #[trigger] f(cx, cy) == g(cx, cy),
    ensures
        painted(px, w, rgb, f) == painted(px, w, rgb, g),
{
    assert forall|q: int| 0 <= q < px.len() implies painted(px, w, rgb, f)[q] == painted(px, w, rgb, g)[q] by {
        lemma_coords(q, w, h);
    }
    assert(painted(px, w, rgb, f) =~= painted(px, w, rgb, g));
}

/// Painting twice paints the union.
proof fn lemma_painted_twice(px: Seq<u8>, w: int, rgb: [u8; 3], f: spec_fn(int, int) -> bool, g: spec_fn(int, int) -> bool)
    ensures
        painted(painted(px, w, rgb, f), w, rgb, g) == painted(px, w, rgb, |cx: int, cy: int| f(cx, cy) || g(cx, cy)),
{
    assert(painted(painted(px, w, rgb, f), w, rgb, g) =~= painted(px, w, rgb, |cx: int, cy: int| f(cx, cy) || g(cx, cy)));
}

/// Painting nothing leaves the buffer as it was.
proof fn lemma_painted_none(px: Seq<u8>, w: int, h: int, rgb: [u8; 3], f: spec_fn(int, int) -> bool)
    requires
        px.len() == w * h * 4,
        w >= 0,
        h >= 0,
        forall|cx: int, cy: int| 0 <= cx < w && 0 <= cy < h ==> !#[trigger] f(cx, cy),
    ensures
        painted(px, w, rgb, f) == px,
{
    if w > 0 && h > 0 {
        assert forall|q: int| 0 <= q < px.len() implies painted(px, w, rgb, f)[q] == px[q] by {
            lemma_coords(q, w, h);
        }
    } else {
        assert(px.len() == 0) by (nonlinear_arith)
            requires
                px.len() == w * h * 4,
                w <= 0 || h <= 0,
                w >= 0,
                h >= 0,
        ;
    }
    assert(painted(px, w, rgb, f) =~= px);
}

/// Coordinates small enough that drawing arithmetic stays exact.
pub open spec fn small(v: int) -> bool {
    -0x4000_0001_0000_0000 <= v <= 0x4000_0001_0000_0000
}

/// Sizes small enough that drawing arithmetic stays exact.
pub open spec fn small_size(v: int) -> bool {
    -0x1_0000_0000 <= v <= 0x1_0000_0000
}

impl<'a> Canvas<'a> {
    /// Fill the `rw` by `rh` rectangle at `(x, y)` (clipped to the canvas).
    fn fill_rect(&mut self, x: i64, y: i64, rw: i64, rh: i64, rgb: [u8; 3])
        requires
            canvas_wf(old(self)@),
            small(x as int),
            small(y as int),
            small_size(rw as int),
            small_size(rh as int),
        ensures
            final(self)@ == (CanvasView { pixels: filled(old(self)@.pixels, old(self)@.w, x as int, y as int, rw as int, rh as int, rgb), ..old(self)@ }),
    {
        let ghost px0 = self@.pixels;
        let ghost w = self@.w;
        let ghost h = self@.h;
        let cw = self.w as i64;
        let ch = self.h as i64;
        let x0 = if x > 0 { x } else { 0 };
        let y0 = if y > 0 { y } else { 0 };
        let x1 = if x + rw < cw { x + rw } else { cw };
        let y1 = if y + rh < ch { y + rh } else { ch };
        if x0 >= x1 || y0 >= y1 {
            proof {
                lemma_painted_none(px0, w, h, rgb, |cx: int, cy: int| in_rect(cx, cy, x as int, y as int, rw as int, rh as int));
            }
            return;
        }
        let mut yy = y0;
        proof {
            lemma_painted_none(px0, w, h, rgb, |cx: int, cy: int| (y0 <= cy < yy && x0 <= cx < x1) || (cy == yy && x0 <= cx < x0));
        }
        while yy < y1
            invariant
                canvas_wf(self@),
                self@.w == w,
                self@.h == h,
                w == cw,
                h == ch,
                0 <= x0 < x1 <= cw,
                0 <= y0 <= yy <= y1 <= ch,
                px0.len() == w * h * 4,
                self@.pixels == painted(px0, w, rgb, |cx: int, cy: int| (y0 <= cy < yy && x0 <= cx < x1) || (cy == yy && x0 <= cx < x0)),
            decreases y1 - yy,
        {
            let mut xx = x0;
            while xx < x1
                invariant
                    canvas_wf(self@),
                    self@.w == w,
                    self@.h == h,
                    w == cw,
                    h == ch,
                    0 <= x0 <= xx <= x1 <= cw,
                    0 <= y0 <= yy < y1 <= ch,
                    px0.len() == w * h * 4,
                    self@.pixels == painted(px0, w, rgb, |cx: int, cy: int| (y0 <= cy < yy && x0 <= cx < x1) || (cy == yy && x0 <= cx < xx)),
                decreases x1 - xx,
            {
                let ghost before = self@.pixels;
                self.set_px(xx, yy, rgb);
                proof {
                    let f = |cx: int, cy: int| (y0 <= cy < yy && x0 <= cx < x1) || (cy == yy && x0 <= cx < xx);
                    let g = |cx: int, cy: int| cx == xx && cy == yy;
                    lemma_painted_twice(px0, w, rgb, f, g);
                    lemma_painted_ext(px0, w, h, rgb, |cx: int, cy: int| f(cx, cy) || g(cx, cy), |cx: int, cy: int| (y0 <= cy < yy && x0 <= cx < x1) || (cy == yy && x0 <= cx < xx + 1));
                }
                xx += 1;
            }
            proof {
                lemma_painted_ext(px0, w, h, rgb, |cx: int, cy: int| (y0 <= cy < yy && x0 <= cx < x1) || (cy == yy && x0 <= cx < x1), |cx: int, cy: int| (y0 <= cy < yy + 1 && x0 <= cx < x1) || (cy == yy + 1 && x0 <= cx < x0));
            }
            yy += 1;
        }
        proof {
            lemma_painted_ext(px0, w, h, rgb, |cx: int, cy: int| (y0 <= cy < yy && x0 <= cx < x1) || (cy == yy && x0 <= cx < x0), |cx: int, cy: int| in_rect(cx, cy, x as int, y as int, rw as int, rh as int));
        }
    }
}

/// The rows of 8x8 bitmap glyph `code` from `font8x8`'s basic Latin table.
pub uninterp spec fn legacy_glyph(code: u8) -> Seq<u8>;

/// `font8x8::legacy::BASIC_LEGACY[code]`.
///
/// Trusted: the eight rows are [`legacy_glyph`] of `code`; bit `c` of row `r` (low bit
/// first) is the pixel in column `c`.
#[verifier::external_body]
fn glyph_rows(code: u8) -> (g: [u8; 8])
    requires
        code < 128,
    ensures
        g@ == legacy_glyph(code),
{
    font8x8::legacy::BASIC_LEGACY[code as usize]
}

/// The first `n` cells (row-major, eight per row) of a glyph with rows `bits` drawn at
/// `(x, y)`, each set bit a `scale` by `scale` square.
pub open spec fn glyph_cells(px: Seq<u8>, w: int, x: int, y: int, scale: int, bits: Seq<u8>, rgb: [u8; 3], n: nat) -> Seq<u8>
    decreases n,
{
    if n == 0 {
        px
    } else {
        let prev = glyph_cells(px, w, x, y, scale, bits, rgb, (n - 1) as nat);
        let r = (n - 1) / 8;
        let c = (n - 1) % 8;
        if bits[r] & (1u8 << (c as u8)) != 0 {
            filled(prev, w, x + c * scale, y + r * scale, scale, scale, rgb)
        } else {
            prev
        }
    }
}

/// A buffer with character `ch` drawn at `(x, y)` (nothing for non-ASCII).
pub open spec fn glyph_px(px: Seq<u8>, w: int, x: int, y: int, scale: int, ch: char, rgb: [u8; 3]) -> Seq<u8> {
    if (ch as int) < 128 {
        glyph_cells(px, w, x, y, scale, legacy_glyph(ch as u8), rgb, 64)
    } else {
        px
    }
}

/// A buffer with the first `n` characters of `s` drawn from `(x, y)`, `8 * scale` apart.
pub open spec fn text_px(px: Seq<u8>, w: int, x: int, y: int, scale: int, s: Seq<char>, rgb: [u8; 3], n: nat) -> Seq<u8>
    decreases n,
{
    if n == 0 {
        px
    } else {
        glyph_px(text_px(px, w, x, y, scale, s, rgb, (n - 1) as nat), w, x + 8 * scale * (n - 1), y, scale, s[n - 1], rgb)
    }
}

/// Whether `(cx, cy)` is on the outline of the `rw` by `rh` rectangle at `(x, y)`.
pub open spec fn on_outline(cx: int, cy: int, x: int, y: int, rw: int, rh: int) -> bool {
    ||| x <= cx < x + rw && (cy == y || cy == y + rh - 1)
    ||| y <= cy < y + rh && (cx == x || cx == x + rw - 1)
}

/// A glyph drawn wholly right of the canvas leaves it as it was.
proof fn lemma_cells_off(px: Seq<u8>, w: int, h: int, x: int, y: int, scale: int, bits: Seq<u8>, rgb: [u8; 3], n: nat)
    requires
        px.len() == w * h * 4,
        w >= 0,
        h >= 0,
        x >= w,
        scale >= 1,
    ensures
        glyph_cells(px, w, x, y, scale, bits, rgb, n) == px,
    decreases n,
{
    if n > 0 {
        lemma_cells_off(px, w, h, x, y, scale, bits, rgb, (n - 1) as nat);
        let c = (n - 1) % 8;
        let r = (n - 1) / 8;
        assert(c * scale >= 0) by (nonlinear_arith)
            requires
                c >= 0,
                scale >= 1,
        ;
        lemma_painted_none(px, w, h, rgb, |cx: int, cy: int| in_rect(cx, cy, x + c * scale, y + r * scale, scale, scale));
    }
}

impl<'a> Canvas<'a> {
    /// Paint the pixel at `(x, y)` when it is on the canvas.
    fn put(&mut self, x: i64, y: i64, rgb: [u8; 3])
        requires
            canvas_wf(old(self)@),
            small(x as int),
            small(y as int),
        ensures
            final(self)@ == (CanvasView { pixels: filled(old(self)@.pixels, old(self)@.w, x as int, y as int, 1, 1, rgb), ..old(self)@ }),
    {
        self.fill_rect(x, y, 1, 1, rgb);
    }

    /// Outline the `rw` by `rh` rectangle at `(x, y)`.
    fn stroke_rect(&mut self, x: i64, y: i64, rw: i64, rh: i64, rgb: [u8; 3])
        requires
            canvas_wf(old(self)@),
            small_size(x as int),
            small_size(y as int),
            small_size(rw as int),
            small_size(rh as int),
        ensures
            final(self)@ == (CanvasView {
                pixels: painted(old(self)@.pixels, old(self)@.w, rgb, |cx: int, cy: int| on_outline(cx, cy, x as int, y as int, rw as int, rh as int)),
                ..old(self)@
            }),
    {
        let ghost px0 = self@.pixels;
        let ghost w = self@.w;
        let ghost h = self@.h;
        self.fill_rect(x, y, rw, 1, rgb);
        self.fill_rect(x, y + rh - 1, rw, 1, rgb);
        self.fill_rect(x, y, 1, rh, rgb);
        self.fill_rect(x + rw - 1, y, 1, rh, rgb);
        proof {
            let f1 = |cx: int, cy: int| in_rect(cx, cy, x as int, y as int, rw as int, 1);
            let f2 = |cx: int, cy: int| in_rect(cx, cy, x as int, y + rh - 1, rw as int, 1);
            let f3 = |cx: int, cy: int| in_rect(cx, cy, x as int, y as int, 1, rh as int);
            let f4 = |cx: int, cy: int| in_rect(cx, cy, x + rw - 1, y as int, 1, rh as int);
            lemma_painted_twice(px0, w, rgb, f1, f2);
            let u12 = |cx: int, cy: int| f1(cx, cy) || f2(cx, cy);
            lemma_painted_twice(px0, w, rgb, u12, f3);
            let u123 = |cx: int, cy: int| u12(cx, cy) || f3(cx, cy);
            lemma_painted_twice(px0, w, rgb, u123, f4);
            let all = |cx: int, cy: int| u123(cx, cy) || f4(cx, cy);
            assert(painted(px0, w, rgb, all) =~= painted(px0, w, rgb, |cx: int, cy: int| on_outline(cx, cy, x as int, y as int, rw as int, rh as int)));
        }
    }

    /// Draw character `ch` at `(x, y)` in the 8x8 bitmap font scaled by `scale`.
    fn glyph(&mut self, x: i64, y: i64, scale: i64, ch: char, rgb: [u8; 3])
        requires
            canvas_wf(old(self)@),
            0 <= x <= 0x8000_0000,
            small_size(y as int),
            1 <= scale <= 0xFFFF,
        ensures
            final(self)@ == (CanvasView { pixels: glyph_px(old(self)@.pixels, old(self)@.w, x as int, y as int, scale as int, ch, rgb), ..old(self)@ }),
            canvas_wf(final(self)@),
    {
        if ch as u32 >= 128 {
            return;
        }
        let code = ch as u8;
        assert(code as int == ch as int);
        let bits = glyph_rows(code);
        let ghost px0 = self@.pixels;
        let mut k: u64 = 0;
        while k < 64
            invariant
                canvas_wf(self@),
                self@.w == old(self)@.w,
                self@.h == old(self)@.h,
                px0 == old(self)@.pixels,
                0 <= k <= 64,
                0 <= x <= 0x8000_0000,
                small_size(y as int),
                1 <= scale <= 0xFFFF,
                bits@ == legacy_glyph(code),
                self@.pixels == glyph_cells(px0, self@.w, x as int, y as int, scale as int, bits@, rgb, k as nat),
            decreases 64 - k,
        {
            let r = k / 8;
            let c = k % 8;
            let row = bits[r as usize];
            if row & (1u8 << (c as u8)) != 0 {
                assert(c * scale <= 7 * 0xFFFF && r * scale <= 7 * 0xFFFF) by (nonlinear_arith)
                    requires
                        c < 8,
                        r < 8,
                        1 <= scale <= 0xFFFF,
                ;
                self.fill_rect(x + c as i64 * scale, y + r as i64 * scale, scale, scale, rgb);
            }
            k += 1;
        }
    }

    /// Draw `s` from `(x, y)`, one glyph every `8 * scale` pixels.
    fn text(&mut self, x: i64, y: i64, scale: i64, s: &str, rgb: [u8; 3])
        requires
            canvas_wf(old(self)@),
            0 <= x <= 0x8000_0000,
            small_size(y as int),
            1 <= scale <= 0xFFFF,
        ensures
            final(self)@ == (CanvasView {
                pixels: text_px(old(self)@.pixels, old(self)@.w, x as int, y as int, scale as int, s@, rgb, s@.len()),
                ..old(self)@
            }),
            canvas_wf(final(self)@),
    {
        let ghost px0 = self@.pixels;
        let n = s.unicode_len();
        let w = self.w as i128;
        let mut k: usize = 0;
        while k < n
            invariant
                canvas_wf(self@),
                self@.w == old(self)@.w,
                self@.h == old(self)@.h,
                w == self@.w,
                px0 == old(self)@.pixels,
                n == s@.len(),
                0 <= k <= n,
                0 <= x <= 0x8000_0000,
                small_size(y as int),
                1 <= scale <= 0xFFFF,
                self@.pixels == text_px(px0, self@.w, x as int, y as int, scale as int, s@, rgb, k as nat),
            decreases n - k,
        {
            assert(8 * scale * k <= 8 * 0xFFFF * 0xFFFF_FFFF_FFFF_FFFF) by (nonlinear_arith)
                requires
                    1 <= scale <= 0xFFFF,
                    0 <= k <= 0xFFFF_FFFF_FFFF_FFFF,
            ;
            let cx = x as i128 + 8 * (scale as i128) * (k as i128);
            assert(cx >= 0) by (nonlinear_arith)
                requires
                    cx == x + 8 * scale * k,
                    x >= 0,
                    scale >= 1,
                    k >= 0,
            ;
            let ch = s.get_char(k);
            if cx < w {
                self.glyph(cx as i64, y, scale, ch, rgb);
            } else {
                proof {
                    if (ch as int) < 128 {
                        lemma_cells_off(self@.pixels, self@.w, self@.h, cx as int, y as int, scale as int, legacy_glyph(ch as u8), rgb, 64);
                    }
                }
            }
            k += 1;
        }
    }

    /// Blit `img` (top-down RGBA, `cw` by `ch`) at `(ox, oy)` scaled by `scale`, skipping
    /// transparent source pixels.
    pub fn blit_scaled(&mut self, img: &[u8], cw: i32, ch: i32, ox: i32, oy: i32, scale: i32)
        requires
            canvas_wf(old(self)@),
            cw > 0 && ch > 0 ==> img@.len() >= cw * ch * 4,
        ensures
            final(self)@ == (CanvasView {
                pixels: if cw > 0 && ch > 0 {
                    blit_px(old(self)@.pixels, old(self)@.w, img@, cw as int, ox as int, oy as int, scale as int, (cw * ch) as nat)
                } else {
                    old(self)@.pixels
                },
                ..old(self)@
            }),
    {
        if cw <= 0 || ch <= 0 {
            return;
        }
        assert(cw * ch <= 0x7FFF_FFFF * 0x7FFF_FFFF) by (nonlinear_arith)
            requires
                0 < cw <= 0x7FFF_FFFF,
                0 < ch <= 0x7FFF_FFFF,
        ;
        let n = cw as u64 * ch as u64;
        let ghost px0 = self@.pixels;
        let mut k: u64 = 0;
        while k < n
            invariant
                canvas_wf(self@),
                self@.w == old(self)@.w,
                self@.h == old(self)@.h,
                px0 == old(self)@.pixels,
                cw > 0,
                ch > 0,
                n == cw * ch,
                img@.len() >= cw * ch * 4,
                0 <= k <= n,
                self@.pixels == blit_px(px0, self@.w, img@, cw as int, ox as int, oy as int, scale as int, k as nat),
            decreases n - k,
        {
            let sy = k / cw as u64;
            let sx = k % cw as u64;
            assert(k * 4 + 3 < img@.len()) by (nonlinear_arith)
                requires
                    k < n,
                    n == cw * ch,
                    img@.len() >= cw * ch * 4,
            ;
            let blen = img.len();
            let p = (k * 4) as usize;
            if img[p + 3] != 0 {
                let rgb = [img[p], img[p + 1], img[p + 2]];
                assert(sx < 0x8000_0000 && sy < 0x8000_0000) by (nonlinear_arith)
                    requires
                        sx < cw,
                        cw <= 0x7FFF_FFFF,
                        sy == k / (cw as u64),
                        k < n,
                        n == cw * ch,
                        ch <= 0x7FFF_FFFF,
                        cw > 0,
                ;
                assert(sx as i64 * scale as i64 <= 0x4000_0000_0000_0000 && sx as i64 * scale as i64 >= -0x4000_0000_0000_0000) by (nonlinear_arith)
                    requires
                        0 <= sx < 0x8000_0000,
                        -0x8000_0000 <= scale < 0x8000_0000,
                ;
                assert(sy as i64 * scale as i64 <= 0x4000_0000_0000_0000 && sy as i64 * scale as i64 >= -0x4000_0000_0000_0000) by (nonlinear_arith)
                    requires
                        0 <= sy < 0x8000_0000,
                        -0x8000_0000 <= scale < 0x8000_0000,
                ;
                self.fill_rect(ox as i64 + sx as i64 * scale as i64, oy as i64 + sy as i64 * scale as i64, scale as i64, scale as i64, rgb);
                proof {
                    assert(rgb@ =~= seq![img@[4 * k], img@[4 * k + 1], img@[4 * k + 2]]);
                }
            }
            k += 1;
        }
    }
}

/// Menu background color.
pub open spec fn menu_bg() -> [u8; 3] {
    [0xF2, 0xF2, 0xF2]
}

/// Menu border color.
pub open spec fn menu_border() -> [u8; 3] {
    [0x30, 0x30, 0x30]
}

/// Menu label color.
pub open spec fn menu_text() -> [u8; 3] {
    [0x10, 0x10, 0x10]
}

/// Color of the hovered menu row.
pub open spec fn menu_hi() -> [u8; 3] {
    [0xC8, 0xD8, 0xF0]
}

/// The top of menu row `i` scrolled by `scroll` pixels.
pub open spec fn row_top(i: int, scroll: int) -> int {
    2 + i * MENU_ROW_H - scroll
}

/// A buffer with the first `n` menu rows drawn: each row that shows on a canvas `h`
/// high gets the highlight when hovered and then its label.
pub open spec fn menu_rows(px: Seq<u8>, w: int, h: int, labels: Seq<String>, scroll: int, hover: Option<usize>, n: nat) -> Seq<u8>
    decreases n,
{
    if n == 0 {
        px
    } else {
        let prev = menu_rows(px, w, h, labels, scroll, hover, (n - 1) as nat);
        let i = n - 1;
        let y = row_top(i, scroll);
        if y + MENU_ROW_H <= 0 || y >= h {
            prev
        } else {
            let lit = if hover == Some(i as usize) { filled(prev, w, 0, y, w, MENU_ROW_H as int, menu_hi()) } else { prev };
            text_px(lit, w, 6, y + 3, MENU_SCALE as int, labels[i]@, menu_text(), labels[i]@.len())
        }
    }
}

/// A `w` by `h` buffer painted as the whole menu.
pub open spec fn menu_px(px: Seq<u8>, w: int, h: int, labels: Seq<String>, scroll: int, hover: Option<usize>) -> Seq<u8> {
    let rows = menu_rows(filled(px, w, 0, 0, w, h, menu_bg()), w, h, labels, scroll, hover, labels.len());
    painted(rows, w, menu_border(), |cx: int, cy: int| on_outline(cx, cy, 0, 0, w, h))
}

impl<'a> Canvas<'a> {
    /// Fill the whole canvas with a scrollable menu: `labels` one per `MENU_ROW_H`-pixel
    /// row, offset by `scroll` pixels, with the `hover`ed row highlighted.
    pub fn menu_list(&mut self, labels: &[String], scroll: i32, hover: Option<usize>)
        requires
            canvas_wf(old(self)@),
        ensures
            final(self)@ == (CanvasView {
                pixels: menu_px(old(self)@.pixels, old(self)@.w, old(self)@.h, labels@, scroll as int, hover),
                ..old(self)@
            }),
    {
        let bg: [u8; 3] = [0xF2, 0xF2, 0xF2];
        let border: [u8; 3] = [0x30, 0x30, 0x30];
        let text: [u8; 3] = [0x10, 0x10, 0x10];
        let hi: [u8; 3] = [0xC8, 0xD8, 0xF0];
        assert(bg =~= menu_bg() && border =~= menu_border() && text =~= menu_text() && hi =~= menu_hi());
        let cw = self.w as i64;
        let chh = self.h as i64;
        self.fill_rect(0, 0, cw, chh, bg);
        let ghost base = self@.pixels;
        let n = labels.len();
        let mut i: usize = 0;
        while i < n
            invariant
                canvas_wf(self@),
                self@.w == old(self)@.w,
                self@.h == old(self)@.h,
                cw == self@.w,
                chh == self@.h,
                n == labels@.len(),
                0 <= i <= n,
                text == menu_text(),
                hi == menu_hi(),
                self@.pixels == menu_rows(base, self@.w, self@.h, labels@, scroll as int, hover, i as nat),
            decreases n - i,
        {
            assert(i * 22 <= 22 * 0xFFFF_FFFF_FFFF_FFFF) by (nonlinear_arith)
                requires
                    0 <= i <= 0xFFFF_FFFF_FFFF_FFFF,
            ;
            let y = 2 + i as i128 * 22 - scroll as i128;
            if y + 22 <= 0 || y >= chh as i128 {
            } else {
                let label = labels[i].as_str();
                if hover == Some(i) {
                    self.fill_rect(0, y as i64, cw, 22, hi);
                }
                self.text(6, y as i64 + 3, 2, label, text);
            }
            i += 1;
        }
        self.stroke_rect(0, 0, cw, chh, border);
    }
}

/// A buffer with the first `n` source pixels of `img` (`cw` wide) blitted at `(ox, oy)`,
/// each opaque enough to show (alpha not zero) as a `scale` square of its color.
pub open spec fn blit_px(px: Seq<u8>, w: int, img: Seq<u8>, cw: int, ox: int, oy: int, scale: int, n: nat) -> Seq<u8>
    decreases n,
{
    if n == 0 {
        px
    } else {
        let prev = blit_px(px, w, img, cw, ox, oy, scale, (n - 1) as nat);
        let k = n - 1;
        if img[4 * k + 3] != 0 {
            let rgb: [u8; 3] = [img[4 * k], img[4 * k + 1], img[4 * k + 2]];
            filled(prev, w, ox + (k % cw) * scale, oy + (k / cw) * scale, scale, scale, rgb)
        } else {
            prev
        }
    }
}

/// The longest label's length in characters among the first `n` labels (0 for none).
pub open spec fn longest_label(labels: Seq<String>, n: nat) -> nat
    decreases n,
{
    if n == 0 {
        0
    } else {
        let prev = longest_label(labels, (n - 1) as nat);
        let len = labels[n - 1]@.len();
        if len > prev {
            len
        } else {
            prev
        }
    }
}

/// `v` clamped to `lo..=hi`.
pub open spec fn clamp(v: int, lo: int, hi: int) -> int {
    if v < lo {
        lo
    } else if v > hi {
        hi
    } else {
        v
    }
}

/// The height of `count` menu rows plus the menu's margins.
pub open spec fn menu_content_h(count: int) -> int {
    count * MENU_ROW_H + 4
}

/// The menu's size for `labels`: wide enough for the longest label in the bitmap font
/// (six columns when there are none) within 80 to 480 pixels, and tall enough for every
/// row within one row and `MENU_MAX_H`.
pub open spec fn spec_menu_size(labels: Seq<String>) -> (int, int) {
    let cols = if labels.len() == 0 { 6 } else { longest_label(labels, labels.len()) as int };
    (clamp(cols * 8 * MENU_SCALE + 12, 80, 480), clamp(menu_content_h(labels.len() as int), MENU_ROW_H + 4, MENU_MAX_H as int))
}

/// The size of a menu listing `labels`.
pub fn menu_size(labels: &[String]) -> (r: (u32, u32))
    ensures
        (r.0 as int, r.1 as int) == spec_menu_size(labels@),
{
    let n = labels.len();
    let mut cols: usize = 0;
    let mut i: usize = 0;
    while i < n
        invariant
            n == labels@.len(),
            0 <= i <= n,
            cols == longest_label(labels@, i as nat),
        decreases n - i,
    {
        let len = labels[i].as_str().unicode_len();
        if len > cols {
            cols = len;
        }
        i += 1;
    }
    if n == 0 {
        cols = 6;
    }
    let w: u32 = if cols >= 30 {
        480
    } else if (cols as u32) * 16 + 12 < 80 {
        80
    } else {
        (cols as u32) * 16 + 12
    };
    let h: u32 = if n >= 29 {
        640
    } else if (n as u32) * 22 + 4 < 26 {
        26
    } else {
        (n as u32) * 22 + 4
    };
    (w, h)
}

/// How far a menu of `count` rows in a window `height` pixels tall can scroll.
pub fn menu_max_scroll(count: usize, height: u32) -> (r: i32)
    requires
        menu_content_h(count as int) <= i32::MAX,
    ensures
        r == (if menu_content_h(count as int) - height > 0 { menu_content_h(count as int) - height } else { 0 }),
{
    let content = count as i64 * 22 + 4;
    let d = content - height as i64;
    if d > 0 {
        d as i32
    } else {
        0
    }
}

/// The row under pointer `cursor` in a menu window of size `dim` scrolled by `scroll`:
/// rows start two pixels down and are `MENU_ROW_H` apart (a pointer above the first row's
/// top rounds into it); `None` off the window or past the last of `count` rows.
pub open spec fn spec_menu_hover(cursor: (i32, i32), dim: (u32, u32), scroll: i32, count: int) -> Option<int> {
    let (cx, cy) = cursor;
    if cx < 0 || cy < 0 || cx >= dim.0 as i32 || cy >= dim.1 as i32 {
        None
    } else {
        let v = cy + scroll - 2;
        if v < -(MENU_ROW_H - 1) {
            None
        } else {
            let q = if v < 0 { 0 } else { v / MENU_ROW_H as int };
            if q < count {
                Some(q)
            } else {
                None
            }
        }
    }
}

/// The menu row under the pointer.
pub fn menu_hover(cursor: (i32, i32), dim: (u32, u32), scroll: i32, count: usize) -> (r: Option<usize>)
    ensures
        match spec_menu_hover(cursor, dim, scroll, count as int) {
            Some(q) => r == Some(q as usize),
            None => r is None,
        },
{
    let (cx, cy) = cursor;
    if cx < 0 || cy < 0 || cx >= dim.0 as i32 || cy >= dim.1 as i32 {
        return None;
    }
    let v = cy as i64 + scroll as i64 - 2;
    if v < -21 {
        return None;
    }
    let q: i64 = if v < 0 {
        0
    } else {
        v / 22
    };
    if (q as u64) < (count as u64) {
        Some(q as usize)
    } else {
        None
    }
}

} // verus!
