use vstd::prelude::*;

use vstd::arithmetic::div_mod::lemma_fundamental_div_mod_converse;

use crate::buffer::in_rect;
use crate::buffer::same_image;
use crate::buffer::PixelBuffer;
use crate::pixel::Pixel;

verus! {

/// A monospaced bitmap font: one pre-rendered glyph cell per byte code.
/// Glyph rasterization happens outside this crate; the glyphs arrive as
/// plain pixel buffers, all of the same cell size.
pub struct Font {
    glyph_width: usize,
    glyph_height: usize,
    glyphs: Vec<PixelBuffer>,
}

impl Font {
    pub closed spec fn gw(self) -> int {
        self.glyph_width as int
    }

    pub closed spec fn gh(self) -> int {
        self.glyph_height as int
    }

    /// The glyph bitmap for byte code `c`.
    pub closed spec fn glyph(self, c: int) -> PixelBuffer {
        self.glyphs[c]
    }

    pub closed spec fn glyphs_ok(self) -> bool {
        &&& self.glyphs.len() == 256
        &&& forall|c: int|
            0 <= c < 256 ==> (#[trigger] self.glyphs[c]).wf() && self.glyphs[c].w()
                == self.glyph_width && self.glyphs[c].h() == self.glyph_height
    }

    pub open spec fn wf(self) -> bool {
        &&& self.glyphs_ok()
        &&& 1 <= self.gw() <= 64
        &&& 1 <= self.gh() <= 64
        &&& forall|c: int|
            0 <= c < 256 ==> (#[trigger] self.glyph(c)).wf() && self.glyph(c).w() == self.gw()
                && self.glyph(c).h() == self.gh()
    }

    /// A font whose 256 glyph cells are all fully transparent.
    pub fn new(glyph_width: usize, glyph_height: usize) -> (f: Font)
        requires
            1 <= glyph_width <= 64,
            1 <= glyph_height <= 64,
        ensures
            f.wf(),
            f.gw() == glyph_width,
            f.gh() == glyph_height,
    {
        let blank = PixelBuffer::new_filled(glyph_width, glyph_height, Pixel::new(0, 0, 0, 0));
        let mut glyphs: Vec<PixelBuffer> = Vec::new();
        let mut c: usize = 0;
        while c < 256
            invariant
                c <= 256,
                glyphs@.len() == c,
                blank.wf(),
                blank.w() == glyph_width,
                blank.h() == glyph_height,
                forall|k: int|
                    0 <= k < c ==> (#[trigger] glyphs@[k]).wf() && glyphs@[k].w() == glyph_width
                        && glyphs@[k].h() == glyph_height,
            decreases 256 - c,
        {
            glyphs.push(blank.duplicate());
            c = c + 1;
        }
        Font { glyph_width, glyph_height, glyphs }
    }

    /// Installs the glyph for byte code `c`.
    pub fn set_glyph(&mut self, c: u8, g: PixelBuffer)
        requires
            old(self).wf(),
            g.wf(),
            g.w() == old(self).gw(),
            g.h() == old(self).gh(),
        ensures
            final(self).wf(),
            final(self).gw() == old(self).gw(),
            final(self).gh() == old(self).gh(),
            final(self).glyph(c as int) == g,
            forall|d: int|
                0 <= d < 256 && d != c ==> final(self).glyph(d) == old(self).glyph(d),
    {
        self.glyphs[c as usize] = g;
    }

    pub fn glyph_ref(&self, c: u8) -> (g: &PixelBuffer)
        requires
            self.wf(),
        ensures
            *g == self.glyph(c as int),
    {
        &self.glyphs[c as usize]
    }

    pub fn glyph_width(&self) -> (w: usize)
        ensures
            w == self.gw(),
    {
        self.glyph_width
    }

    pub fn glyph_height(&self) -> (h: usize)
        ensures
            h == self.gh(),
    {
        self.glyph_height
    }

    /// Replaces the glyph of the digit zero with the glyph of the letter
    /// O, so a printed zero cannot be mistaken for an eight.
    pub fn remap_zero_to_letter_o(&mut self)
        requires
            old(self).wf(),
        ensures
            final(self).wf(),
            final(self).gw() == old(self).gw(),
            final(self).gh() == old(self).gh(),
            same_image(final(self).glyph(48), old(self).glyph(79)),
            forall|d: int|
                0 <= d < 256 && d != 48 ==> final(self).glyph(d) == old(self).glyph(d),
    {
        let o = self.glyph_ref(79).duplicate();
        self.set_glyph(48, o);
    }
}

/// The pixel that stamping `text` with its top-left corner at `(px, py)`
/// leaves at `(i, j)`: the covering glyph's pixel where that pixel is not
/// transparent, the underlying pixel `under` everywhere else.
pub open spec fn text_pixel(
    font: Font,
    text: Seq<u8>,
    px: int,
    py: int,
    i: int,
    j: int,
    under: Pixel,
) -> Pixel {
    let k = (i - px) / font.gw();
    let gx = (i - px) % font.gw();
    if px <= i && 0 <= k < text.len() && py <= j < py + font.gh() && font.glyph(
        text[k] as int,
    ).pix(gx, j - py).a != 0 {
        font.glyph(text[k] as int).pix(gx, j - py)
    } else {
        under
    }
}

/// Stamps `text` left to right with its top-left corner at `(px, py)`,
/// writing only inside the clip rectangle `(cx, cy, cw, ch)`; glyph pixels
/// with zero alpha leave the buffer untouched.
pub fn stamp_text_clipped(
    buf: &mut PixelBuffer,
    font: &Font,
    text: &Vec<u8>,
    px: i32,
    py: i32,
    cx: usize,
    cy: usize,
    cw: usize,
    ch: usize,
)
    requires
        old(buf).wf(),
        font.wf(),
        cx + cw <= old(buf).w(),
        cy + ch <= old(buf).h(),
        -16777216 <= px <= 16777216,
        -16777216 <= py <= 16777216,
        text@.len() <= 100000,
    ensures
        final(buf).wf(),
        final(buf).w() == old(buf).w(),
        final(buf).h() == old(buf).h(),
        forall|i: int, j: int|
            0 <= i < old(buf).w() && 0 <= j < old(buf).h() ==> final(buf).pix(i, j) == (if in_rect(
                i,
                j,
                cx as int,
                cy as int,
                cw as int,
                ch as int,
            ) {
                text_pixel(*font, text@, px as int, py as int, i, j, old(buf).pix(i, j))
            } else {
                old(buf).pix(i, j)
            }),
{
    let gw = font.glyph_width();
    let gh = font.glyph_height();
    let n = text.len();
    let mut k: usize = 0;
    while k < n
        invariant
            buf.wf(),
            font.wf(),
            buf.w() == old(buf).w(),
            buf.h() == old(buf).h(),
            cx + cw <= buf.w(),
            cy + ch <= buf.h(),
            -16777216 <= px <= 16777216,
            -16777216 <= py <= 16777216,
            n == text@.len(),
            n <= 100000,
            gw == font.gw(),
            gh == font.gh(),
            k <= n,
            forall|i: int, j: int|
                0 <= i < old(buf).w() && 0 <= j < old(buf).h() ==> buf.pix(i, j) == (if in_rect(
                    i,
                    j,
                    cx as int,
                    cy as int,
                    cw as int,
                    ch as int,
                ) && (i - px) / font.gw() < k {
                    text_pixel(*font, text@, px as int, py as int, i, j, old(buf).pix(i, j))
                } else {
                    old(buf).pix(i, j)
                }),
        decreases n - k,
    {
        let glyph = font.glyph_ref(text[k]);
        proof {
            assert(0 <= (k as int) * (gw as int) <= 6400000) by (nonlinear_arith)
                requires
                    0 <= k <= 100000,
                    0 <= gw <= 64,
            ;
        }
        let base_x: i64 = (px as i64) + (k as i64) * (gw as i64);
        let mut gy: usize = 0;
        while gy < gh
            invariant
                buf.wf(),
                font.wf(),
                buf.w() == old(buf).w(),
                buf.h() == old(buf).h(),
                cx + cw <= buf.w(),
                cy + ch <= buf.h(),
                -16777216 <= px <= 16777216,
                -16777216 <= py <= 16777216,
                n == text@.len(),
                n <= 100000,
                gw == font.gw(),
                gh == font.gh(),
                k < n,
                gy <= gh,
                *glyph == font.glyph(text@[k as int] as int),
                base_x == px + k * font.gw(),
                forall|i: int, j: int|
                    0 <= i < old(buf).w() && 0 <= j < old(buf).h() ==> buf.pix(i, j) == (
                    if in_rect(i, j, cx as int, cy as int, cw as int, ch as int) && ((i - px)
                        / font.gw() < k || (base_x <= i < base_x + font.gw() && j - py < gy)) {
                        text_pixel(*font, text@, px as int, py as int, i, j, old(buf).pix(i, j))
                    } else {
                        old(buf).pix(i, j)
                    }),
            decreases gh - gy,
        {
            let mut gx: usize = 0;
            while gx < gw
                invariant
                    buf.wf(),
                    font.wf(),
                    buf.w() == old(buf).w(),
                    buf.h() == old(buf).h(),
                    cx + cw <= buf.w(),
                    cy + ch <= buf.h(),
                    -16777216 <= px <= 16777216,
                    -16777216 <= py <= 16777216,
                    n == text@.len(),
                    n <= 100000,
                    gw == font.gw(),
                    gh == font.gh(),
                    k < n,
                    gy < gh,
                    gx <= gw,
                    *glyph == font.glyph(text@[k as int] as int),
                    base_x == px + k * font.gw(),
                    forall|i: int, j: int|
                        0 <= i < old(buf).w() && 0 <= j < old(buf).h() ==> buf.pix(i, j) == (
                        if in_rect(i, j, cx as int, cy as int, cw as int, ch as int) && ((i - px)
                            / font.gw() < k || (base_x <= i < base_x + font.gw() && (j - py < gy
                            || (j - py == gy && i - base_x < gx)))) {
                            text_pixel(*font, text@, px as int, py as int, i, j, old(buf).pix(i, j))
                        } else {
                            old(buf).pix(i, j)
                        }),
                decreases gw - gx,
            {
                proof {
                    assert(0 <= (k as int) * (gw as int) <= 6400000) by (nonlinear_arith)
                        requires
                            0 <= k <= 100000,
                            0 <= gw <= 64,
                    ;
                }
                let di: i64 = base_x + (gx as i64);
                let dj: i64 = (py as i64) + (gy as i64);
                proof {
                    lemma_fundamental_div_mod_converse(
                        (k as int) * font.gw() + gx as int,
                        font.gw(),
                        k as int,
                        gx as int,
                    );
                }
                if di >= (cx as i64) && dj >= (cy as i64) && di < ((cx + cw) as i64) && dj < ((cy
                    + ch) as i64) {
                    let sp = glyph.get(gx, gy);
                    if sp.a != 0 {
                        buf.set(di as usize, dj as usize, sp);
                    }
                }
                gx = gx + 1;
            }
            gy = gy + 1;
        }
        proof {
            assert forall|i: int|
                px + k * font.gw() <= i < px + (k + 1) * font.gw() implies #[trigger] ((i - px)
                / font.gw()) == k as int by {
                assert((k as int + 1) * font.gw() == k as int * font.gw() + font.gw())
                    by (nonlinear_arith);
                lemma_fundamental_div_mod_converse(
                    i - px,
                    font.gw(),
                    k as int,
                    i - px - k * font.gw(),
                );
            }
            assert forall|i: int| #[trigger] ((i - px) / font.gw()) == k as int implies px + k
                * font.gw() <= i < px + (k + 1) * font.gw() by {
                assert((k as int + 1) * font.gw() == k as int * font.gw() + font.gw())
                    by (nonlinear_arith);
                vstd::arithmetic::div_mod::lemma_fundamental_div_mod(i - px, font.gw());
                vstd::arithmetic::div_mod::lemma_mod_bound(i - px, font.gw());
            }
            assert forall|i: int, j: int|
                0 <= i < old(buf).w() && 0 <= j < old(buf).h() implies buf.pix(i, j) == (
            if in_rect(i, j, cx as int, cy as int, cw as int, ch as int) && (i - px) / font.gw()
                < k + 1 {
                text_pixel(*font, text@, px as int, py as int, i, j, old(buf).pix(i, j))
            } else {
                old(buf).pix(i, j)
            }) by {
                let q = (i - px) / font.gw();
                if in_rect(i, j, cx as int, cy as int, cw as int, ch as int) {
                    if q == k as int {
                        assert(px + k * font.gw() <= i < px + (k + 1) * font.gw());
                        assert((k as int + 1) * font.gw() == k as int * font.gw() + font.gw())
                            by (nonlinear_arith);
                        assert(base_x == px + k * font.gw());
                        assert(base_x <= i < base_x + font.gw());
                        if py <= j < py + font.gh() {
                            assert(j - py < gh);
                            assert(buf.pix(i, j) == text_pixel(
                                *font,
                                text@,
                                px as int,
                                py as int,
                                i,
                                j,
                                old(buf).pix(i, j),
                            ));
                        } else {
                            assert(buf.pix(i, j) == old(buf).pix(i, j));
                            assert(text_pixel(
                                *font,
                                text@,
                                px as int,
                                py as int,
                                i,
                                j,
                                old(buf).pix(i, j),
                            ) == old(buf).pix(i, j));
                        }
                    } else if q < k as int {
                        assert(buf.pix(i, j) == text_pixel(
                            *font,
                            text@,
                            px as int,
                            py as int,
                            i,
                            j,
                            old(buf).pix(i, j),
                        ));
                    } else {
                        assert((k as int + 1) * font.gw() == k as int * font.gw() + font.gw())
                            by (nonlinear_arith);
                        assert(base_x == px + k * font.gw());
                        if base_x <= i < base_x + font.gw() {
                            assert(px + k * font.gw() <= i < px + (k + 1) * font.gw());
                            assert(q == k as int);
                        }
                        assert(buf.pix(i, j) == old(buf).pix(i, j));
                    }
                }
            }
        }
        k = k + 1;
    }
    proof {
        assert forall|i: int, j: int|
            0 <= i < old(buf).w() && 0 <= j < old(buf).h() implies buf.pix(i, j) == (if in_rect(
            i,
            j,
            cx as int,
            cy as int,
            cw as int,
            ch as int,
        ) {
            text_pixel(*font, text@, px as int, py as int, i, j, old(buf).pix(i, j))
        } else {
            old(buf).pix(i, j)
        }) by {
            if in_rect(i, j, cx as int, cy as int, cw as int, ch as int) {
                if px <= i && 0 <= (i - px) / font.gw() < n {
                } else {
                    if px > i {
                        assert((i - px) / font.gw() < 0) by (nonlinear_arith)
                            requires
                                i - px < 0,
                                font.gw() >= 1,
                        ;
                    }
                }
            }
        }
    }
}

/// A single line of text rendered into a fresh buffer over `background`.
pub fn create_text_bitmap(font: &Font, text: &Vec<u8>, background: Pixel) -> (r: PixelBuffer)
    requires
        font.wf(),
        text@.len() <= 500,
        1 <= text@.len(),
    ensures
        r.wf(),
        r.w() == text@.len() * font.gw(),
        r.h() == font.gh(),
        forall|i: int, j: int|
            0 <= i < r.w() && 0 <= j < r.h() ==> r.pix(i, j) == text_pixel(
                *font,
                text@,
                0,
                0,
                i,
                j,
                background,
            ),
{
    let gw = font.glyph_width();
    let gh = font.glyph_height();
    proof {
        assert(text@.len() * font.gw() <= 500 * 64) by (nonlinear_arith)
            requires
                text@.len() <= 500,
                0 <= font.gw() <= 64,
        ;
    }
    let w: usize = text.len() * gw;
    let mut r = PixelBuffer::new_filled(w, gh, background);
    stamp_text_clipped(&mut r, font, text, 0, 0, 0, 0, w, gh);
    r
}

} // verus!
