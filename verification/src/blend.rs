use vstd::prelude::*;

use crate::buffer::PixelBuffer;
use crate::pixel::Pixel;

verus! {

/// How a source pixel is combined with the destination pixel under it.
/// All four modes expect both buffers in premultiplied alpha.
#[derive(Clone, Copy, PartialEq, Eq, Structural, Debug)]
pub enum BlendMode {
    Normal,
    Multiply,
    Screen,
    Luminosity,
}

/// `(a * b) / 255`, the 8-bit fixed-point product of two channels.
pub open spec fn mul255(a: int, b: int) -> int {
    (a * b) / 255
}

pub open spec fn clamp255(v: int) -> int {
    if v < 0 {
        0
    } else if v > 255 {
        255
    } else {
        v
    }
}

/// Standard premultiplied "over" compositing for one channel.
pub open spec fn over_channel(sc: int, sa: int, dc: int) -> int {
    clamp255(sc + mul255(dc, 255 - sa))
}

/// Luminance of a pixel's color channels on the 0..255 scale,
/// Rec.-709-style weights.
pub open spec fn luminance255(p: Pixel) -> int {
    (2126 * p.r + 7152 * p.g + 722 * p.b) / 10000
}

/// The blended pixel for source `s` over destination `d` in `mode`.
pub open spec fn blend_spec(mode: BlendMode, s: Pixel, d: Pixel) -> Pixel {
    match mode {
        BlendMode::Normal => Pixel {
            r: over_channel(s.r as int, s.a as int, d.r as int) as u8,
            g: over_channel(s.g as int, s.a as int, d.g as int) as u8,
            b: over_channel(s.b as int, s.a as int, d.b as int) as u8,
            a: over_channel(s.a as int, s.a as int, d.a as int) as u8,
        },
        BlendMode::Multiply => Pixel {
            r: multiply_channel(s.r as int, s.a as int, d.r as int, d.a as int) as u8,
            g: multiply_channel(s.g as int, s.a as int, d.g as int, d.a as int) as u8,
            b: multiply_channel(s.b as int, s.a as int, d.b as int, d.a as int) as u8,
            a: over_channel(s.a as int, s.a as int, d.a as int) as u8,
        },
        BlendMode::Screen => Pixel {
            r: screen_channel(s.r as int, d.r as int) as u8,
            g: screen_channel(s.g as int, d.g as int) as u8,
            b: screen_channel(s.b as int, d.b as int) as u8,
            a: over_channel(s.a as int, s.a as int, d.a as int) as u8,
        },
        BlendMode::Luminosity => Pixel {
            r: luminosity_channel(s, d, d.r as int) as u8,
            g: luminosity_channel(s, d, d.g as int) as u8,
            b: luminosity_channel(s, d, d.b as int) as u8,
            a: over_channel(s.a as int, s.a as int, d.a as int) as u8,
        },
    }
}

/// Multiply blend: `src * dst` plus the parts of either layer the other
/// does not cover.
pub open spec fn multiply_channel(sc: int, sa: int, dc: int, da: int) -> int {
    clamp255(mul255(sc, dc) + mul255(sc, 255 - da) + mul255(dc, 255 - sa))
}

/// Screen blend: `1 - (1 - src)(1 - dst)` in premultiplied form.
pub open spec fn screen_channel(sc: int, dc: int) -> int {
    clamp255(sc + dc - mul255(sc, dc))
}

/// Luminosity blend: shift the destination channel so the destination takes
/// the source's luminance while keeping its own hue, then composite the
/// shifted color over the destination by the source alpha.
pub open spec fn luminosity_channel(s: Pixel, d: Pixel, dc: int) -> int {
    clamp255(mul255(clamp255(dc + luminance255(s) - luminance255(d)), s.a as int) + mul255(
        dc as int,
        255 - s.a,
    ))
}

fn mul255_exec(a: u32, b: u32) -> (r: u32)
    requires
        a <= 255,
        b <= 255,
    ensures
        r == mul255(a as int, b as int),
        r <= 255,
{
    proof {
        assert(a * b <= 255 * 255) by (nonlinear_arith)
            requires
                a <= 255,
                b <= 255,
        ;
    }
    (a * b) / 255
}

fn clamp255_exec(v: i64) -> (r: u8)
    ensures
        r == clamp255(v as int),
{
    if v < 0 {
        0
    } else if v > 255 {
        255
    } else {
        v as u8
    }
}

fn luminance255_exec(p: Pixel) -> (l: u32)
    ensures
        l == luminance255(p),
        l <= 255,
{
    (2126 * (p.r as u32) + 7152 * (p.g as u32) + 722 * (p.b as u32)) / 10000
}

/// Blends one source pixel over one destination pixel.
pub fn blend_pixel(mode: BlendMode, s: Pixel, d: Pixel) -> (r: Pixel)
    ensures
        r == blend_spec(mode, s, d),
{
    let sa: u32 = s.a as u32;
    match mode {
        BlendMode::Normal => {
            Pixel::new(
                over_channel_exec(s.r as u32, sa, d.r as u32),
                over_channel_exec(s.g as u32, sa, d.g as u32),
                over_channel_exec(s.b as u32, sa, d.b as u32),
                over_channel_exec(s.a as u32, sa, d.a as u32),
            )
        },
        BlendMode::Multiply => {
            let da: u32 = d.a as u32;
            Pixel::new(
                multiply_channel_exec(s.r as u32, sa, d.r as u32, da),
                multiply_channel_exec(s.g as u32, sa, d.g as u32, da),
                multiply_channel_exec(s.b as u32, sa, d.b as u32, da),
                over_channel_exec(s.a as u32, sa, d.a as u32),
            )
        },
        BlendMode::Screen => {
            Pixel::new(
                screen_channel_exec(s.r as u32, d.r as u32),
                screen_channel_exec(s.g as u32, d.g as u32),
                screen_channel_exec(s.b as u32, d.b as u32),
                over_channel_exec(s.a as u32, sa, d.a as u32),
            )
        },
        BlendMode::Luminosity => {
            let ls: u32 = luminance255_exec(s);
            let ld: u32 = luminance255_exec(d);
            Pixel::new(
                luminosity_channel_exec(s, d, ls, ld, d.r as u32),
                luminosity_channel_exec(s, d, ls, ld, d.g as u32),
                luminosity_channel_exec(s, d, ls, ld, d.b as u32),
                over_channel_exec(s.a as u32, sa, d.a as u32),
            )
        },
    }
}

fn over_channel_exec(sc: u32, sa: u32, dc: u32) -> (r: u8)
    requires
        sc <= 255,
        sa <= 255,
        dc <= 255,
    ensures
        r == over_channel(sc as int, sa as int, dc as int),
{
    let v: u32 = sc + mul255_exec(dc, 255 - sa);
    clamp255_exec(v as i64)
}

fn multiply_channel_exec(sc: u32, sa: u32, dc: u32, da: u32) -> (r: u8)
    requires
        sc <= 255,
        sa <= 255,
        dc <= 255,
        da <= 255,
    ensures
        r == multiply_channel(sc as int, sa as int, dc as int, da as int),
{
    let v: u32 = mul255_exec(sc, dc) + mul255_exec(sc, 255 - da) + mul255_exec(dc, 255 - sa);
    clamp255_exec(v as i64)
}

fn screen_channel_exec(sc: u32, dc: u32) -> (r: u8)
    requires
        sc <= 255,
        dc <= 255,
    ensures
        r == screen_channel(sc as int, dc as int),
{
    let v: i64 = (sc as i64) + (dc as i64) - (mul255_exec(sc, dc) as i64);
    clamp255_exec(v)
}

fn luminosity_channel_exec(s: Pixel, d: Pixel, ls: u32, ld: u32, dc: u32) -> (r: u8)
    requires
        ls == luminance255(s),
        ld == luminance255(d),
        ls <= 255,
        ld <= 255,
        dc <= 255,
    ensures
        r == luminosity_channel(s, d, dc as int),
{
    let moved: u8 = clamp255_exec((dc as i64) + (ls as i64) - (ld as i64));
    let v: u32 = mul255_exec(moved as u32, s.a as u32) + mul255_exec(dc, 255 - (s.a as u32));
    clamp255_exec(v as i64)
}

/// A per-pixel channel transformation.
#[derive(Clone, Copy, PartialEq, Eq, Structural, Debug)]
pub enum PixelMap {
    /// Scale the color channels by alpha: straight to premultiplied.
    Premultiply,
    /// Divide the color channels by alpha: premultiplied to straight.
    Unpremultiply,
    /// Divide all four channels by a positive constant.
    DivChannels(u8),
}

pub open spec fn apply_map(op: PixelMap, p: Pixel) -> Pixel {
    match op {
        PixelMap::Premultiply => Pixel {
            r: mul255(p.r as int, p.a as int) as u8,
            g: mul255(p.g as int, p.a as int) as u8,
            b: mul255(p.b as int, p.a as int) as u8,
            a: p.a,
        },
        PixelMap::Unpremultiply => if p.a == 0 {
            Pixel { r: 0, g: 0, b: 0, a: 0 }
        } else {
            Pixel {
                r: clamp255((p.r * 255) / (p.a as int)) as u8,
                g: clamp255((p.g * 255) / (p.a as int)) as u8,
                b: clamp255((p.b * 255) / (p.a as int)) as u8,
                a: p.a,
            }
        },
        PixelMap::DivChannels(d) => Pixel {
            r: ((p.r as int) / (d as int)) as u8,
            g: ((p.g as int) / (d as int)) as u8,
            b: ((p.b as int) / (d as int)) as u8,
            a: ((p.a as int) / (d as int)) as u8,
        },
    }
}

pub fn apply_map_exec(op: PixelMap, p: Pixel) -> (r: Pixel)
    requires
        !(op matches PixelMap::DivChannels(d) && d == 0),
    ensures
        r == apply_map(op, p),
{
    match op {
        PixelMap::Premultiply => {
            let a: u32 = p.a as u32;
            Pixel::new(
                mul255_exec(p.r as u32, a) as u8,
                mul255_exec(p.g as u32, a) as u8,
                mul255_exec(p.b as u32, a) as u8,
                p.a,
            )
        },
        PixelMap::Unpremultiply => {
            if p.a == 0 {
                Pixel::new(0, 0, 0, 0)
            } else {
                let a: u32 = p.a as u32;
                Pixel::new(
                    clamp255_exec((((p.r as u32) * 255) / a) as i64),
                    clamp255_exec((((p.g as u32) * 255) / a) as i64),
                    clamp255_exec((((p.b as u32) * 255) / a) as i64),
                    p.a,
                )
            }
        },
        PixelMap::DivChannels(d) => {
            Pixel::new(p.r / d, p.g / d, p.b / d, p.a / d)
        },
    }
}

impl PixelBuffer {
    /// A copy of this buffer with `op` applied to every pixel.
    pub fn mapped(&self, op: PixelMap) -> (r: PixelBuffer)
        requires
            self.wf(),
            !(op matches PixelMap::DivChannels(d) && d == 0),
        ensures
            r.wf(),
            r.w() == self.w(),
            r.h() == self.h(),
            forall|i: int, j: int|
                0 <= i < self.w() && 0 <= j < self.h() ==> r.pix(i, j) == apply_map(
                    op,
                    self.pix(i, j),
                ),
    {
        let w = self.width();
        let h = self.height();
        let mut r = PixelBuffer::new_filled(w, h, Pixel::new(0, 0, 0, 0));
        let mut y: usize = 0;
        while y < h
            invariant
                self.wf(),
                r.wf(),
                r.w() == self.w(),
                r.h() == self.h(),
                w == self.w(),
                h == self.h(),
                y <= h,
                !(op matches PixelMap::DivChannels(d) && d == 0),
                forall|i: int, j: int|
                    0 <= i < self.w() && 0 <= j < y ==> r.pix(i, j) == apply_map(
                        op,
                        self.pix(i, j),
                    ),
            decreases h - y,
        {
            let mut x: usize = 0;
            while x < w
                invariant
                    self.wf(),
                    r.wf(),
                    r.w() == self.w(),
                    r.h() == self.h(),
                    w == self.w(),
                    h == self.h(),
                    y < h,
                    x <= w,
                    !(op matches PixelMap::DivChannels(d) && d == 0),
                    forall|i: int, j: int|
                        0 <= i < self.w() && 0 <= j < y ==> r.pix(i, j) == apply_map(
                            op,
                            self.pix(i, j),
                        ),
                    forall|i: int|
                        0 <= i < x ==> r.pix(i, y as int) == apply_map(op, self.pix(i, y as int)),
                decreases w - x,
            {
                let p = self.get(x, y);
                r.set(x, y, apply_map_exec(op, p));
                x = x + 1;
            }
            y = y + 1;
        }
        r
    }

    /// Straight-alpha to premultiplied-alpha conversion.
    pub fn to_premultiplied_alpha(&self) -> (r: PixelBuffer)
        requires
            self.wf(),
        ensures
            r.wf(),
            r.w() == self.w(),
            r.h() == self.h(),
            forall|i: int, j: int|
                0 <= i < self.w() && 0 <= j < self.h() ==> r.pix(i, j) == apply_map(
                    PixelMap::Premultiply,
                    self.pix(i, j),
                ),
    {
        self.mapped(PixelMap::Premultiply)
    }

    /// Premultiplied-alpha to straight-alpha conversion.
    pub fn to_unpremultiplied_alpha(&self) -> (r: PixelBuffer)
        requires
            self.wf(),
        ensures
            r.wf(),
            r.w() == self.w(),
            r.h() == self.h(),
            forall|i: int, j: int|
                0 <= i < self.w() && 0 <= j < self.h() ==> r.pix(i, j) == apply_map(
                    PixelMap::Unpremultiply,
                    self.pix(i, j),
                ),
    {
        self.mapped(PixelMap::Unpremultiply)
    }

    /// Masks this premultiplied buffer back to `mask`'s alpha: every channel
    /// of every pixel is scaled by the alpha of the pixel at the same
    /// position in `mask`, discarding anything outside `mask`'s silhouette.
    pub fn masked_by_premultiplied_alpha(&self, mask: &PixelBuffer) -> (r: PixelBuffer)
        requires
            self.wf(),
            mask.wf(),
            mask.w() == self.w(),
            mask.h() == self.h(),
        ensures
            r.wf(),
            r.w() == self.w(),
            r.h() == self.h(),
            forall|i: int, j: int|
                0 <= i < self.w() && 0 <= j < self.h() ==> r.pix(i, j) == mask_pixel(
                    self.pix(i, j),
                    mask.pix(i, j),
                ),
    {
        let w = self.width();
        let h = self.height();
        let mut r = PixelBuffer::new_filled(w, h, Pixel::new(0, 0, 0, 0));
        let mut y: usize = 0;
        while y < h
            invariant
                self.wf(),
                mask.wf(),
                r.wf(),
                r.w() == self.w(),
                r.h() == self.h(),
                mask.w() == self.w(),
                mask.h() == self.h(),
                w == self.w(),
                h == self.h(),
                y <= h,
                forall|i: int, j: int|
                    0 <= i < self.w() && 0 <= j < y ==> r.pix(i, j) == mask_pixel(
                        self.pix(i, j),
                        mask.pix(i, j),
                    ),
            decreases h - y,
        {
            let mut x: usize = 0;
            while x < w
                invariant
                    self.wf(),
                    mask.wf(),
                    r.wf(),
                    r.w() == self.w(),
                    r.h() == self.h(),
                    mask.w() == self.w(),
                    mask.h() == self.h(),
                    w == self.w(),
                    h == self.h(),
                    y < h,
                    x <= w,
                    forall|i: int, j: int|
                        0 <= i < self.w() && 0 <= j < y ==> r.pix(i, j) == mask_pixel(
                            self.pix(i, j),
                            mask.pix(i, j),
                        ),
                    forall|i: int|
                        0 <= i < x ==> r.pix(i, y as int) == mask_pixel(
                            self.pix(i, y as int),
                            mask.pix(i, y as int),
                        ),
                decreases w - x,
            {
                let p = self.get(x, y);
                let m = mask.get(x, y);
                let ma: u32 = m.a as u32;
                let masked = Pixel::new(
                    mul255_exec(p.r as u32, ma) as u8,
                    mul255_exec(p.g as u32, ma) as u8,
                    mul255_exec(p.b as u32, ma) as u8,
                    mul255_exec(p.a as u32, ma) as u8,
                );
                r.set(x, y, masked);
                x = x + 1;
            }
            y = y + 1;
        }
        r
    }

    /// Blends `src` over this buffer with its top-left corner at `(px, py)`
    /// in `mode`; source pixels falling outside this buffer are clipped.
    pub fn blend_blit(&mut self, src: &PixelBuffer, px: i32, py: i32, mode: BlendMode)
        requires
            old(self).wf(),
            src.wf(),
            -16777216 <= px <= 16777216,
            -16777216 <= py <= 16777216,
        ensures
            final(self).wf(),
            final(self).w() == old(self).w(),
            final(self).h() == old(self).h(),
            forall|i: int, j: int|
                0 <= i < old(self).w() && 0 <= j < old(self).h() ==> final(self).pix(i, j) == (
                if px <= i < px + src.w() && py <= j < py + src.h() {
                    blend_spec(mode, src.pix(i - px, j - py), old(self).pix(i, j))
                } else {
                    old(self).pix(i, j)
                }),
    {
        let sw = src.width();
        let sh = src.height();
        let mut sy: usize = 0;
        while sy < sh
            invariant
                self.wf(),
                src.wf(),
                self.w() == old(self).w(),
                self.h() == old(self).h(),
                sw == src.w(),
                sh == src.h(),
                sy <= sh,
                -16777216 <= px <= 16777216,
                -16777216 <= py <= 16777216,
                forall|i: int, j: int|
                    0 <= i < old(self).w() && 0 <= j < old(self).h() ==> self.pix(i, j) == (
                    if px <= i < px + src.w() && py <= j < py + sy {
                        blend_spec(mode, src.pix(i - px, j - py), old(self).pix(i, j))
                    } else {
                        old(self).pix(i, j)
                    }),
            decreases sh - sy,
        {
            let mut sx: usize = 0;
            while sx < sw
                invariant
                    self.wf(),
                    src.wf(),
                    self.w() == old(self).w(),
                    self.h() == old(self).h(),
                    sw == src.w(),
                    sh == src.h(),
                    sy < sh,
                    sx <= sw,
                    -16777216 <= px <= 16777216,
                    -16777216 <= py <= 16777216,
                    forall|i: int, j: int|
                        0 <= i < old(self).w() && 0 <= j < old(self).h() ==> self.pix(i, j) == (
                        if px <= i < px + src.w() && (py <= j < py + sy || (j == py + sy && px <= i
                            < px + sx)) {
                            blend_spec(mode, src.pix(i - px, j - py), old(self).pix(i, j))
                        } else {
                            old(self).pix(i, j)
                        }),
                decreases sw - sx,
            {
                let di: i64 = (px as i64) + (sx as i64);
                let dj: i64 = (py as i64) + (sy as i64);
                if di >= 0 && dj >= 0 && (di as u64) < (self.width() as u64) && (dj as u64) < (
                self.height() as u64) {
                    let s = src.get(sx, sy);
                    let d = self.get(di as usize, dj as usize);
                    self.set(di as usize, dj as usize, blend_pixel(mode, s, d));
                }
                sx = sx + 1;
            }
            sy = sy + 1;
        }
    }
}

/// Every channel of `p` scaled by `m`'s alpha.
pub open spec fn mask_pixel(p: Pixel, m: Pixel) -> Pixel {
    Pixel {
        r: mul255(p.r as int, m.a as int) as u8,
        g: mul255(p.g as int, m.a as int) as u8,
        b: mul255(p.b as int, m.a as int) as u8,
        a: mul255(p.a as int, m.a as int) as u8,
    }
}

} // verus!
