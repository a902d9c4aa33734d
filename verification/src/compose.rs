use vstd::prelude::*;

use crate::buffer::dims_ok;
use crate::buffer::PixelBuffer;
use crate::pixel::Pixel;

verus! {

/// Horizontal placement of the narrower part when two parts are glued
/// vertically.
#[derive(Clone, Copy, PartialEq, Eq, Structural, Debug)]
pub enum HAlign {
    Left,
    Center,
}

/// Vertical placement of the shorter part when two parts are glued
/// horizontally.
#[derive(Clone, Copy, PartialEq, Eq, Structural, Debug)]
pub enum VAlign {
    Top,
    Center,
}

pub open spec fn max_int(a: int, b: int) -> int {
    if a >= b {
        a
    } else {
        b
    }
}

pub open spec fn halign_off(a: HAlign, outer: int, inner: int) -> int {
    match a {
        HAlign::Left => 0,
        HAlign::Center => (outer - inner) / 2,
    }
}

pub open spec fn valign_off(a: VAlign, outer: int, inner: int) -> int {
    match a {
        VAlign::Top => 0,
        VAlign::Center => (outer - inner) / 2,
    }
}

/// Pixel `(i, j)` of `top` glued above `bottom` with `gap` rows of `fill`
/// between them and each part aligned by `a` in the common width.
pub open spec fn vglue_pixel(
    top: PixelBuffer,
    bottom: PixelBuffer,
    a: HAlign,
    gap: int,
    fill: Pixel,
    i: int,
    j: int,
) -> Pixel {
    let rw = max_int(top.w(), bottom.w());
    let off_t = halign_off(a, rw, top.w());
    let off_b = halign_off(a, rw, bottom.w());
    if 0 <= j < top.h() && off_t <= i < off_t + top.w() {
        top.pix(i - off_t, j)
    } else if top.h() + gap <= j < top.h() + gap + bottom.h() && off_b <= i < off_b + bottom.w() {
        bottom.pix(i - off_b, j - top.h() - gap)
    } else {
        fill
    }
}

/// Pixel `(i, j)` of `left` glued beside `right` with `gap` columns of
/// `fill` between them and each part aligned by `a` in the common height.
pub open spec fn hglue_pixel(
    left: PixelBuffer,
    right: PixelBuffer,
    a: VAlign,
    gap: int,
    fill: Pixel,
    i: int,
    j: int,
) -> Pixel {
    let rh = max_int(left.h(), right.h());
    let off_l = valign_off(a, rh, left.h());
    let off_r = valign_off(a, rh, right.h());
    if 0 <= i < left.w() && off_l <= j < off_l + left.h() {
        left.pix(i, j - off_l)
    } else if left.w() + gap <= i < left.w() + gap + right.w() && off_r <= j < off_r + right.h() {
        right.pix(i - left.w() - gap, j - off_r)
    } else {
        fill
    }
}

/// Glues `top` above `bottom`, `gap` rows of `fill` apart.
pub fn glue_vertical(
    top: &PixelBuffer,
    bottom: &PixelBuffer,
    a: HAlign,
    gap: usize,
    fill: Pixel,
) -> (r: PixelBuffer)
    requires
        top.wf(),
        bottom.wf(),
        dims_ok(max_int(top.w(), bottom.w()), top.h() + gap + bottom.h()),
    ensures
        r.wf(),
        r.w() == max_int(top.w(), bottom.w()),
        r.h() == top.h() + gap + bottom.h(),
        forall|i: int, j: int|
            0 <= i < r.w() && 0 <= j < r.h() ==> r.pix(i, j) == vglue_pixel(
                *top,
                *bottom,
                a,
                gap as int,
                fill,
                i,
                j,
            ),
{
    let tw = top.width();
    let bw = bottom.width();
    let rw: usize = if tw >= bw {
        tw
    } else {
        bw
    };
    let rh: usize = top.height() + gap + bottom.height();
    let off_t: usize = match a {
        HAlign::Left => 0,
        HAlign::Center => (rw - tw) / 2,
    };
    let off_b: usize = match a {
        HAlign::Left => 0,
        HAlign::Center => (rw - bw) / 2,
    };
    let mut r = PixelBuffer::new_filled(rw, rh, fill);
    proof {
        assert(off_t + top.w() <= rw) by (nonlinear_arith)
            requires
                off_t == 0 || off_t == (rw - top.w()) / 2,
                0 <= top.w() <= rw,
        ;
        assert(off_b + bottom.w() <= rw) by (nonlinear_arith)
            requires
                off_b == 0 || off_b == (rw - bottom.w()) / 2,
                0 <= bottom.w() <= rw,
        ;
    }
    r.copy_blit(top, off_t, 0);
    r.copy_blit(bottom, off_b, top.height() + gap);
    r
}

/// Glues `left` beside `right`, `gap` columns of `fill` apart.
pub fn glue_horizontal(
    left: &PixelBuffer,
    right: &PixelBuffer,
    a: VAlign,
    gap: usize,
    fill: Pixel,
) -> (r: PixelBuffer)
    requires
        left.wf(),
        right.wf(),
        dims_ok(left.w() + gap + right.w(), max_int(left.h(), right.h())),
    ensures
        r.wf(),
        r.w() == left.w() + gap + right.w(),
        r.h() == max_int(left.h(), right.h()),
        forall|i: int, j: int|
            0 <= i < r.w() && 0 <= j < r.h() ==> r.pix(i, j) == hglue_pixel(
                *left,
                *right,
                a,
                gap as int,
                fill,
                i,
                j,
            ),
{
    let lh = left.height();
    let rh0 = right.height();
    let rh: usize = if lh >= rh0 {
        lh
    } else {
        rh0
    };
    let rw: usize = left.width() + gap + right.width();
    let off_l: usize = match a {
        VAlign::Top => 0,
        VAlign::Center => (rh - lh) / 2,
    };
    let off_r: usize = match a {
        VAlign::Top => 0,
        VAlign::Center => (rh - rh0) / 2,
    };
    let mut r = PixelBuffer::new_filled(rw, rh, fill);
    proof {
        assert(off_l + left.h() <= rh) by (nonlinear_arith)
            requires
                off_l == 0 || off_l == (rh - left.h()) / 2,
                0 <= left.h() <= rh,
        ;
        assert(off_r + right.h() <= rh) by (nonlinear_arith)
            requires
                off_r == 0 || off_r == (rh - right.h()) / 2,
                0 <= right.h() <= rh,
        ;
    }
    r.copy_blit(left, 0, off_l);
    r.copy_blit(right, left.width() + gap, off_r);
    r
}

} // verus!
