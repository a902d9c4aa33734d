use vstd::prelude::*;

use crate::pixel::Pixel;

verus! {

// The palette is ordered by a perceptual key derived from the HSL view of a
// color: primarily by hue, then by luminosity, then by saturation. Hue and
// saturation are exact rational numbers; they are kept as numerator and
// denominator and compared by cross-multiplication, so no precision is lost.

/// Largest of the three color channels.
pub open spec fn chan_max(p: Pixel) -> int {
    let r = p.r as int;
    let g = p.g as int;
    let b = p.b as int;
    if r >= g && r >= b {
        r
    } else if g >= b {
        g
    } else {
        b
    }
}

/// Smallest of the three color channels.
pub open spec fn chan_min(p: Pixel) -> int {
    let r = p.r as int;
    let g = p.g as int;
    let b = p.b as int;
    if r <= g && r <= b {
        r
    } else if g <= b {
        g
    } else {
        b
    }
}

pub open spec fn delta(p: Pixel) -> int {
    chan_max(p) - chan_min(p)
}

/// Hue numerator: the usual piecewise HSL hue on the scale 0..6*delta,
/// so that hue equals `hue_num / hue_den` on the circle 0..6.
pub open spec fn hue_num(p: Pixel) -> int {
    let r = p.r as int;
    let g = p.g as int;
    let b = p.b as int;
    let d = delta(p);
    if d == 0 {
        0
    } else if chan_max(p) == r {
        if g >= b {
            g - b
        } else {
            g - b + 6 * d
        }
    } else if chan_max(p) == g {
        b - r + 2 * d
    } else {
        r - g + 4 * d
    }
}

pub open spec fn hue_den(p: Pixel) -> int {
    if delta(p) == 0 {
        1
    } else {
        delta(p)
    }
}

/// Twice the HSL luminosity on the 0..255 scale.
pub open spec fn lum2(p: Pixel) -> int {
    chan_max(p) + chan_min(p)
}

/// Saturation numerator; saturation equals `sat_num / sat_den` in 0..1.
pub open spec fn sat_num(p: Pixel) -> int {
    delta(p)
}

pub open spec fn sat_den(p: Pixel) -> int {
    if delta(p) == 0 {
        1
    } else {
        255 - abs_int(lum2(p) - 255)
    }
}

pub open spec fn abs_int(v: int) -> int {
    if v < 0 {
        -v
    } else {
        v
    }
}

/// `a/b < c/d` for fractions with positive denominators.
pub open spec fn frac_lt(a: int, b: int, c: int, d: int) -> bool {
    a * d < c * b
}

pub open spec fn frac_eq(a: int, b: int, c: int, d: int) -> bool {
    a * d == c * b
}

/// The strict perceptual order: hue first, then luminosity, then saturation.
pub open spec fn hsl_lt(p: Pixel, q: Pixel) -> bool {
    ||| frac_lt(hue_num(p), hue_den(p), hue_num(q), hue_den(q))
    ||| (frac_eq(hue_num(p), hue_den(p), hue_num(q), hue_den(q)) && (lum2(p) < lum2(q) || (lum2(p)
        == lum2(q) && frac_lt(sat_num(p), sat_den(p), sat_num(q), sat_den(q)))))
}

/// Two colors with the same perceptual key.
pub open spec fn hsl_eq(p: Pixel, q: Pixel) -> bool {
    &&& frac_eq(hue_num(p), hue_den(p), hue_num(q), hue_den(q))
    &&& lum2(p) == lum2(q)
    &&& frac_eq(sat_num(p), sat_den(p), sat_num(q), sat_den(q))
}

pub open spec fn hsl_le(p: Pixel, q: Pixel) -> bool {
    hsl_lt(p, q) || hsl_eq(p, q)
}

pub proof fn lemma_dens_pos(p: Pixel)
    ensures
        0 < hue_den(p) <= 255,
        sat_den(p) > 0,
        0 <= hue_num(p) < 6 * hue_den(p),
        hue_num(p) <= 1530,
        0 <= sat_num(p) <= sat_den(p) <= 255,
{
}

proof fn lemma_prod_bound(a: int, b: int)
    by (nonlinear_arith)
    requires
        0 <= a <= 1530,
        0 < b <= 255,
    ensures
        0 <= a * b <= 390150,
{
}

proof fn lemma_frac_lt_trans(a: int, b: int, c: int, d: int, e: int, f: int)
    by (nonlinear_arith)
    requires
        b > 0,
        d > 0,
        f > 0,
        a * d < c * b,
        c * f < e * d,
    ensures
        a * f < e * b,
{
}

proof fn lemma_frac_eq_trans(a: int, b: int, c: int, d: int, e: int, f: int)
    by (nonlinear_arith)
    requires
        b > 0,
        d > 0,
        f > 0,
        a * d == c * b,
        c * f == e * d,
    ensures
        a * f == e * b,
{
}

proof fn lemma_frac_eq_lt(a: int, b: int, c: int, d: int, e: int, f: int)
    by (nonlinear_arith)
    requires
        b > 0,
        d > 0,
        f > 0,
        a * d == c * b,
        c * f < e * d,
    ensures
        a * f < e * b,
{
}

proof fn lemma_frac_lt_eq(a: int, b: int, c: int, d: int, e: int, f: int)
    by (nonlinear_arith)
    requires
        b > 0,
        d > 0,
        f > 0,
        a * d < c * b,
        c * f == e * d,
    ensures
        a * f < e * b,
{
}

/// The palette order is strict and total: for any two colors exactly one
/// of `p < q`, equal keys, `q < p` holds, and the order is transitive.
/// With the stable sort's first-seen tie-break this makes the palette
/// order a strict total order on entries, so re-running extraction on the
/// same pixels always yields the same arrangement.
pub proof fn lemma_perceptual_order_strict_total(p: Pixel, q: Pixel, r: Pixel)
    ensures
        hsl_lt(p, q) || hsl_eq(p, q) || hsl_lt(q, p),
        !(hsl_lt(p, q) && hsl_eq(p, q)),
        !(hsl_lt(p, q) && hsl_lt(q, p)),
        !(hsl_eq(p, q) && hsl_lt(q, p)),
        hsl_lt(p, q) && hsl_lt(q, r) ==> hsl_lt(p, r),
{
    lemma_hsl_trichotomy(p, q);
    if hsl_lt(p, q) && hsl_lt(q, r) {
        lemma_hsl_lt_trans(p, q, r);
    }
}

/// The perceptual comparison is a strict total order up to `hsl_eq`:
/// for any two colors exactly one of `p < q`, `p == q`, `q < p` holds.
pub proof fn lemma_hsl_trichotomy(p: Pixel, q: Pixel)
    ensures
        hsl_lt(p, q) || hsl_eq(p, q) || hsl_lt(q, p),
        !(hsl_lt(p, q) && hsl_eq(p, q)),
        !(hsl_lt(p, q) && hsl_lt(q, p)),
        !(hsl_eq(p, q) && hsl_lt(q, p)),
{
    lemma_dens_pos(p);
    lemma_dens_pos(q);
}

/// The perceptual comparison is transitive.
pub proof fn lemma_hsl_lt_trans(p: Pixel, q: Pixel, r: Pixel)
    requires
        hsl_lt(p, q),
        hsl_lt(q, r),
    ensures
        hsl_lt(p, r),
{
    lemma_dens_pos(p);
    lemma_dens_pos(q);
    lemma_dens_pos(r);
    if frac_lt(hue_num(p), hue_den(p), hue_num(q), hue_den(q)) {
        if frac_lt(hue_num(q), hue_den(q), hue_num(r), hue_den(r)) {
            lemma_frac_lt_trans(
                hue_num(p),
                hue_den(p),
                hue_num(q),
                hue_den(q),
                hue_num(r),
                hue_den(r),
            );
        } else {
            lemma_frac_lt_eq(
                hue_num(p),
                hue_den(p),
                hue_num(q),
                hue_den(q),
                hue_num(r),
                hue_den(r),
            );
        }
    } else {
        if frac_lt(hue_num(q), hue_den(q), hue_num(r), hue_den(r)) {
            lemma_frac_eq_lt(
                hue_num(p),
                hue_den(p),
                hue_num(q),
                hue_den(q),
                hue_num(r),
                hue_den(r),
            );
        } else {
            lemma_frac_eq_trans(
                hue_num(p),
                hue_den(p),
                hue_num(q),
                hue_den(q),
                hue_num(r),
                hue_den(r),
            );
            if lum2(p) == lum2(q) && lum2(q) == lum2(r) {
                if frac_lt(sat_num(p), sat_den(p), sat_num(q), sat_den(q)) {
                    if frac_lt(sat_num(q), sat_den(q), sat_num(r), sat_den(r)) {
                        lemma_frac_lt_trans(
                            sat_num(p),
                            sat_den(p),
                            sat_num(q),
                            sat_den(q),
                            sat_num(r),
                            sat_den(r),
                        );
                    }
                } else {
                    if frac_lt(sat_num(q), sat_den(q), sat_num(r), sat_den(r)) {
                        lemma_frac_eq_lt(
                            sat_num(p),
                            sat_den(p),
                            sat_num(q),
                            sat_den(q),
                            sat_num(r),
                            sat_den(r),
                        );
                    }
                }
            }
        }
    }
}

/// Equal keys followed by a strictly smaller key stay strictly smaller,
/// and symmetrically; `hsl_eq` itself is transitive.
pub proof fn lemma_hsl_eq_lt_trans(p: Pixel, q: Pixel, r: Pixel)
    ensures
        hsl_eq(p, q) && hsl_lt(q, r) ==> hsl_lt(p, r),
        hsl_lt(p, q) && hsl_eq(q, r) ==> hsl_lt(p, r),
        hsl_eq(p, q) && hsl_eq(q, r) ==> hsl_eq(p, r),
{
    lemma_dens_pos(p);
    lemma_dens_pos(q);
    lemma_dens_pos(r);
    if hsl_eq(p, q) && hsl_lt(q, r) {
        lemma_frac_eq_trans_or_lt(p, q, r);
    }
    if hsl_lt(p, q) && hsl_eq(q, r) {
        lemma_frac_lt_trans_or_eq(p, q, r);
    }
    if hsl_eq(p, q) && hsl_eq(q, r) {
        lemma_frac_eq_trans(hue_num(p), hue_den(p), hue_num(q), hue_den(q), hue_num(r), hue_den(r));
        lemma_frac_eq_trans(sat_num(p), sat_den(p), sat_num(q), sat_den(q), sat_num(r), sat_den(r));
    }
}

proof fn lemma_frac_eq_trans_or_lt(p: Pixel, q: Pixel, r: Pixel)
    requires
        hsl_eq(p, q),
        hsl_lt(q, r),
    ensures
        hsl_lt(p, r),
{
    lemma_dens_pos(p);
    lemma_dens_pos(q);
    lemma_dens_pos(r);
    if frac_lt(hue_num(q), hue_den(q), hue_num(r), hue_den(r)) {
        lemma_frac_eq_lt(hue_num(p), hue_den(p), hue_num(q), hue_den(q), hue_num(r), hue_den(r));
    } else {
        lemma_frac_eq_trans(hue_num(p), hue_den(p), hue_num(q), hue_den(q), hue_num(r), hue_den(r));
        if lum2(q) == lum2(r) && frac_lt(sat_num(q), sat_den(q), sat_num(r), sat_den(r)) {
            lemma_frac_eq_lt(
                sat_num(p),
                sat_den(p),
                sat_num(q),
                sat_den(q),
                sat_num(r),
                sat_den(r),
            );
        }
    }
}

proof fn lemma_frac_lt_trans_or_eq(p: Pixel, q: Pixel, r: Pixel)
    requires
        hsl_lt(p, q),
        hsl_eq(q, r),
    ensures
        hsl_lt(p, r),
{
    lemma_dens_pos(p);
    lemma_dens_pos(q);
    lemma_dens_pos(r);
    if frac_lt(hue_num(p), hue_den(p), hue_num(q), hue_den(q)) {
        lemma_frac_lt_eq(hue_num(p), hue_den(p), hue_num(q), hue_den(q), hue_num(r), hue_den(r));
    } else {
        lemma_frac_eq_trans(hue_num(p), hue_den(p), hue_num(q), hue_den(q), hue_num(r), hue_den(r));
        if lum2(p) == lum2(q) && frac_lt(sat_num(p), sat_den(p), sat_num(q), sat_den(q)) {
            lemma_frac_lt_eq(
                sat_num(p),
                sat_den(p),
                sat_num(q),
                sat_den(q),
                sat_num(r),
                sat_den(r),
            );
        }
    }
}

/// Compares two colors in the perceptual hue/luminosity/saturation order.
pub fn color_lt(p: Pixel, q: Pixel) -> (lt: bool)
    ensures
        lt == hsl_lt(p, q),
{
    proof {
        lemma_dens_pos(p);
        lemma_dens_pos(q);
    }
    let (hn_p, hd_p) = hue_frac(p);
    let (hn_q, hd_q) = hue_frac(q);
    proof {
        lemma_prod_bound(hue_num(p), hue_den(q));
        lemma_prod_bound(hue_num(q), hue_den(p));
    }
    if hn_p * hd_q < hn_q * hd_p {
        return true;
    }
    if hn_p * hd_q > hn_q * hd_p {
        return false;
    }
    let l_p = lum2_exec(p);
    let l_q = lum2_exec(q);
    if l_p < l_q {
        return true;
    }
    if l_p > l_q {
        return false;
    }
    let (sn_p, sd_p) = sat_frac(p);
    let (sn_q, sd_q) = sat_frac(q);
    proof {
        lemma_prod_bound(sat_num(p), sat_den(q));
        lemma_prod_bound(sat_num(q), sat_den(p));
    }
    sn_p * sd_q < sn_q * sd_p
}

/// True when two colors carry exactly the same perceptual key.
pub fn color_key_eq(p: Pixel, q: Pixel) -> (eq: bool)
    ensures
        eq == hsl_eq(p, q),
{
    proof {
        lemma_dens_pos(p);
        lemma_dens_pos(q);
    }
    let (hn_p, hd_p) = hue_frac(p);
    let (hn_q, hd_q) = hue_frac(q);
    let (sn_p, sd_p) = sat_frac(p);
    let (sn_q, sd_q) = sat_frac(q);
    proof {
        lemma_prod_bound(hue_num(p), hue_den(q));
        lemma_prod_bound(hue_num(q), hue_den(p));
        lemma_prod_bound(sat_num(p), sat_den(q));
        lemma_prod_bound(sat_num(q), sat_den(p));
    }
    hn_p * hd_q == hn_q * hd_p && lum2_exec(p) == lum2_exec(q) && sn_p * sd_q == sn_q * sd_p
}

fn chan_max_exec(p: Pixel) -> (m: u8)
    ensures
        m == chan_max(p),
{
    if p.r >= p.g && p.r >= p.b {
        p.r
    } else if p.g >= p.b {
        p.g
    } else {
        p.b
    }
}

fn chan_min_exec(p: Pixel) -> (m: u8)
    ensures
        m == chan_min(p),
{
    if p.r <= p.g && p.r <= p.b {
        p.r
    } else if p.g <= p.b {
        p.g
    } else {
        p.b
    }
}

fn lum2_exec(p: Pixel) -> (l: u32)
    ensures
        l == lum2(p),
{
    (chan_max_exec(p) as u32) + (chan_min_exec(p) as u32)
}

fn hue_frac(p: Pixel) -> (f: (i64, i64))
    ensures
        f.0 == hue_num(p),
        f.1 == hue_den(p),
{
    let mx = chan_max_exec(p);
    let mn = chan_min_exec(p);
    let d: i64 = (mx as i64) - (mn as i64);
    if d == 0 {
        (0, 1)
    } else if mx == p.r {
        let gb: i64 = (p.g as i64) - (p.b as i64);
        if p.g >= p.b {
            (gb, d)
        } else {
            (gb + 6 * d, d)
        }
    } else if mx == p.g {
        ((p.b as i64) - (p.r as i64) + 2 * d, d)
    } else {
        ((p.r as i64) - (p.g as i64) + 4 * d, d)
    }
}

fn sat_frac(p: Pixel) -> (f: (i64, i64))
    ensures
        f.0 == sat_num(p),
        f.1 == sat_den(p),
{
    let mx = chan_max_exec(p);
    let mn = chan_min_exec(p);
    let d: i64 = (mx as i64) - (mn as i64);
    if d == 0 {
        (0, 1)
    } else {
        let l2: i64 = (mx as i64) + (mn as i64);
        let dev: i64 = if l2 >= 255 {
            l2 - 255
        } else {
            255 - l2
        };
        (d, 255 - dev)
    }
}

} // verus!
