use vstd::prelude::*;

use vstd::arithmetic::div_mod::lemma_mod_multiples_vanish;

use crate::buffer::in_rect;
use crate::buffer::PixelBuffer;
use crate::canvas::div10;
use crate::font::stamp_text_clipped;
use crate::font::text_pixel;
use crate::font::Font;
use crate::numfmt::dec_len;
use crate::numfmt::int_str;
use crate::numfmt::int_to_dec;
use crate::numfmt::lemma_dec_digits_len;
use crate::pixel::white;
use crate::pixel::Pixel;

verus! {

/// Euclidean remainder of `v` by ten, in 0..9.
pub open spec fn mod10(v: int) -> int {
    v % 10
}

pub fn mod10_exec(v: i64) -> (m: i64)
    requires
        -1000000000 <= v <= 1000000000,
    ensures
        m == mod10(v as int),
        0 <= m <= 9,
{
    proof {
        lemma_mod_multiples_vanish(1000000000, v as int, 10);
    }
    (v + 10000000000) % 10
}

/// Smallest multiple of ten at or above `v`.
pub open spec fn ceil10(v: int) -> int {
    if v % 10 == 0 {
        v
    } else {
        v + (10 - v % 10)
    }
}

/// Largest multiple of ten at or below `v`.
pub open spec fn floor10(v: int) -> int {
    v - v % 10
}

/// The labels at grid multiples of ten along one axis: every cell index
/// `b` in `0..=cells` whose logical coordinate `start + b` is a multiple
/// of ten, paired with that coordinate, in ascending order.
pub open spec fn ten_label_list(start: int, count: int) -> Seq<(int, int)>
    decreases count,
{
    if count <= 0 {
        Seq::empty()
    } else {
        let pre = ten_label_list(start, count - 1);
        if div10(start + count - 1) {
            pre.push((count - 1, start + count - 1))
        } else {
            pre
        }
    }
}

/// All labels along one axis: the ten-multiples, then the first and last
/// coordinate wherever the partial block at that end spans more than
/// three logical units (so a leftover block cannot be mistaken for a full
/// ten-block).
pub open spec fn axis_labels(start: int, cells: int) -> Seq<(int, int)> {
    let base = ten_label_list(start, cells + 1);
    let with_first = if ceil10(start) - start > 3 {
        base.push((0, start))
    } else {
        base
    };
    if (start + cells) - floor10(start + cells) > 3 {
        with_first.push((cells, start + cells))
    } else {
        with_first
    }
}

/// Computes the labels along one axis, exactly as `axis_labels` lists
/// them.
pub fn compute_axis_labels(start: i32, cells: usize) -> (r: Vec<(i32, i32)>)
    requires
        -1000000 <= start <= 1000000,
        cells <= 32768,
    ensures
        r@.map_values(|p: (i32, i32)| (p.0 as int, p.1 as int)) == axis_labels(
            start as int,
            cells as int,
        ),
        forall|t: int|
            0 <= t < r@.len() ==> 0 <= (#[trigger] r@[t]).0 <= cells && start <= r@[t].1 <= start
                + cells,
{
    proof {
        lemma_ten_label_list_bounds(start as int, cells + 1);
    }
    let mut r: Vec<(i32, i32)> = Vec::new();
    let mut b: usize = 0;
    while b <= cells
        invariant
            -1000000 <= start <= 1000000,
            cells <= 32768,
            b <= cells + 1,
            r@.map_values(|p: (i32, i32)| (p.0 as int, p.1 as int)) == ten_label_list(
                start as int,
                b as int,
            ),
            forall|t: int|
                0 <= t < r@.len() ==> 0 <= (#[trigger] r@[t]).0 <= cells && start <= r@[t].1
                    <= start + cells,
        decreases cells + 1 - b,
    {
        let logical: i64 = (start as i64) + (b as i64);
        let ghost before = r@.map_values(|p: (i32, i32)| (p.0 as int, p.1 as int));
        if mod10_exec(logical) == 0 {
            r.push((b as i32, logical as i32));
            proof {
                assert(r@.map_values(|p: (i32, i32)| (p.0 as int, p.1 as int)) =~= before.push(
                    (b as int, logical as int),
                ));
            }
        }
        b = b + 1;
    }
    let first_span = 10 - mod10_exec(start as i64);
    let ghost base = r@.map_values(|p: (i32, i32)| (p.0 as int, p.1 as int));
    proof {
        assert(ceil10(start as int) - start as int == if mod10(start as int) == 0 {
            0int
        } else {
            10 - mod10(start as int)
        });
    }
    if mod10_exec(start as i64) != 0 && first_span > 3 {
        r.push((0, start));
        proof {
            assert(r@.map_values(|p: (i32, i32)| (p.0 as int, p.1 as int)) =~= base.push(
                (0int, start as int),
            ));
        }
    }
    let last: i64 = (start as i64) + (cells as i64);
    let last_span = mod10_exec(last);
    let ghost with_first = r@.map_values(|p: (i32, i32)| (p.0 as int, p.1 as int));
    if last_span > 3 {
        r.push((cells as i32, last as i32));
        proof {
            assert(r@.map_values(|p: (i32, i32)| (p.0 as int, p.1 as int)) =~= with_first.push(
                (cells as int, last as int),
            ));
        }
    }
    r
}

proof fn lemma_ten_label_list_bounds(start: int, count: int)
    ensures
        forall|t: int|
            0 <= t < ten_label_list(start, count).len() ==> 0 <= (#[trigger] ten_label_list(
                start,
                count,
            )[t]).0 < count && ten_label_list(start, count)[t].1 == start + ten_label_list(
                start,
                count,
            )[t].0,
    decreases count,
{
    if count > 0 {
        lemma_ten_label_list_bounds(start, count - 1);
        let pre = ten_label_list(start, count - 1);
        assert(forall|t: int| 0 <= t < pre.len() ==> pre[t] == ten_label_list(start, count - 1)[t]);
    }
}

/// The text shown beside a horizontal grid line: canvas y grows downward,
/// the printed coordinate system is y-up, so the label is the negated
/// logical coordinate (logical y = 7 reads "-7").
pub fn vertical_label_text(logical_y: i32) -> (r: Vec<u8>)
    ensures
        r@ == int_str(-(logical_y as int)),
        1 <= r@.len(),
{
    int_to_dec(-(logical_y as i64))
}

/// The uniform padding added around the canvas for the labels: room for
/// the longest boundary coordinate plus four characters of air.
pub open spec fn label_pad(font: Font, x0: int, y0: int, xl: int, yl: int) -> int {
    font.gw() * (max4(
        int_str(x0).len() as int,
        int_str(y0).len() as int,
        int_str(xl).len() as int,
        int_str(yl).len() as int,
    ) + 4)
}

pub open spec fn max4(a: int, b: int, c: int, d: int) -> int {
    let m1 = if a >= b {
        a
    } else {
        b
    };
    let m2 = if c >= d {
        c
    } else {
        d
    };
    if m1 >= m2 {
        m1
    } else {
        m2
    }
}

/// The label padding is bounded when the boundary coordinates are.
pub proof fn lemma_label_pad_bound(font: Font, x0: int, y0: int, xl: int, yl: int)
    requires
        font.wf(),
        -2000000 <= x0 <= 2000000,
        -2000000 <= y0 <= 2000000,
        -2000000 <= xl <= 2000000,
        -2000000 <= yl <= 2000000,
    ensures
        0 <= label_pad(font, x0, y0, xl, yl) <= 768,
{
    lemma_int_str_len_bound(x0);
    lemma_int_str_len_bound(y0);
    lemma_int_str_len_bound(xl);
    lemma_int_str_len_bound(yl);
    assert(0 <= font.gw() * (max4(
        int_str(x0).len() as int,
        int_str(y0).len() as int,
        int_str(xl).len() as int,
        int_str(yl).len() as int,
    ) + 4) <= 64 * 12) by (nonlinear_arith)
        requires
            1 <= max4(
                int_str(x0).len() as int,
                int_str(y0).len() as int,
                int_str(xl).len() as int,
                int_str(yl).len() as int,
            ) <= 8,
            0 <= font.gw() <= 64,
    ;
}

proof fn lemma_int_str_len_bound(v: int)
    requires
        -2000000 <= v <= 2000000,
    ensures
        1 <= int_str(v).len() <= 8,
{
    if v < 0 {
        lemma_dec_digits_len(-v);
    } else {
        lemma_dec_digits_len(v);
    }
}

/// One margin text stamp: the text, the top-left corner it lands at, and
/// the clip rectangle confining it to its margin.
pub struct LabelStamp {
    pub text: Seq<u8>,
    pub px: int,
    pub py: int,
    pub cx: int,
    pub cy: int,
    pub cw: int,
    pub ch: int,
}

/// Stamp `s` paints pixel `(i, j)`: the pixel lies inside the stamp's
/// clip rectangle, under a non-transparent glyph pixel of its text.
pub open spec fn stamp_hits(font: Font, s: LabelStamp, i: int, j: int) -> bool {
    let k = (i - s.px) / font.gw();
    &&& in_rect(i, j, s.cx, s.cy, s.cw, s.ch)
    &&& s.px <= i
    &&& 0 <= k < s.text.len()
    &&& s.py <= j < s.py + font.gh()
    &&& font.glyph(s.text[k] as int).pix((i - s.px) % font.gw(), j - s.py).a != 0
}

/// The glyph pixel stamp `s` paints at `(i, j)`.
pub open spec fn stamp_ink(font: Font, s: LabelStamp, i: int, j: int) -> Pixel {
    font.glyph(s.text[(i - s.px) / font.gw()] as int).pix((i - s.px) % font.gw(), j - s.py)
}

/// Pixel `(i, j)` after applying stamp `s` over `under`.
pub open spec fn stamp_pixel(font: Font, s: LabelStamp, i: int, j: int, under: Pixel) -> Pixel {
    if in_rect(i, j, s.cx, s.cy, s.cw, s.ch) {
        text_pixel(font, s.text, s.px, s.py, i, j, under)
    } else {
        under
    }
}

/// Pixel `(i, j)` after applying a sequence of stamps in order.
pub open spec fn stamps_pixel(
    font: Font,
    stamps: Seq<LabelStamp>,
    under: Pixel,
    i: int,
    j: int,
) -> Pixel
    decreases stamps.len(),
{
    if stamps.len() == 0 {
        under
    } else {
        stamp_pixel(font, stamps.last(), i, j, stamps_pixel(font, stamps.drop_last(), under, i, j))
    }
}

/// A pixel painted by no stamp keeps its underlying value.
pub proof fn lemma_stamps_pixel_miss(
    font: Font,
    stamps: Seq<LabelStamp>,
    under: Pixel,
    i: int,
    j: int,
)
    requires
        forall|t: int| 0 <= t < stamps.len() ==> !stamp_hits(font, #[trigger] stamps[t], i, j),
    ensures
        stamps_pixel(font, stamps, under, i, j) == under,
    decreases stamps.len(),
{
    if stamps.len() > 0 {
        assert(forall|t: int|
            0 <= t < stamps.len() - 1 ==> #[trigger] stamps.drop_last()[t] == stamps[t]);
        lemma_stamps_pixel_miss(font, stamps.drop_last(), under, i, j);
        assert(stamps[stamps.len() - 1] == stamps.last());
        assert(!stamp_hits(font, stamps.last(), i, j));
    }
}

/// A pixel painted by stamp `t` and by no later stamp shows stamp `t`'s
/// glyph pixel.
pub proof fn lemma_stamps_pixel_hit(
    font: Font,
    stamps: Seq<LabelStamp>,
    under: Pixel,
    i: int,
    j: int,
    t: int,
)
    requires
        0 <= t < stamps.len(),
        stamp_hits(font, stamps[t], i, j),
        forall|u: int| t < u < stamps.len() ==> !stamp_hits(font, #[trigger] stamps[u], i, j),
    ensures
        stamps_pixel(font, stamps, under, i, j) == stamp_ink(font, stamps[t], i, j),
    decreases stamps.len(),
{
    assert(stamps[stamps.len() - 1] == stamps.last());
    if t == stamps.len() - 1 {
    } else {
        assert(forall|u: int|
            0 <= u < stamps.len() - 1 ==> #[trigger] stamps.drop_last()[u] == stamps[u]);
        lemma_stamps_pixel_hit(font, stamps.drop_last(), under, i, j, t);
        assert(!stamp_hits(font, stamps.last(), i, j));
    }
}

/// The two stamps of one horizontal-axis label: the label coordinate's
/// decimal text, centered on its grid line, on the top or bottom margin.
pub open spec fn x_label_stamp(
    font: Font,
    cell: int,
    pad: int,
    rw: int,
    rh: int,
    lbl: (int, int),
    top: bool,
) -> LabelStamp {
    let text = int_str(lbl.1);
    let px = pad + cell * lbl.0 - (text.len() * font.gw()) / 2;
    if top {
        LabelStamp { text, px, py: pad / 2 - font.gh() / 2, cx: 0, cy: 0, cw: rw, ch: pad }
    } else {
        LabelStamp {
            text,
            px,
            py: rh - pad / 2 - font.gh() / 2,
            cx: 0,
            cy: rh - pad,
            cw: rw,
            ch: pad,
        }
    }
}

/// The two stamps of one vertical-axis label, on the left or right
/// margin. The text is the negated logical coordinate, so the printed
/// coordinate system reads y-up: a labeled row at logical y = 7 shows -7.
pub open spec fn y_label_stamp(
    font: Font,
    cell: int,
    pad: int,
    rw: int,
    rh: int,
    lbl: (int, int),
    left: bool,
) -> LabelStamp {
    let text = int_str(-lbl.1);
    let py = pad + cell * lbl.0 - font.gh() / 2;
    if left {
        LabelStamp {
            text,
            px: pad / 2 - (text.len() * font.gw()) / 2,
            py,
            cx: 0,
            cy: 0,
            cw: pad,
            ch: rh,
        }
    } else {
        LabelStamp {
            text,
            px: rw - pad / 2 - (text.len() * font.gw()) / 2,
            py,
            cx: rw - pad,
            cy: 0,
            cw: pad,
            ch: rh,
        }
    }
}

/// The stamps of the first `k` horizontal-axis labels, top edge then
/// bottom edge for each.
pub open spec fn x_label_stamps(
    font: Font,
    cell: int,
    pad: int,
    rw: int,
    rh: int,
    lbls: Seq<(int, int)>,
    k: int,
) -> Seq<LabelStamp>
    decreases k,
{
    if k <= 0 {
        Seq::empty()
    } else {
        x_label_stamps(font, cell, pad, rw, rh, lbls, k - 1).push(
            x_label_stamp(font, cell, pad, rw, rh, lbls[k - 1], true),
        ).push(x_label_stamp(font, cell, pad, rw, rh, lbls[k - 1], false))
    }
}

/// The stamps of the first `k` vertical-axis labels, left edge then right
/// edge for each.
pub open spec fn y_label_stamps(
    font: Font,
    cell: int,
    pad: int,
    rw: int,
    rh: int,
    lbls: Seq<(int, int)>,
    k: int,
) -> Seq<LabelStamp>
    decreases k,
{
    if k <= 0 {
        Seq::empty()
    } else {
        y_label_stamps(font, cell, pad, rw, rh, lbls, k - 1).push(
            y_label_stamp(font, cell, pad, rw, rh, lbls[k - 1], true),
        ).push(y_label_stamp(font, cell, pad, rw, rh, lbls[k - 1], false))
    }
}

/// Every stamp the labeling pass performs, in order: both edges of every
/// horizontal-axis label of `axis_labels(x0, gw)`, then both edges of
/// every vertical-axis label of `axis_labels(y0, gh)`.
pub open spec fn label_stamps(
    font: Font,
    cell: int,
    pad: int,
    rw: int,
    rh: int,
    x0: int,
    y0: int,
    gw: int,
    gh: int,
) -> Seq<LabelStamp> {
    let xs = axis_labels(x0, gw);
    let ys = axis_labels(y0, gh);
    x_label_stamps(font, cell, pad, rw, rh, xs, xs.len() as int) + y_label_stamps(
        font,
        cell,
        pad,
        rw,
        rh,
        ys,
        ys.len() as int,
    )
}

/// What lies under the label stamps: the canvas content shifted by the
/// padding, white in the added margins.
pub open spec fn labels_base(scaled: PixelBuffer, pad: int, i: int, j: int) -> Pixel {
    if in_rect(i, j, pad, pad, scaled.w(), scaled.h()) {
        scaled.pix(i - pad, j - pad)
    } else {
        white()
    }
}

/// The stamp's clip rectangle is one of the four padding margins.
pub open spec fn clip_is_margin(s: LabelStamp, pad: int, rw: int, rh: int) -> bool {
    ||| (s.cx == 0 && s.cy == 0 && s.cw == rw && s.ch == pad)
    ||| (s.cx == 0 && s.cy == rh - pad && s.cw == rw && s.ch == pad)
    ||| (s.cx == 0 && s.cy == 0 && s.cw == pad && s.ch == rh)
    ||| (s.cx == rw - pad && s.cy == 0 && s.cw == pad && s.ch == rh)
}

proof fn lemma_x_stamps_clips(
    font: Font,
    cell: int,
    pad: int,
    rw: int,
    rh: int,
    lbls: Seq<(int, int)>,
    k: int,
)
    ensures
        forall|t: int|
            0 <= t < x_label_stamps(font, cell, pad, rw, rh, lbls, k).len() ==> clip_is_margin(
                #[trigger] x_label_stamps(font, cell, pad, rw, rh, lbls, k)[t],
                pad,
                rw,
                rh,
            ),
    decreases k,
{
    if k > 0 {
        lemma_x_stamps_clips(font, cell, pad, rw, rh, lbls, k - 1);
        let pre = x_label_stamps(font, cell, pad, rw, rh, lbls, k - 1);
        let cur = x_label_stamps(font, cell, pad, rw, rh, lbls, k);
        assert(forall|t: int| 0 <= t < pre.len() ==> #[trigger] cur[t] == pre[t]);
        assert(cur[cur.len() - 2] == x_label_stamp(font, cell, pad, rw, rh, lbls[k - 1], true));
        assert(cur[cur.len() - 1] == x_label_stamp(font, cell, pad, rw, rh, lbls[k - 1], false));
    }
}

proof fn lemma_y_stamps_clips(
    font: Font,
    cell: int,
    pad: int,
    rw: int,
    rh: int,
    lbls: Seq<(int, int)>,
    k: int,
)
    ensures
        forall|t: int|
            0 <= t < y_label_stamps(font, cell, pad, rw, rh, lbls, k).len() ==> clip_is_margin(
                #[trigger] y_label_stamps(font, cell, pad, rw, rh, lbls, k)[t],
                pad,
                rw,
                rh,
            ),
    decreases k,
{
    if k > 0 {
        lemma_y_stamps_clips(font, cell, pad, rw, rh, lbls, k - 1);
        let pre = y_label_stamps(font, cell, pad, rw, rh, lbls, k - 1);
        let cur = y_label_stamps(font, cell, pad, rw, rh, lbls, k);
        assert(forall|t: int| 0 <= t < pre.len() ==> #[trigger] cur[t] == pre[t]);
        assert(cur[cur.len() - 2] == y_label_stamp(font, cell, pad, rw, rh, lbls[k - 1], true));
        assert(cur[cur.len() - 1] == y_label_stamp(font, cell, pad, rw, rh, lbls[k - 1], false));
    }
}

/// Every label stamp is clipped to one of the four margins.
pub proof fn lemma_label_stamps_clips(
    font: Font,
    cell: int,
    pad: int,
    rw: int,
    rh: int,
    x0: int,
    y0: int,
    gw: int,
    gh: int,
)
    ensures
        forall|t: int|
            0 <= t < label_stamps(font, cell, pad, rw, rh, x0, y0, gw, gh).len()
                ==> clip_is_margin(
                #[trigger] label_stamps(font, cell, pad, rw, rh, x0, y0, gw, gh)[t],
                pad,
                rw,
                rh,
            ),
{
    let xs = axis_labels(x0, gw);
    let ys = axis_labels(y0, gh);
    lemma_x_stamps_clips(font, cell, pad, rw, rh, xs, xs.len() as int);
    lemma_y_stamps_clips(font, cell, pad, rw, rh, ys, ys.len() as int);
    let xpart = x_label_stamps(font, cell, pad, rw, rh, xs, xs.len() as int);
    let ypart = y_label_stamps(font, cell, pad, rw, rh, ys, ys.len() as int);
    assert forall|t: int| 0 <= t < (xpart + ypart).len() implies clip_is_margin(
        #[trigger] (xpart + ypart)[t],
        pad,
        rw,
        rh,
    ) by {
        if t < xpart.len() {
            assert((xpart + ypart)[t] == xpart[t]);
        } else {
            assert((xpart + ypart)[t] == ypart[t - xpart.len()]);
        }
    }
}

proof fn lemma_cell_mul_le(cell: int, b: int, sw: int)
    requires
        1 <= cell,
        0 <= b <= sw / cell,
        0 <= sw,
    ensures
        0 <= cell * b <= sw,
{
    vstd::arithmetic::div_mod::lemma_fundamental_div_mod(sw, cell);
    vstd::arithmetic::div_mod::lemma_mod_bound(sw, cell);
    assert(cell * (sw / cell) <= sw);
    assert(cell * b <= cell * (sw / cell)) by (nonlinear_arith)
        requires
            0 <= b <= sw / cell,
            1 <= cell,
    ;
    assert(0 <= cell * b) by (nonlinear_arith)
        requires
            0 <= b,
            0 <= cell,
    ;
}

/// Extends the canvas on all four sides by the label padding and stamps
/// the coordinate labels of both axes at every qualifying grid line on
/// all four edges: horizontal-axis labels read the logical x coordinate,
/// vertical-axis labels its negation (a y-up view). Every output pixel is
/// pinned: the canvas content shifted by the padding under exactly the
/// stamps of `label_stamps`, in order; the margins are white wherever no
/// label paints.
pub fn place_grid_labels_in_pattern(
    scaled: &PixelBuffer,
    grid_cell_size: usize,
    font: &Font,
    logical_first_x: i32,
    logical_first_y: i32,
) -> (r: PixelBuffer)
    requires
        scaled.wf(),
        font.wf(),
        1 <= grid_cell_size <= 31000,
        scaled.w() <= 31000,
        scaled.h() <= 31000,
        -1000000 <= logical_first_x <= 1000000,
        -1000000 <= logical_first_y <= 1000000,
    ensures
        r.wf(),
        ({
            let gw = scaled.w() / grid_cell_size as int;
            let gh = scaled.h() / grid_cell_size as int;
            let pad = label_pad(
                *font,
                logical_first_x as int,
                logical_first_y as int,
                logical_first_x + gw,
                logical_first_y + gh,
            );
            let rw = scaled.w() + 2 * pad;
            let rh = scaled.h() + 2 * pad;
            let stamps = label_stamps(
                *font,
                grid_cell_size as int,
                pad,
                rw,
                rh,
                logical_first_x as int,
                logical_first_y as int,
                gw,
                gh,
            );
            &&& r.w() == rw
            &&& r.h() == rh
            &&& forall|i: int, j: int|
                0 <= i < rw && 0 <= j < rh ==> #[trigger] r.pix(i, j) == stamps_pixel(
                    *font,
                    stamps,
                    labels_base(*scaled, pad, i, j),
                    i,
                    j,
                )
            &&& forall|i: int, j: int|
                0 <= i < scaled.w() && 0 <= j < scaled.h() ==> #[trigger] r.pix(pad + i, pad + j)
                    == scaled.pix(i, j)
            &&& forall|i: int, j: int|
                0 <= i < rw && 0 <= j < rh && !in_rect(i, j, pad, pad, scaled.w(), scaled.h())
                    && (forall|t: int|
                    0 <= t < stamps.len() ==> !stamp_hits(*font, #[trigger] stamps[t], i, j))
                    ==> #[trigger] r.pix(i, j) == white()
        }),
{
    let sw = scaled.width();
    let sh = scaled.height();
    let grid_w: usize = sw / grid_cell_size;
    let grid_h: usize = sh / grid_cell_size;
    proof {
        assert(grid_w <= 31000 && grid_h <= 31000) by (nonlinear_arith)
            requires
                grid_w == sw as int / grid_cell_size as int,
                grid_h == sh as int / grid_cell_size as int,
                0 <= sw <= 31000,
                0 <= sh <= 31000,
                1 <= grid_cell_size,
        ;
    }
    let xl: i64 = (logical_first_x as i64) + (grid_w as i64);
    let yl: i64 = (logical_first_y as i64) + (grid_h as i64);
    let c1 = dec_len(logical_first_x as i64);
    let c2 = dec_len(logical_first_y as i64);
    let c3 = dec_len(xl);
    let c4 = dec_len(yl);
    let m1 = if c1 >= c2 {
        c1
    } else {
        c2
    };
    let m2 = if c3 >= c4 {
        c3
    } else {
        c4
    };
    let max_chars = if m1 >= m2 {
        m1
    } else {
        m2
    };
    proof {
        lemma_int_str_len_bound(logical_first_x as int);
        lemma_int_str_len_bound(logical_first_y as int);
        lemma_int_str_len_bound(xl as int);
        lemma_int_str_len_bound(yl as int);
        assert(font.gw() * (max_chars + 4) <= 64 * 12) by (nonlinear_arith)
            requires
                1 <= max_chars <= 8,
                0 <= font.gw() <= 64,
        ;
    }
    let fw = font.glyph_width();
    let pad: usize = fw * (max_chars + 4);
    let mut r = scaled.extended(pad, pad, pad, pad, Pixel::new(255, 255, 255, 255));
    let rw: usize = sw + 2 * pad;
    let rh: usize = sh + 2 * pad;
    let gh_font = font.glyph_height();
    let ghost cell_i = grid_cell_size as int;
    let ghost pad_i = pad as int;
    let ghost rw_i = rw as int;
    let ghost rh_i = rh as int;
    let ghost xs = axis_labels(logical_first_x as int, grid_w as int);
    let ghost ys = axis_labels(logical_first_y as int, grid_h as int);
    proof {
        assert forall|i: int, j: int| 0 <= i < rw_i && 0 <= j < rh_i implies #[trigger] r.pix(
            i,
            j,
        ) == stamps_pixel(
            *font,
            x_label_stamps(*font, cell_i, pad_i, rw_i, rh_i, xs, 0),
            labels_base(*scaled, pad_i, i, j),
            i,
            j,
        ) by {}
    }

    // horizontal-axis labels on the top and bottom margins
    let labels_x = compute_axis_labels(logical_first_x, grid_w);
    let nx = labels_x.len();
    let mut t: usize = 0;
    while t < nx
        invariant
            scaled.wf(),
            font.wf(),
            r.wf(),
            r.w() == rw,
            r.h() == rh,
            rw == scaled.w() + 2 * pad,
            rh == scaled.h() + 2 * pad,
            pad <= 768,
            fw == font.gw(),
            gh_font == font.gh(),
            nx == labels_x@.len(),
            t <= nx,
            grid_w <= 31000,
            grid_w == scaled.w() / grid_cell_size as int,
            1 <= grid_cell_size <= 31000,
            sw == scaled.w(),
            scaled.w() <= 31000,
            cell_i == grid_cell_size as int,
            pad_i == pad as int,
            rw_i == rw as int,
            rh_i == rh as int,
            xs == axis_labels(logical_first_x as int, grid_w as int),
            labels_x@.map_values(|p: (i32, i32)| (p.0 as int, p.1 as int)) == xs,
            forall|tt: int|
                0 <= tt < nx ==> 0 <= (#[trigger] labels_x@[tt]).0 <= grid_w && -2000000
                    <= labels_x@[tt].1 <= 2000000,
            forall|i: int, j: int|
                0 <= i < rw_i && 0 <= j < rh_i ==> #[trigger] r.pix(i, j) == stamps_pixel(
                    *font,
                    x_label_stamps(*font, cell_i, pad_i, rw_i, rh_i, xs, t as int),
                    labels_base(*scaled, pad_i, i, j),
                    i,
                    j,
                ),
        decreases nx - t,
    {
        let (bx, lx) = labels_x[t];
        let text = int_to_dec(lx as i64);
        proof {
            assert(labels_x@.map_values(|p: (i32, i32)| (p.0 as int, p.1 as int))[t as int] == (
            bx as int,
            lx as int,
            ));
            lemma_int_str_len_bound(lx as int);
            lemma_cell_mul_le(cell_i, bx as int, sw as int);
            assert(0 <= (text@.len() as int) * (fw as int) <= 8 * 64) by (nonlinear_arith)
                requires
                    1 <= text@.len() <= 8,
                    0 <= fw <= 64,
            ;
        }
        let draw_x: i64 = (pad as i64) + (grid_cell_size as i64) * (bx as i64);
        let text_w: i64 = (text.len() as i64) * (fw as i64);
        let px: i64 = draw_x - text_w / 2;
        let py_top: i64 = (pad as i64) / 2 - (gh_font as i64) / 2;
        let py_bottom: i64 = (rh as i64) - (pad as i64) / 2 - (gh_font as i64) / 2;
        let ghost s1 = x_label_stamp(*font, cell_i, pad_i, rw_i, rh_i, xs[t as int], true);
        let ghost s2 = x_label_stamp(*font, cell_i, pad_i, rw_i, rh_i, xs[t as int], false);
        let ghost prefix = x_label_stamps(*font, cell_i, pad_i, rw_i, rh_i, xs, t as int);
        let ghost r0 = r;
        proof {
            assert(s1.text == text@ && s1.px == px as int && s1.py == py_top as int);
            assert(s2.text == text@ && s2.px == px as int && s2.py == py_bottom as int);
        }
        stamp_text_clipped(&mut r, font, &text, px as i32, py_top as i32, 0, 0, rw, pad);
        let ghost r1 = r;
        stamp_text_clipped(&mut r, font, &text, px as i32, py_bottom as i32, 0, rh - pad, rw, pad);
        proof {
            let next = x_label_stamps(*font, cell_i, pad_i, rw_i, rh_i, xs, t + 1);
            assert(next == prefix.push(s1).push(s2));
            assert(next.drop_last() =~= prefix.push(s1));
            assert forall|i: int, j: int| 0 <= i < rw_i && 0 <= j < rh_i implies #[trigger] r.pix(
                i,
                j,
            ) == stamps_pixel(*font, next, labels_base(*scaled, pad_i, i, j), i, j) by {
                let base = labels_base(*scaled, pad_i, i, j);
                assert(r0.pix(i, j) == stamps_pixel(*font, prefix, base, i, j));
                assert(r1.pix(i, j) == stamp_pixel(*font, s1, i, j, r0.pix(i, j)));
                assert(r.pix(i, j) == stamp_pixel(*font, s2, i, j, r1.pix(i, j)));
                assert(stamps_pixel(*font, prefix.push(s1), base, i, j) == stamp_pixel(
                    *font,
                    s1,
                    i,
                    j,
                    stamps_pixel(*font, prefix, base, i, j),
                )) by {
                    assert(prefix.push(s1).drop_last() =~= prefix);
                    assert(prefix.push(s1).last() == s1);
                }
                assert(stamps_pixel(*font, next, base, i, j) == stamp_pixel(
                    *font,
                    s2,
                    i,
                    j,
                    stamps_pixel(*font, prefix.push(s1), base, i, j),
                )) by {
                    assert(next.last() == s2);
                }
            }
        }
        t = t + 1;
    }
    let ghost x_all = x_label_stamps(*font, cell_i, pad_i, rw_i, rh_i, xs, xs.len() as int);
    proof {
        assert(x_all == x_label_stamps(*font, cell_i, pad_i, rw_i, rh_i, xs, nx as int));
        assert(x_all + y_label_stamps(*font, cell_i, pad_i, rw_i, rh_i, ys, 0) =~= x_all);
    }

    // vertical-axis labels on the left and right margins, y-up
    let labels_y = compute_axis_labels(logical_first_y, grid_h);
    let ny = labels_y.len();
    let mut u: usize = 0;
    while u < ny
        invariant
            scaled.wf(),
            font.wf(),
            r.wf(),
            r.w() == rw,
            r.h() == rh,
            rw == scaled.w() + 2 * pad,
            rh == scaled.h() + 2 * pad,
            pad <= 768,
            fw == font.gw(),
            gh_font == font.gh(),
            ny == labels_y@.len(),
            u <= ny,
            grid_h <= 31000,
            grid_h == scaled.h() / grid_cell_size as int,
            1 <= grid_cell_size <= 31000,
            sh == scaled.h(),
            scaled.h() <= 31000,
            cell_i == grid_cell_size as int,
            pad_i == pad as int,
            rw_i == rw as int,
            rh_i == rh as int,
            ys == axis_labels(logical_first_y as int, grid_h as int),
            labels_y@.map_values(|p: (i32, i32)| (p.0 as int, p.1 as int)) == ys,
            x_all == x_label_stamps(*font, cell_i, pad_i, rw_i, rh_i, xs, xs.len() as int),
            forall|tt: int|
                0 <= tt < ny ==> 0 <= (#[trigger] labels_y@[tt]).0 <= grid_h && -2000000
                    <= labels_y@[tt].1 <= 2000000,
            forall|i: int, j: int|
                0 <= i < rw_i && 0 <= j < rh_i ==> #[trigger] r.pix(i, j) == stamps_pixel(
                    *font,
                    x_all + y_label_stamps(*font, cell_i, pad_i, rw_i, rh_i, ys, u as int),
                    labels_base(*scaled, pad_i, i, j),
                    i,
                    j,
                ),
        decreases ny - u,
    {
        let (by, ly) = labels_y[u];
        let text = vertical_label_text(ly);
        proof {
            assert(labels_y@.map_values(|p: (i32, i32)| (p.0 as int, p.1 as int))[u as int] == (
            by as int,
            ly as int,
            ));
            lemma_int_str_len_bound(-(ly as int));
            lemma_cell_mul_le(cell_i, by as int, sh as int);
            assert(0 <= (text@.len() as int) * (fw as int) <= 8 * 64) by (nonlinear_arith)
                requires
                    1 <= text@.len() <= 8,
                    0 <= fw <= 64,
            ;
        }
        let draw_y: i64 = (pad as i64) + (grid_cell_size as i64) * (by as i64);
        let text_w: i64 = (text.len() as i64) * (fw as i64);
        let py: i64 = draw_y - (gh_font as i64) / 2;
        let px_left: i64 = (pad as i64) / 2 - text_w / 2;
        let px_right: i64 = (rw as i64) - (pad as i64) / 2 - text_w / 2;
        let ghost s1 = y_label_stamp(*font, cell_i, pad_i, rw_i, rh_i, ys[u as int], true);
        let ghost s2 = y_label_stamp(*font, cell_i, pad_i, rw_i, rh_i, ys[u as int], false);
        let ghost prefix = x_all + y_label_stamps(*font, cell_i, pad_i, rw_i, rh_i, ys, u as int);
        let ghost r0 = r;
        proof {
            assert(s1.text == text@ && s1.px == px_left as int && s1.py == py as int);
            assert(s2.text == text@ && s2.px == px_right as int && s2.py == py as int);
        }
        stamp_text_clipped(&mut r, font, &text, px_left as i32, py as i32, 0, 0, pad, rh);
        let ghost r1 = r;
        stamp_text_clipped(&mut r, font, &text, px_right as i32, py as i32, rw - pad, 0, pad, rh);
        proof {
            let next = x_all + y_label_stamps(*font, cell_i, pad_i, rw_i, rh_i, ys, u + 1);
            assert(next =~= prefix.push(s1).push(s2));
            assert forall|i: int, j: int| 0 <= i < rw_i && 0 <= j < rh_i implies #[trigger] r.pix(
                i,
                j,
            ) == stamps_pixel(*font, next, labels_base(*scaled, pad_i, i, j), i, j) by {
                let base = labels_base(*scaled, pad_i, i, j);
                assert(r0.pix(i, j) == stamps_pixel(*font, prefix, base, i, j));
                assert(r1.pix(i, j) == stamp_pixel(*font, s1, i, j, r0.pix(i, j)));
                assert(r.pix(i, j) == stamp_pixel(*font, s2, i, j, r1.pix(i, j)));
                assert(stamps_pixel(*font, prefix.push(s1), base, i, j) == stamp_pixel(
                    *font,
                    s1,
                    i,
                    j,
                    stamps_pixel(*font, prefix, base, i, j),
                )) by {
                    assert(prefix.push(s1).drop_last() =~= prefix);
                    assert(prefix.push(s1).last() == s1);
                }
                assert(stamps_pixel(*font, prefix.push(s1).push(s2), base, i, j) == stamp_pixel(
                    *font,
                    s2,
                    i,
                    j,
                    stamps_pixel(*font, prefix.push(s1), base, i, j),
                )) by {
                    assert(prefix.push(s1).push(s2).drop_last() =~= prefix.push(s1));
                    assert(prefix.push(s1).push(s2).last() == s2);
                }
                assert(stamps_pixel(*font, next, base, i, j) == stamps_pixel(
                    *font,
                    prefix.push(s1).push(s2),
                    base,
                    i,
                    j,
                ));
            }
        }
        u = u + 1;
    }
    proof {
        let stamps = label_stamps(
            *font,
            cell_i,
            pad_i,
            rw_i,
            rh_i,
            logical_first_x as int,
            logical_first_y as int,
            grid_w as int,
            grid_h as int,
        );
        assert(stamps == x_all + y_label_stamps(
            *font,
            cell_i,
            pad_i,
            rw_i,
            rh_i,
            ys,
            ys.len() as int,
        ));
        assert(stamps == x_all + y_label_stamps(*font, cell_i, pad_i, rw_i, rh_i, ys, ny as int));
        lemma_label_stamps_clips(
            *font,
            cell_i,
            pad_i,
            rw_i,
            rh_i,
            logical_first_x as int,
            logical_first_y as int,
            grid_w as int,
            grid_h as int,
        );
        // the canvas interior lies in no stamp's margin clip
        assert forall|i: int, j: int|
            0 <= i < scaled.w() && 0 <= j < scaled.h() implies #[trigger] r.pix(
            pad_i + i,
            pad_i + j,
        ) == scaled.pix(i, j) by {
            assert forall|t: int| 0 <= t < stamps.len() implies !stamp_hits(
                *font,
                #[trigger] stamps[t],
                pad_i + i,
                pad_i + j,
            ) by {
                assert(clip_is_margin(stamps[t], pad_i, rw_i, rh_i));
            }
            lemma_stamps_pixel_miss(
                *font,
                stamps,
                labels_base(*scaled, pad_i, pad_i + i, pad_i + j),
                pad_i + i,
                pad_i + j,
            );
            assert(labels_base(*scaled, pad_i, pad_i + i, pad_i + j) == scaled.pix(i, j));
        }
        // margin pixels no stamp paints stay white
        assert forall|i: int, j: int|
            0 <= i < rw_i && 0 <= j < rh_i && !in_rect(i, j, pad_i, pad_i, scaled.w(), scaled.h())
                && (forall|t: int|
                0 <= t < stamps.len() ==> !stamp_hits(*font, #[trigger] stamps[t], i, j))
                implies #[trigger] r.pix(i, j) == white() by {
            lemma_stamps_pixel_miss(*font, stamps, labels_base(*scaled, pad_i, i, j), i, j);
        }
    }
    r
}

} // verus!
