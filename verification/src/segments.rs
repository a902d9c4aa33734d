use vstd::prelude::*;

use vstd::arithmetic::div_mod::lemma_fundamental_div_mod_converse;

use crate::buffer::in_rect;
use crate::buffer::on_outline;
use crate::buffer::PixelBuffer;
use crate::compose::glue_vertical;
use crate::compose::HAlign;
use crate::font::create_text_bitmap;
use crate::font::stamp_text_clipped;
use crate::font::text_pixel;
use crate::font::Font;
use crate::numfmt::int_str;
use crate::numfmt::int_to_dec;
use crate::numfmt::lemma_dec_digits_len;
use crate::pixel::Pixel;

verus! {

/// How many tiles of size `m` cover a span of `w`.
pub open spec fn ceil_div(w: int, m: int) -> int {
    (w + m - 1) / m
}

pub open spec fn min_int(a: int, b: int) -> int {
    if a <= b {
        a
    } else {
        b
    }
}

pub proof fn lemma_ceil_div(w: int, m: int)
    by (nonlinear_arith)
    requires
        0 <= w,
        1 <= m,
    ensures
        0 <= ceil_div(w, m),
        w <= ceil_div(w, m) * m,
        w >= 1 ==> (ceil_div(w, m) - 1) * m < w,
        w >= 1 ==> ceil_div(w, m) >= 1,
        w == 0 ==> ceil_div(w, m) == 0,
{
}

proof fn lemma_tile_sep(a: int, b: int, t: int)
    by (nonlinear_arith)
    requires
        a < b,
        1 <= t,
    ensures
        a * t + t <= b * t,
{
}

/// Splits the image into tiles of at most `max_w` x `max_h` pixels, in
/// row-major order; tile `k` sits at grid position
/// `(k % cols, k / cols)`, edge tiles are smaller, and every tile pixel
/// equals the corresponding source pixel.
pub fn to_segments(image: &PixelBuffer, max_w: usize, max_h: usize) -> (r: (
    Vec<PixelBuffer>,
    Vec<(usize, usize)>,
))
    requires
        image.wf(),
        1 <= max_w <= 32768,
        1 <= max_h <= 32768,
        1 <= image.w(),
        1 <= image.h(),
    ensures
        ({
            let cols = ceil_div(image.w(), max_w as int);
            let rows = ceil_div(image.h(), max_h as int);
            &&& r.0@.len() == cols * rows
            &&& r.1@.len() == cols * rows
            &&& forall|k: int|
                0 <= k < cols * rows ==> (#[trigger] r.1@[k]).0 == k % cols && r.1@[k].1 == k
                    / cols
            &&& forall|k: int|
                0 <= k < cols * rows ==> (#[trigger] r.0@[k]).wf() && r.0@[k].w() == min_int(
                    max_w as int,
                    image.w() - (k % cols) * max_w,
                ) && r.0@[k].h() == min_int(max_h as int, image.h() - (k / cols) * max_h)
            &&& forall|k: int, i: int, j: int|
                0 <= k < cols * rows && 0 <= i < r.0@[k].w() && 0 <= j < r.0@[k].h()
                    ==> #[trigger] r.0@[k].pix(i, j) == image.pix(
                    (k % cols) * max_w + i,
                    (k / cols) * max_h + j,
                )
        }),
{
    let w = image.width();
    let h = image.height();
    let cols: usize = (w + max_w - 1) / max_w;
    let rows: usize = (h + max_h - 1) / max_h;
    proof {
        lemma_ceil_div(w as int, max_w as int);
        lemma_ceil_div(h as int, max_h as int);
        assert(cols * rows >= 0) by (nonlinear_arith)
            requires
                cols >= 0,
                rows >= 0,
        ;
    }
    let mut segs: Vec<PixelBuffer> = Vec::new();
    let mut coords: Vec<(usize, usize)> = Vec::new();
    let mut row: usize = 0;
    while row < rows
        invariant
            image.wf(),
            1 <= max_w,
            1 <= max_h,
            1 <= image.w(),
            1 <= image.h(),
            w == image.w(),
            h == image.h(),
            cols == ceil_div(image.w(), max_w as int),
            rows == ceil_div(image.h(), max_h as int),
            row <= rows,
            segs@.len() == row * cols,
            coords@.len() == row * cols,
            forall|k: int|
                0 <= k < segs@.len() ==> (#[trigger] coords@[k]).0 == k % cols as int
                    && coords@[k].1 == k / cols as int,
            forall|k: int|
                0 <= k < segs@.len() ==> (#[trigger] segs@[k]).wf() && segs@[k].w() == min_int(
                    max_w as int,
                    image.w() - (k % cols as int) * max_w,
                ) && segs@[k].h() == min_int(max_h as int, image.h() - (k / cols as int) * max_h),
            forall|k: int, i: int, j: int|
                0 <= k < segs@.len() && 0 <= i < segs@[k].w() && 0 <= j < segs@[k].h()
                    ==> #[trigger] segs@[k].pix(i, j) == image.pix(
                    (k % cols as int) * max_w + i,
                    (k / cols as int) * max_h + j,
                ),
        decreases rows - row,
    {
        let mut col: usize = 0;
        while col < cols
            invariant
                image.wf(),
                1 <= max_w,
                1 <= max_h,
                1 <= image.w(),
                1 <= image.h(),
                w == image.w(),
                h == image.h(),
                cols == ceil_div(image.w(), max_w as int),
                rows == ceil_div(image.h(), max_h as int),
                row < rows,
                col <= cols,
                segs@.len() == row * cols + col,
                coords@.len() == row * cols + col,
                forall|k: int|
                    0 <= k < segs@.len() ==> (#[trigger] coords@[k]).0 == k % cols as int
                        && coords@[k].1 == k / cols as int,
                forall|k: int|
                    0 <= k < segs@.len() ==> (#[trigger] segs@[k]).wf() && segs@[k].w() == min_int(
                        max_w as int,
                        image.w() - (k % cols as int) * max_w,
                    ) && segs@[k].h() == min_int(
                        max_h as int,
                        image.h() - (k / cols as int) * max_h,
                    ),
                forall|k: int, i: int, j: int|
                    0 <= k < segs@.len() && 0 <= i < segs@[k].w() && 0 <= j < segs@[k].h()
                        ==> #[trigger] segs@[k].pix(i, j) == image.pix(
                        (k % cols as int) * max_w + i,
                        (k / cols as int) * max_h + j,
                    ),
            decreases cols - col,
        {
            proof {
                lemma_ceil_div(w as int, max_w as int);
                lemma_ceil_div(h as int, max_h as int);
                assert(col * max_w <= (cols - 1) * max_w && (cols - 1) * max_w < w)
                    by (nonlinear_arith)
                    requires
                        0 <= col < cols,
                        1 <= max_w,
                        (ceil_div(w as int, max_w as int) - 1) * max_w < w,
                        cols == ceil_div(w as int, max_w as int),
                ;
                assert(row * max_h <= (rows - 1) * max_h && (rows - 1) * max_h < h)
                    by (nonlinear_arith)
                    requires
                        0 <= row < rows,
                        1 <= max_h,
                        (ceil_div(h as int, max_h as int) - 1) * max_h < h,
                        rows == ceil_div(h as int, max_h as int),
                ;
            }
            let x0: usize = col * max_w;
            let y0: usize = row * max_h;
            let sw: usize = if max_w <= w - x0 {
                max_w
            } else {
                w - x0
            };
            let sh: usize = if max_h <= h - y0 {
                max_h
            } else {
                h - y0
            };
            let seg = image.sub_rect(x0, y0, sw, sh);
            segs.push(seg);
            coords.push((col, row));
            proof {
                let k = row * (cols as int) + col;
                lemma_fundamental_div_mod_converse(k, cols as int, row as int, col as int);
                assert(k % cols as int == col as int && k / cols as int == row as int);
            }
            col = col + 1;
        }
        proof {
            assert((row + 1) * cols == row * cols + cols) by (nonlinear_arith);
        }
        row = row + 1;
    }
    proof {
        assert(rows * cols == cols * rows) by (nonlinear_arith);
    }
    (segs, coords)
}

/// One tile of the page-overview diagram is this many pixels wide: room
/// for the largest page number with one space either side, plus a one
/// pixel visual gap.
pub open spec fn page_tile_w(font: Font, page_count: int) -> int {
    1 + font.gw() * (crate::numfmt::int_str(page_count).len() + 2)
}

/// A page tile is half again as tall as it is wide.
pub open spec fn page_tile_h(font: Font, page_count: int) -> int {
    1 + (3 * page_tile_w(font, page_count)) / 2
}

/// `"Pattern parts overview:"` as bytes, the diagram's caption.
pub open spec fn overview_caption() -> Seq<u8> {
    seq![
        80u8, 97u8, 116u8, 116u8, 101u8, 114u8, 110u8, 32u8, 112u8, 97u8, 114u8, 116u8, 115u8,
        32u8, 111u8, 118u8, 101u8, 114u8, 118u8, 105u8, 101u8, 119u8, 58u8,
    ]
}

/// Where page `k`'s number text starts inside the box grid: centered in
/// its tile.
pub open spec fn page_num_px(font: Font, layout: Seq<(usize, usize)>, n: int, k: int) -> int {
    layout[k].0 * page_tile_w(font, n) + page_tile_w(font, n) / 2 - (int_str(k + 1).len()
        * font.gw()) / 2
}

pub open spec fn page_num_py(font: Font, layout: Seq<(usize, usize)>, n: int, k: int) -> int {
    layout[k].1 * page_tile_h(font, n) + page_tile_h(font, n) / 2 - font.gh() / 2
}

/// Renders the page-overview diagram: the caption above a grid of
/// numbered boxes matching the segment layout. The result width is the
/// wider of caption and box grid; each page's box border is black; each
/// box interior holds exactly the centered decimal page number over
/// white; the caption line is pinned pixel for pixel.
#[verifier::rlimit(100)]
pub fn create_pattern_page_layout(font: &Font, layout_indices: &Vec<(usize, usize)>) -> (r:
    PixelBuffer)
    requires
        font.wf(),
        1 <= layout_indices@.len() <= 1000,
        forall|k: int|
            0 <= k < layout_indices@.len() ==> (#[trigger] layout_indices@[k]).0 <= 40
                && layout_indices@[k].1 <= 40,
        forall|k1: int, k2: int|
            0 <= k1 < k2 < layout_indices@.len() ==> #[trigger] layout_indices@[k1]
                != #[trigger] layout_indices@[k2],
    ensures
        r.wf(),
        r.w() <= 15785,
        r.h() <= 23954,
        r.h() == 4 * font.gh() + grid_h_of(*font, layout_indices@, layout_indices@.len() as int),
        r.w() == crate::compose::max_int(
            23 * font.gw(),
            (1 + max_x_of(layout_indices@, layout_indices@.len() as int)) * page_tile_w(
                *font,
                layout_indices@.len() as int,
            ),
        ),
        ({
            let n = layout_indices@.len() as int;
            let tw = page_tile_w(*font, n);
            let th = page_tile_h(*font, n);
            &&& r.w() >= 1
            &&& r.h() >= 1
            &&& forall|i: int, j: int|
                0 <= i < 23 * font.gw() && 0 <= j < font.gh() ==> #[trigger] r.pix(
                    i,
                    2 * font.gh() + j,
                ) == text_pixel(*font, overview_caption(), 0, 0, i, j, crate::pixel::white())
            &&& forall|k: int, i: int, j: int|
                0 <= k < n && on_outline(
                    i,
                    j,
                    (#[trigger] layout_indices@[k]).0 * tw,
                    layout_indices@[k].1 * th,
                    tw - 1,
                    th - 1,
                ) ==> #[trigger] r.pix(i, j + 4 * font.gh()) == crate::pixel::black()
            &&& forall|k: int, i: int, j: int|
                0 <= k < n && in_rect(
                    i,
                    j,
                    (#[trigger] layout_indices@[k]).0 * tw + 1,
                    layout_indices@[k].1 * th + 1,
                    tw - 3,
                    th - 3,
                ) ==> #[trigger] r.pix(i, j + 4 * font.gh()) == text_pixel(
                    *font,
                    int_str(k + 1),
                    page_num_px(*font, layout_indices@, n, k),
                    page_num_py(*font, layout_indices@, n, k),
                    i,
                    j,
                    crate::pixel::white(),
                )
        }),
{
    let n = layout_indices.len();
    // number of rows and columns in the tile layout
    let mut max_x: usize = 0;
    let mut max_y: usize = 0;
    let mut t: usize = 0;
    while t < n
        invariant
            n == layout_indices@.len(),
            t <= n,
            max_x <= 40,
            max_y <= 40,
            max_x == max_x_of(layout_indices@, t as int),
            max_y == max_y_of(layout_indices@, t as int),
            forall|c: int|
                0 <= c < t ==> (#[trigger] layout_indices@[c]).0 <= max_x
                    && layout_indices@[c].1 <= max_y,
            forall|k: int|
                0 <= k < layout_indices@.len() ==> (#[trigger] layout_indices@[k]).0 <= 40
                    && layout_indices@[k].1 <= 40,
        decreases n - t,
    {
        let (x, y) = layout_indices[t];
        if x > max_x {
            max_x = x;
        }
        if y > max_y {
            max_y = y;
        }
        t = t + 1;
    }
    let num_cols: usize = 1 + max_x;
    let num_rows: usize = 1 + max_y;
    let count_text = int_to_dec(n as i64);
    proof {
        lemma_dec_digits_len(n as int);
        assert(3 <= font.gw() * (crate::numfmt::int_str(n as int).len() + 2) <= 64 * 6)
            by (nonlinear_arith)
            requires
                1 <= crate::numfmt::int_str(n as int).len() <= 4,
                1 <= font.gw() <= 64,
        ;
    }
    let tile_w: usize = 1 + font.glyph_width() * (count_text.len() + 2);
    let tile_h: usize = 1 + (3 * tile_w) / 2;
    proof {
        assert(num_cols * tile_w <= 41 * 385 && num_rows * tile_h <= 41 * 578)
            by (nonlinear_arith)
            requires
                1 <= num_cols <= 41,
                1 <= num_rows <= 41,
                1 <= tile_w <= 385,
                1 <= tile_h <= 578,
        ;
    }
    let grid_w: usize = num_cols * tile_w;
    let grid_h: usize = num_rows * tile_h;
    let mut grid = PixelBuffer::new_filled(grid_w, grid_h, Pixel::new(255, 255, 255, 255));
    proof {
        assert forall|c: int, i: int, j: int|
            0 <= c < n && in_rect(
                i,
                j,
                (#[trigger] layout_indices@[c]).0 * tile_w as int + 1,
                layout_indices@[c].1 * tile_h as int + 1,
                tile_w - 3,
                tile_h - 3,
            ) implies #[trigger] grid.pix(i, j) == crate::pixel::white() by {
            let xc = layout_indices@[c].0 as int;
            let yc = layout_indices@[c].1 as int;
            assert(xc * tile_w + tile_w <= num_cols * tile_w && 0 <= xc * tile_w)
                by (nonlinear_arith)
                requires
                    0 <= xc < num_cols,
                    1 <= tile_w,
            ;
            assert(yc * tile_h + tile_h <= num_rows * tile_h && 0 <= yc * tile_h)
                by (nonlinear_arith)
                requires
                    0 <= yc < num_rows,
                    1 <= tile_h,
            ;
        }
    }
    // first pass: every page box border, so later boxes can only repaint
    // border pixels in the same black; interiors stay white
    let mut k: usize = 0;
    while k < n
        invariant
            font.wf(),
            n == layout_indices@.len(),
            n <= 1000,
            k <= n,
            grid.wf(),
            grid.w() == grid_w,
            grid.h() == grid_h,
            4 <= tile_w <= 385,
            7 <= tile_h <= 578,
            grid_w == num_cols * tile_w,
            grid_h == num_rows * tile_h,
            grid_w <= 15785,
            grid_h <= 23698,
            1 <= num_cols <= 41,
            1 <= num_rows <= 41,
            forall|c: int|
                0 <= c < layout_indices@.len() ==> (#[trigger] layout_indices@[c]).0 < num_cols
                    && layout_indices@[c].1 < num_rows,
            forall|k1: int, k2: int|
                0 <= k1 < k2 < layout_indices@.len() ==> #[trigger] layout_indices@[k1]
                    != #[trigger] layout_indices@[k2],
            forall|c: int, i: int, j: int|
                0 <= c < k && on_outline(
                    i,
                    j,
                    (#[trigger] layout_indices@[c]).0 * tile_w,
                    layout_indices@[c].1 * tile_h,
                    tile_w - 1,
                    tile_h - 1,
                ) ==> #[trigger] grid.pix(i, j) == crate::pixel::black(),
            forall|c: int, i: int, j: int|
                0 <= c < n && in_rect(
                    i,
                    j,
                    (#[trigger] layout_indices@[c]).0 * tile_w + 1,
                    layout_indices@[c].1 * tile_h + 1,
                    tile_w - 3,
                    tile_h - 3,
                ) ==> #[trigger] grid.pix(i, j) == crate::pixel::white(),
        decreases n - k,
    {
        let (x, y) = layout_indices[k];
        proof {
            assert(x * tile_w + tile_w <= num_cols * tile_w) by (nonlinear_arith)
                requires
                    x < num_cols,
                    0 <= x,
                    1 <= tile_w,
            ;
            assert(y * tile_h + tile_h <= num_rows * tile_h) by (nonlinear_arith)
                requires
                    y < num_rows,
                    0 <= y,
                    1 <= tile_h,
            ;
            assert(0 <= x * tile_w && 0 <= y * tile_h) by (nonlinear_arith)
                requires
                    0 <= x,
                    0 <= y,
                    1 <= tile_w,
                    1 <= tile_h,
            ;
        }
        let pos_x: usize = x * tile_w;
        let pos_y: usize = y * tile_h;
        let ghost grid_b = grid;
        grid.draw_rect_outline(pos_x, pos_y, tile_w - 1, tile_h - 1, Pixel::new(0, 0, 0, 255));
        proof {
            assert forall|c: int, i: int, j: int|
                0 <= c < k + 1 && on_outline(
                    i,
                    j,
                    (#[trigger] layout_indices@[c]).0 * tile_w,
                    layout_indices@[c].1 * tile_h,
                    tile_w - 1,
                    tile_h - 1,
                ) implies #[trigger] grid.pix(i, j) == crate::pixel::black() by {
                let xc = layout_indices@[c].0 as int;
                let yc = layout_indices@[c].1 as int;
                assert(xc * tile_w + tile_w <= num_cols * tile_w && 0 <= xc * tile_w)
                    by (nonlinear_arith)
                    requires
                        0 <= xc < num_cols,
                        1 <= tile_w,
                ;
                assert(yc * tile_h + tile_h <= num_rows * tile_h && 0 <= yc * tile_h)
                    by (nonlinear_arith)
                    requires
                        0 <= yc < num_rows,
                        1 <= tile_h,
                ;
                if c < k {
                    assert(grid_b.pix(i, j) == crate::pixel::black());
                }
            }
            assert forall|c: int, i: int, j: int|
                0 <= c < n && in_rect(
                    i,
                    j,
                    (#[trigger] layout_indices@[c]).0 * tile_w + 1,
                    layout_indices@[c].1 * tile_h + 1,
                    tile_w - 3,
                    tile_h - 3,
                ) implies #[trigger] grid.pix(i, j) == crate::pixel::white() by {
                let xc = layout_indices@[c].0 as int;
                let yc = layout_indices@[c].1 as int;
                assert(xc * tile_w + tile_w <= num_cols * tile_w && 0 <= xc * tile_w)
                    by (nonlinear_arith)
                    requires
                        0 <= xc < num_cols,
                        1 <= tile_w,
                ;
                assert(yc * tile_h + tile_h <= num_rows * tile_h && 0 <= yc * tile_h)
                    by (nonlinear_arith)
                    requires
                        0 <= yc < num_rows,
                        1 <= tile_h,
                ;
                assert(grid_b.pix(i, j) == crate::pixel::white());
                if xc == x as int && yc == y as int {
                } else if xc < x as int {
                    lemma_tile_sep(xc, x as int, tile_w as int);
                } else if xc > x as int {
                    lemma_tile_sep(x as int, xc, tile_w as int);
                } else if yc < y as int {
                    lemma_tile_sep(yc, y as int, tile_h as int);
                } else {
                    lemma_tile_sep(y as int, yc, tile_h as int);
                }
            }
        }
        k = k + 1;
    }
    // second pass: the page numbers, each clipped to its box interior
    let mut k2: usize = 0;
    while k2 < n
        invariant
            font.wf(),
            n == layout_indices@.len(),
            n <= 1000,
            k2 <= n,
            grid.wf(),
            grid.w() == grid_w,
            grid.h() == grid_h,
            tile_w == page_tile_w(*font, n as int),
            tile_h == page_tile_h(*font, n as int),
            4 <= tile_w <= 385,
            7 <= tile_h <= 578,
            grid_w == num_cols * tile_w,
            grid_h == num_rows * tile_h,
            grid_w <= 15785,
            grid_h <= 23698,
            1 <= num_cols <= 41,
            1 <= num_rows <= 41,
            forall|c: int|
                0 <= c < layout_indices@.len() ==> (#[trigger] layout_indices@[c]).0 < num_cols
                    && layout_indices@[c].1 < num_rows,
            forall|k1: int, kk: int|
                0 <= k1 < kk < layout_indices@.len() ==> #[trigger] layout_indices@[k1]
                    != #[trigger] layout_indices@[kk],
            forall|c: int, i: int, j: int|
                0 <= c < n && on_outline(
                    i,
                    j,
                    (#[trigger] layout_indices@[c]).0 * tile_w,
                    layout_indices@[c].1 * tile_h,
                    tile_w - 1,
                    tile_h - 1,
                ) ==> #[trigger] grid.pix(i, j) == crate::pixel::black(),
            forall|c: int, i: int, j: int|
                0 <= c < k2 && in_rect(
                    i,
                    j,
                    (#[trigger] layout_indices@[c]).0 * tile_w + 1,
                    layout_indices@[c].1 * tile_h + 1,
                    tile_w - 3,
                    tile_h - 3,
                ) ==> #[trigger] grid.pix(i, j) == text_pixel(
                    *font,
                    int_str(c + 1),
                    page_num_px(*font, layout_indices@, n as int, c),
                    page_num_py(*font, layout_indices@, n as int, c),
                    i,
                    j,
                    crate::pixel::white(),
                ),
            forall|c: int, i: int, j: int|
                k2 <= c < n && in_rect(
                    i,
                    j,
                    (#[trigger] layout_indices@[c]).0 * tile_w + 1,
                    layout_indices@[c].1 * tile_h + 1,
                    tile_w - 3,
                    tile_h - 3,
                ) ==> #[trigger] grid.pix(i, j) == crate::pixel::white(),
        decreases n - k2,
    {
        let (x, y) = layout_indices[k2];
        proof {
            assert(x * tile_w + tile_w <= num_cols * tile_w) by (nonlinear_arith)
                requires
                    x < num_cols,
                    0 <= x,
                    1 <= tile_w,
            ;
            assert(y * tile_h + tile_h <= num_rows * tile_h) by (nonlinear_arith)
                requires
                    y < num_rows,
                    0 <= y,
                    1 <= tile_h,
            ;
            assert(0 <= x * tile_w && 0 <= y * tile_h) by (nonlinear_arith)
                requires
                    0 <= x,
                    0 <= y,
                    1 <= tile_w,
                    1 <= tile_h,
            ;
        }
        let pos_x: usize = x * tile_w;
        let pos_y: usize = y * tile_h;
        let ghost grid_before = grid;
        let page_text = int_to_dec((k2 + 1) as i64);
        proof {
            lemma_dec_digits_len(k2 + 1 as int);
            assert(0 <= (page_text@.len() as int) * font.gw() <= 4 * 64) by (nonlinear_arith)
                requires
                    1 <= page_text@.len() <= 4,
                    0 <= font.gw() <= 64,
            ;
        }
        let text_w: usize = page_text.len() * font.glyph_width();
        let center_x: i64 = (pos_x as i64) + (tile_w as i64) / 2;
        let center_y: i64 = (pos_y as i64) + (tile_h as i64) / 2;
        let px: i64 = center_x - (text_w as i64) / 2;
        let py: i64 = center_y - (font.glyph_height() as i64) / 2;
        proof {
            assert(px as int == page_num_px(*font, layout_indices@, n as int, k2 as int));
            assert(py as int == page_num_py(*font, layout_indices@, n as int, k2 as int));
        }
        stamp_text_clipped(
            &mut grid,
            font,
            &page_text,
            px as i32,
            py as i32,
            pos_x + 1,
            pos_y + 1,
            tile_w - 3,
            tile_h - 3,
        );
        proof {
            assert forall|c: int, i: int, j: int|
                0 <= c < n && on_outline(
                    i,
                    j,
                    (#[trigger] layout_indices@[c]).0 * tile_w,
                    layout_indices@[c].1 * tile_h,
                    tile_w - 1,
                    tile_h - 1,
                ) implies #[trigger] grid.pix(i, j) == crate::pixel::black() by {
                let xc = layout_indices@[c].0 as int;
                let yc = layout_indices@[c].1 as int;
                assert(xc * tile_w + tile_w <= num_cols * tile_w && 0 <= xc * tile_w)
                    by (nonlinear_arith)
                    requires
                        0 <= xc < num_cols,
                        1 <= tile_w,
                ;
                assert(yc * tile_h + tile_h <= num_rows * tile_h && 0 <= yc * tile_h)
                    by (nonlinear_arith)
                    requires
                        0 <= yc < num_rows,
                        1 <= tile_h,
                ;
                assert(grid_before.pix(i, j) == crate::pixel::black());
                if xc == x as int && yc == y as int {
                } else if xc < x as int {
                    lemma_tile_sep(xc, x as int, tile_w as int);
                } else if xc > x as int {
                    lemma_tile_sep(x as int, xc, tile_w as int);
                } else if yc < y as int {
                    lemma_tile_sep(yc, y as int, tile_h as int);
                } else {
                    lemma_tile_sep(y as int, yc, tile_h as int);
                }
            }
            assert forall|c: int, i: int, j: int|
                0 <= c < k2 + 1 && in_rect(
                    i,
                    j,
                    (#[trigger] layout_indices@[c]).0 * tile_w + 1,
                    layout_indices@[c].1 * tile_h + 1,
                    tile_w - 3,
                    tile_h - 3,
                ) implies #[trigger] grid.pix(i, j) == text_pixel(
                *font,
                int_str(c + 1),
                page_num_px(*font, layout_indices@, n as int, c),
                page_num_py(*font, layout_indices@, n as int, c),
                i,
                j,
                crate::pixel::white(),
            ) by {
                let xc = layout_indices@[c].0 as int;
                let yc = layout_indices@[c].1 as int;
                assert(xc * tile_w + tile_w <= num_cols * tile_w && 0 <= xc * tile_w)
                    by (nonlinear_arith)
                    requires
                        0 <= xc < num_cols,
                        1 <= tile_w,
                ;
                assert(yc * tile_h + tile_h <= num_rows * tile_h && 0 <= yc * tile_h)
                    by (nonlinear_arith)
                    requires
                        0 <= yc < num_rows,
                        1 <= tile_h,
                ;
                if c == k2 as int {
                    assert(grid_before.pix(i, j) == crate::pixel::white());
                } else {
                    if xc == x as int && yc == y as int {
                        assert(layout_indices@[c] == layout_indices@[k2 as int]);
                        assert(false);
                    } else if xc < x as int {
                        lemma_tile_sep(xc, x as int, tile_w as int);
                    } else if xc > x as int {
                        lemma_tile_sep(x as int, xc, tile_w as int);
                    } else if yc < y as int {
                        lemma_tile_sep(yc, y as int, tile_h as int);
                    } else {
                        lemma_tile_sep(y as int, yc, tile_h as int);
                    }
                    assert(grid.pix(i, j) == grid_before.pix(i, j));
                }
            }
            assert forall|c: int, i: int, j: int|
                k2 + 1 <= c < n && in_rect(
                    i,
                    j,
                    (#[trigger] layout_indices@[c]).0 * tile_w + 1,
                    layout_indices@[c].1 * tile_h + 1,
                    tile_w - 3,
                    tile_h - 3,
                ) implies #[trigger] grid.pix(i, j) == crate::pixel::white() by {
                let xc = layout_indices@[c].0 as int;
                let yc = layout_indices@[c].1 as int;
                assert(xc * tile_w + tile_w <= num_cols * tile_w && 0 <= xc * tile_w)
                    by (nonlinear_arith)
                    requires
                        0 <= xc < num_cols,
                        1 <= tile_w,
                ;
                assert(yc * tile_h + tile_h <= num_rows * tile_h && 0 <= yc * tile_h)
                    by (nonlinear_arith)
                    requires
                        0 <= yc < num_rows,
                        1 <= tile_h,
                ;
                assert(grid_before.pix(i, j) == crate::pixel::white());
                if xc == x as int && yc == y as int {
                    assert(layout_indices@[c] == layout_indices@[k2 as int]);
                    assert(false);
                } else if xc < x as int {
                    lemma_tile_sep(xc, x as int, tile_w as int);
                } else if xc > x as int {
                    lemma_tile_sep(x as int, xc, tile_w as int);
                } else if yc < y as int {
                    lemma_tile_sep(yc, y as int, tile_h as int);
                } else {
                    lemma_tile_sep(y as int, yc, tile_h as int);
                }
            }
        }
        k2 = k2 + 1;
    }
    // caption above the grid: two blank lines, the caption line, one blank
    let caption_text: Vec<u8> = vec_of_caption();
    let caption = create_text_bitmap(font, &caption_text, Pixel::new(255, 255, 255, 255));
    let gh2: usize = 2 * font.glyph_height();
    let caption_padded = caption.extended(0, gh2, 0, font.glyph_height(), Pixel::new(
        255,
        255,
        255,
        255,
    ));
    let r = glue_vertical(&caption_padded, &grid, HAlign::Left, 0, Pixel::new(255, 255, 255, 255));
    proof {
        assert(grid_h_of(*font, layout_indices@, n as int) == grid_h);
        assert(r.h() == caption_padded.h() + grid_h);
        assert(caption_padded.h() == 4 * font.gh());
        assert(r.w() == crate::compose::max_int(23 * font.gw(), grid_w as int));
        assert forall|i: int, j: int|
            0 <= i < 23 * font.gw() && 0 <= j < font.gh() implies #[trigger] r.pix(
            i,
            2 * font.gh() + j,
        ) == text_pixel(*font, overview_caption(), 0, 0, i, j, crate::pixel::white()) by {
            assert(caption.pix(i, j) == text_pixel(
                *font,
                caption_text@,
                0,
                0,
                i,
                j,
                crate::pixel::white(),
            ));
            assert(caption_padded.pix(i, 2 * font.gh() + j) == caption.pix(i, j));
            assert(r.pix(i, 2 * font.gh() + j) == caption_padded.pix(i, 2 * font.gh() + j));
        }
        assert forall|c: int, i: int, j: int|
            0 <= c < n && on_outline(
                i,
                j,
                (#[trigger] layout_indices@[c]).0 * tile_w as int,
                layout_indices@[c].1 * tile_h as int,
                tile_w - 1,
                tile_h - 1,
            ) implies #[trigger] r.pix(i, j + 4 * font.gh()) == crate::pixel::black() by {
            let xc = layout_indices@[c].0 as int;
            let yc = layout_indices@[c].1 as int;
            assert(xc * tile_w + tile_w <= num_cols * tile_w && 0 <= xc * tile_w)
                by (nonlinear_arith)
                requires
                    0 <= xc < num_cols,
                    1 <= tile_w,
            ;
            assert(yc * tile_h + tile_h <= num_rows * tile_h && 0 <= yc * tile_h)
                by (nonlinear_arith)
                requires
                    0 <= yc < num_rows,
                    1 <= tile_h,
            ;
            assert(grid.pix(i, j) == crate::pixel::black());
            assert(0 <= i < grid_w && 0 <= j < grid_h);
        }
        assert forall|c: int, i: int, j: int|
            0 <= c < n && in_rect(
                i,
                j,
                (#[trigger] layout_indices@[c]).0 * tile_w as int + 1,
                layout_indices@[c].1 * tile_h as int + 1,
                tile_w - 3,
                tile_h - 3,
            ) implies #[trigger] r.pix(i, j + 4 * font.gh()) == text_pixel(
            *font,
            int_str(c + 1),
            page_num_px(*font, layout_indices@, n as int, c),
            page_num_py(*font, layout_indices@, n as int, c),
            i,
            j,
            crate::pixel::white(),
        ) by {
            let xc = layout_indices@[c].0 as int;
            let yc = layout_indices@[c].1 as int;
            assert(xc * tile_w + tile_w <= num_cols * tile_w && 0 <= xc * tile_w)
                by (nonlinear_arith)
                requires
                    0 <= xc < num_cols,
                    1 <= tile_w,
            ;
            assert(yc * tile_h + tile_h <= num_rows * tile_h && 0 <= yc * tile_h)
                by (nonlinear_arith)
                requires
                    0 <= yc < num_rows,
                    1 <= tile_h,
            ;
            assert(grid.pix(i, j) == text_pixel(
                *font,
                int_str(c + 1),
                page_num_px(*font, layout_indices@, n as int, c),
                page_num_py(*font, layout_indices@, n as int, c),
                i,
                j,
                crate::pixel::white(),
            ));
            assert(0 <= i < grid_w && 0 <= j < grid_h);
        }
    }
    r
}

/// The pixel height of the page-overview grid for a given layout.
pub open spec fn grid_h_of(font: Font, layout: Seq<(usize, usize)>, n: int) -> int {
    (1 + max_y_of(layout, layout.len() as int)) * page_tile_h(font, n)
}

/// The largest tile column index among the first `k` layout entries.
pub open spec fn max_x_of(layout: Seq<(usize, usize)>, k: int) -> int
    decreases k,
{
    if k <= 0 {
        0
    } else {
        let prev = max_x_of(layout, k - 1);
        if layout[k - 1].0 > prev {
            layout[k - 1].0 as int
        } else {
            prev
        }
    }
}

/// The largest tile row index among the first `k` layout entries.
pub open spec fn max_y_of(layout: Seq<(usize, usize)>, k: int) -> int
    decreases k,
{
    if k <= 0 {
        0
    } else {
        let prev = max_y_of(layout, k - 1);
        if layout[k - 1].1 > prev {
            layout[k - 1].1 as int
        } else {
            prev
        }
    }
}

fn vec_of_caption() -> (r: Vec<u8>)
    ensures
        r@ == overview_caption(),
        r@.len() == 23,
{
    let mut v: Vec<u8> = Vec::new();
    v.push(80);
    v.push(97);
    v.push(116);
    v.push(116);
    v.push(101);
    v.push(114);
    v.push(110);
    v.push(32);
    v.push(112);
    v.push(97);
    v.push(114);
    v.push(116);
    v.push(115);
    v.push(32);
    v.push(111);
    v.push(118);
    v.push(101);
    v.push(114);
    v.push(118);
    v.push(105);
    v.push(101);
    v.push(119);
    v.push(58);
    proof {
        assert(v@ =~= overview_caption());
    }
    v
}

} // verus!
