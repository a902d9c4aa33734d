use vstd::prelude::*;

use crate::buffer::PixelBuffer;
use crate::compose::glue_horizontal;
use crate::compose::glue_vertical;
use crate::compose::HAlign;
use crate::compose::VAlign;
use crate::font::create_text_bitmap;
use crate::font::text_pixel;
use crate::font::Font;
use crate::numfmt::dec_digits;
use crate::numfmt::lemma_dec_digits_len;
use crate::buffer::on_outline;
use crate::pixel::black;
use crate::pixel::contrast_ink;
use crate::pixel::white;
use crate::pixel::Pixel;
use crate::segments::create_pattern_page_layout;
use crate::segments::grid_h_of;
use crate::symbols::stamp_symbol;
use crate::symbols::ColorInfo;

verus! {

/// `"Size:     {w}x{h}"` as bytes.
pub open spec fn size_line(w: int, h: int) -> Seq<u8> {
    seq![83u8, 105u8, 122u8, 101u8, 58u8, 32u8, 32u8, 32u8, 32u8, 32u8] + dec_digits(w)
        + seq![120u8] + dec_digits(h)
}

/// `"Colors:   {n}"` as bytes.
pub open spec fn colors_line(n: int) -> Seq<u8> {
    seq![67u8, 111u8, 108u8, 111u8, 114u8, 115u8, 58u8, 32u8, 32u8, 32u8] + dec_digits(n)
}

/// `"Stitches: {s}"` as bytes.
pub open spec fn stitches_line(s: int) -> Seq<u8> {
    seq![83u8, 116u8, 105u8, 116u8, 99u8, 104u8, 101u8, 115u8, 58u8, 32u8] + dec_digits(s)
}

/// `" {c} stitches      "` as bytes: a legend entry's count label.
pub open spec fn entry_label(c: int) -> Seq<u8> {
    seq![32u8] + dec_digits(c) + seq![
        32u8,
        115u8,
        116u8,
        105u8,
        116u8,
        99u8,
        104u8,
        101u8,
        115u8,
        32u8,
        32u8,
        32u8,
        32u8,
        32u8,
        32u8,
    ]
}

/// Sum of the stitch counts of all palette entries.
pub open spec fn sum_counts(s: Seq<ColorInfo>) -> int
    decreases s.len(),
{
    if s.len() == 0 {
        0
    } else {
        sum_counts(s.drop_last()) + s.last().count
    }
}

fn push_digits(dst: &mut Vec<u8>, n: u64)
    ensures
        final(dst)@ == old(dst)@ + dec_digits(n as int),
    decreases n,
{
    if n < 10 {
        dst.push(48 + n as u8);
        proof {
            assert(dst@ =~= old(dst)@ + dec_digits(n as int));
        }
    } else {
        push_digits(dst, n / 10);
        dst.push(48 + (n % 10) as u8);
        proof {
            assert(dst@ =~= old(dst)@ + dec_digits(n as int));
        }
    }
}

/// The `"Size:     {w}x{h}"` line of the legend statistics.
pub fn legend_size_line(w: u64, h: u64) -> (r: Vec<u8>)
    ensures
        r@ == size_line(w as int, h as int),
{
    let mut v: Vec<u8> = Vec::new();
    v.push(83);
    v.push(105);
    v.push(122);
    v.push(101);
    v.push(58);
    v.push(32);
    v.push(32);
    v.push(32);
    v.push(32);
    v.push(32);
    push_digits(&mut v, w);
    v.push(120);
    push_digits(&mut v, h);
    proof {
        assert(v@ =~= size_line(w as int, h as int));
    }
    v
}

/// The `"Colors:   {n}"` line of the legend statistics.
pub fn legend_colors_line(n: u64) -> (r: Vec<u8>)
    ensures
        r@ == colors_line(n as int),
{
    let mut v: Vec<u8> = Vec::new();
    v.push(67);
    v.push(111);
    v.push(108);
    v.push(111);
    v.push(114);
    v.push(115);
    v.push(58);
    v.push(32);
    v.push(32);
    v.push(32);
    push_digits(&mut v, n);
    proof {
        assert(v@ =~= colors_line(n as int));
    }
    v
}

/// The `"Stitches: {s}"` line of the legend statistics.
pub fn legend_stitches_line(s: u64) -> (r: Vec<u8>)
    ensures
        r@ == stitches_line(s as int),
{
    let mut v: Vec<u8> = Vec::new();
    v.push(83);
    v.push(116);
    v.push(105);
    v.push(116);
    v.push(99);
    v.push(104);
    v.push(101);
    v.push(115);
    v.push(58);
    v.push(32);
    push_digits(&mut v, s);
    proof {
        assert(v@ =~= stitches_line(s as int));
    }
    v
}

fn entry_label_text(c: u64) -> (r: Vec<u8>)
    ensures
        r@ == entry_label(c as int),
{
    let mut v: Vec<u8> = Vec::new();
    v.push(32);
    push_digits(&mut v, c);
    v.push(32);
    v.push(115);
    v.push(116);
    v.push(105);
    v.push(116);
    v.push(99);
    v.push(104);
    v.push(101);
    v.push(115);
    v.push(32);
    v.push(32);
    v.push(32);
    v.push(32);
    v.push(32);
    v.push(32);
    proof {
        assert(v@ =~= entry_label(c as int));
    }
    v
}

/// Pixel `(i, j)` of a legend row's swatch-and-symbol half: the color
/// swatch and the symbol cell beside it, each bordered in black; the
/// symbol is stamped over white with the contrast ink rule (so in black),
/// its pixels equal to the white mask color left showing the background.
pub open spec fn legend_entry_map_pixel(sym: PixelBuffer, color: Pixel, i: int, j: int) -> Pixel {
    if on_outline(i, j, 16, 0, 16, 16) {
        black()
    } else if 16 <= i < 32 && sym.pix(i - 16, j) != white() {
        contrast_ink(white())
    } else if on_outline(i, j, 0, 0, 16, 16) {
        black()
    } else if 0 <= i < 16 {
        color
    } else {
        white()
    }
}

/// One legend row: a black-bordered swatch of the color, its symbol
/// stamped beside it over white, and the `" {count} stitches "` label,
/// centered in the row height. Every pixel of the swatch-and-symbol half
/// and of the label text is pinned.
pub fn create_legend_entry(font: &Font, info: &ColorInfo) -> (r: PixelBuffer)
    requires
        font.wf(),
        info.symbol.wf(),
        info.symbol.w() == 16,
        info.symbol.h() == 16,
        info.count <= 1000000000,
    ensures
        r.wf(),
        r.w() == 32 + entry_label(info.count as int).len() * font.gw(),
        r.h() == entry_h(*font),
        ({
            let moff = (r.h() - 16) / 2;
            let loff = (r.h() - font.gh()) / 2;
            &&& forall|i: int, j: int|
                0 <= i < 32 && 0 <= j < 16 ==> #[trigger] r.pix(i, moff + j)
                    == legend_entry_map_pixel(info.symbol, info.color, i, j)
            &&& forall|i: int, j: int|
                0 <= i < entry_label(info.count as int).len() * font.gw() && 0 <= j < font.gh()
                    ==> #[trigger] r.pix(32 + i, loff + j) == text_pixel(
                    *font,
                    entry_label(info.count as int),
                    0,
                    0,
                    i,
                    j,
                    white(),
                )
            &&& forall|i: int, j: int|
                1 <= i < 15 && 1 <= j < 15 ==> #[trigger] r.pix(i, moff + j) == info.color
        }),
{
    let mut map = PixelBuffer::new_filled(32, 16, Pixel::new(255, 255, 255, 255));
    map.fill_rect(0, 0, 16, 16, info.color);
    map.draw_rect_outline(0, 0, 16, 16, Pixel::new(0, 0, 0, 255));
    stamp_symbol(&mut map, &info.symbol, 16, 0, Pixel::new(255, 255, 255, 255));
    map.draw_rect_outline(16, 0, 16, 16, Pixel::new(0, 0, 0, 255));
    proof {
        assert forall|i: int, j: int| 0 <= i < 32 && 0 <= j < 16 implies #[trigger] map.pix(i, j)
            == legend_entry_map_pixel(info.symbol, info.color, i, j) by {}
    }
    let label = entry_label_text(info.count as u64);
    proof {
        lemma_dec_digits_len(info.count as int);
        assert(label@.len() * font.gw() <= 26 * 64) by (nonlinear_arith)
            requires
                1 <= label@.len() <= 26,
                0 <= font.gw() <= 64,
        ;
    }
    let label_bitmap = create_text_bitmap(font, &label, Pixel::new(255, 255, 255, 255));
    let r = glue_horizontal(&map, &label_bitmap, VAlign::Center, 0, Pixel::new(255, 255, 255, 255));
    r
}

/// Width of one legend row for a given stitch count.
pub open spec fn legend_entry_w(font: Font, c: int) -> int {
    32 + entry_label(c).len() * font.gw()
}

/// Width of the block holding entries `start..end`: the widest of its
/// rows.
pub open spec fn legend_block_w(infos: Seq<ColorInfo>, font: Font, start: int, end: int) -> int
    decreases end - start,
{
    if end <= start + 1 {
        legend_entry_w(font, infos[start].count as int)
    } else {
        let prev = legend_block_w(infos, font, start, end - 1);
        let this = legend_entry_w(font, infos[end - 1].count as int);
        if prev >= this {
            prev
        } else {
            this
        }
    }
}

/// A block of up to five legend entries stacked top to bottom, sixteen
/// pixels apart, left aligned: row `s` holds entry `start + s`, and every
/// swatch interior shows its entry's color.
#[verifier::rlimit(60)]
pub fn create_legend_block(font: &Font, infos: &Vec<ColorInfo>, start: usize, end: usize) -> (r:
    PixelBuffer)
    requires
        font.wf(),
        start < end,
        end <= infos@.len(),
        end - start <= 5,
        forall|k: int|
            start <= k < end ==> (#[trigger] infos@[k]).symbol.wf() && infos@[k].symbol.w() == 16
                && infos@[k].symbol.h() == 16 && infos@[k].count <= 1000000000,
    ensures
        r.wf(),
        32 <= r.w() <= 1696,
        r.w() == legend_block_w(infos@, *font, start as int, end as int),
        r.h() == (end - start) * entry_h(*font) + 16 * (end - start - 1),
        forall|s: int, i: int, j: int|
            0 <= s < end - start && 1 <= i < 15 && 1 <= j < 15 ==> #[trigger] r.pix(
                i,
                s * (entry_h(*font) + 16) + (entry_h(*font) - 16) / 2 + j,
            ) == infos@[start + s].color,
{
    proof {
        lemma_entry_w_bound(*font, infos@[start as int].count as int);
    }
    let mut r = create_legend_entry(font, &infos[start]);
    proof {
        assert(r.h() == entry_h(*font));
        assert((start + 1 - start) * entry_h(*font) + 16 * (start + 1 - start - 1) == entry_h(
            *font,
        ));
        assert(32 <= r.w() <= 1696);
        assert forall|s: int, i: int, j: int|
            0 <= s < 1 && 1 <= i < 15 && 1 <= j < 15 implies #[trigger] r.pix(
            i,
            s * (entry_h(*font) + 16) + (entry_h(*font) - 16) / 2 + j,
        ) == infos@[start as int + s].color by {
            assert(s == 0);
            assert(s * (entry_h(*font) + 16) == 0);
        }
    }
    let mut k: usize = start + 1;
    while k < end
        invariant
            font.wf(),
            start < k <= end,
            end <= infos@.len(),
            end - start <= 5,
            forall|t: int|
                start <= t < end ==> (#[trigger] infos@[t]).symbol.wf() && infos@[t].symbol.w()
                    == 16 && infos@[t].symbol.h() == 16 && infos@[t].count <= 1000000000,
            r.wf(),
            32 <= r.w() <= 1696,
            r.w() == legend_block_w(infos@, *font, start as int, k as int),
            r.h() == (k - start) * entry_h(*font) + 16 * (k - start - 1),
            forall|s: int, i: int, j: int|
                0 <= s < k - start && 1 <= i < 15 && 1 <= j < 15 ==> #[trigger] r.pix(
                    i,
                    s * (entry_h(*font) + 16) + (entry_h(*font) - 16) / 2 + j,
                ) == infos@[start + s].color,
        decreases end - k,
    {
        proof {
            lemma_entry_w_bound(*font, infos@[k as int].count as int);
        }
        let e = create_legend_entry(font, &infos[k]);
        proof {
            assert((k + 1 - start) * entry_h(*font) == (k - start) * entry_h(*font) + entry_h(
                *font,
            )) by (nonlinear_arith);
            assert(r.h() <= 368) by (nonlinear_arith)
                requires
                    r.h() == (k - start) * entry_h(*font) + 16 * (k - start - 1),
                    1 <= k - start <= 4,
                    16 <= entry_h(*font) <= 64,
            ;
        }
        let ghost r0 = r;
        r = glue_vertical(&r, &e, HAlign::Left, 16, Pixel::new(255, 255, 255, 255));
        proof {
            let eh = entry_h(*font);
            assert forall|s: int, i: int, j: int|
                0 <= s < k + 1 - start && 1 <= i < 15 && 1 <= j < 15 implies #[trigger] r.pix(
                i,
                s * (eh + 16) + (eh - 16) / 2 + j,
            ) == infos@[start + s].color by {
                assert(0 <= s * (eh + 16) && s * (eh + 16) + eh <= r.h()) by (nonlinear_arith)
                    requires
                        0 <= s <= k - start,
                        16 <= eh <= 64,
                        r.h() == (k + 1 - start) * eh + 16 * (k - start),
                ;
                assert(0 <= (eh - 16) / 2 && (eh - 16) / 2 + 16 <= eh);
                if s < k - start {
                    assert(s * (eh + 16) + (eh - 16) / 2 + j < r0.h()) by (nonlinear_arith)
                        requires
                            0 <= s <= k - start - 1,
                            16 <= eh <= 64,
                            0 <= j < 15,
                            r0.h() == (k - start) * eh + 16 * (k - start - 1),
                    ;
                    assert(r.pix(i, s * (eh + 16) + (eh - 16) / 2 + j) == r0.pix(
                        i,
                        s * (eh + 16) + (eh - 16) / 2 + j,
                    ));
                } else {
                    assert(s == k - start);
                    assert(s * (eh + 16) == r0.h() + 16) by (nonlinear_arith)
                        requires
                            s == k - start,
                            r0.h() == (k - start) * eh + 16 * (k - start - 1),
                            1 <= k - start,
                            16 <= eh,
                    ;
                    assert(r.pix(i, r0.h() + 16 + (eh - 16) / 2 + j) == e.pix(
                        i,
                        (eh - 16) / 2 + j,
                    ));
                    assert(e.pix(i, (eh - 16) / 2 + j) == infos@[k as int].color);
                }
            }
        }
        k = k + 1;
    }
    r
}

/// Height of one legend entry row.
pub open spec fn entry_h(font: Font) -> int {
    if 16 >= font.gh() {
        16int
    } else {
        font.gh()
    }
}

proof fn lemma_entry_w_bound(font: Font, c: int)
    requires
        0 <= c <= 1000000000,
        font.wf(),
    ensures
        32 + entry_label(c).len() * font.gw() <= 1696,
        0 <= entry_label(c).len() * font.gw(),
        16 <= entry_h(font) <= 64,
{
    lemma_dec_digits_len(c);
    assert(0 <= entry_label(c).len() * font.gw() <= 26 * 64) by (nonlinear_arith)
        requires
            1 <= entry_label(c).len() <= 26,
            0 <= font.gw() <= 64,
    ;
}

/// The last entry index (exclusive) of block `b`.
pub open spec fn block_end(n: int, b: int) -> int {
    if 5 * b + 5 <= n {
        5 * b + 5
    } else {
        n
    }
}

/// How many five-entry blocks `n` entries fill.
pub open spec fn num_blocks(n: int) -> int {
    (n + 4) / 5
}

/// The left edge of block `b` inside the color band.
pub open spec fn legend_blocks_x(infos: Seq<ColorInfo>, font: Font, b: int) -> int
    decreases b,
{
    if b <= 0 {
        0
    } else {
        legend_blocks_x(infos, font, b - 1) + legend_block_w(
            infos,
            font,
            5 * (b - 1),
            block_end(infos.len() as int, b - 1),
        ) + 16
    }
}

/// Rows of the first (largest) block.
pub open spec fn first_block_entries(n: int) -> int {
    if n >= 5 {
        5
    } else {
        n
    }
}

/// Height of the color band: its tallest (first) block, or one blank
/// pixel row when there are no entries.
pub open spec fn legend_blocks_h(font: Font, n: int) -> int {
    if n == 0 {
        1
    } else {
        first_block_entries(n) * entry_h(font) + 16 * (first_block_entries(n) - 1)
    }
}

/// Height of the legend above the page diagram: the seven statistics
/// lines, the color band, and its padding.
pub open spec fn legend_core_h(font: Font, n: int) -> int {
    7 * font.gh() + legend_blocks_h(font, n) + 24
}

proof fn lemma_block_w_ge32(infos: Seq<ColorInfo>, font: Font, start: int, end: int)
    requires
        font.wf(),
        0 <= start < end <= infos.len(),
        forall|k: int| 0 <= k < infos.len() ==> (#[trigger] infos[k]).count <= 1000000000,
    ensures
        legend_block_w(infos, font, start, end) >= 32,
    decreases end - start,
{
    if end <= start + 1 {
        crate::numfmt::lemma_dec_digits_len(infos[start].count as int);
        assert(entry_label(infos[start].count as int).len() * font.gw() >= 0)
            by (nonlinear_arith)
            requires
                entry_label(infos[start].count as int).len() >= 0,
                font.gw() >= 0,
        ;
    } else {
        lemma_block_w_ge32(infos, font, start, end - 1);
    }
}

proof fn lemma_blocks_x_inc(infos: Seq<ColorInfo>, font: Font, b: int, nb: int)
    requires
        font.wf(),
        0 <= b < nb,
        5 * nb <= infos.len() + 4,
        forall|k: int| 0 <= k < infos.len() ==> (#[trigger] infos[k]).count <= 1000000000,
        5 * (nb - 1) < infos.len(),
    ensures
        legend_blocks_x(infos, font, b) + legend_block_w(
            infos,
            font,
            5 * b,
            block_end(infos.len() as int, b),
        ) + 16 <= legend_blocks_x(infos, font, nb),
        legend_blocks_x(infos, font, b) >= 0,
    decreases nb,
{
    let n = infos.len() as int;
    assert(5 * b < n) by (nonlinear_arith)
        requires
            b <= nb - 1,
            5 * (nb - 1) < n,
    ;
    lemma_block_w_ge32(infos, font, 5 * b, block_end(n, b));
    if b == nb - 1 {
        if b > 0 {
            lemma_blocks_x_inc(infos, font, b - 1, b);
        }
    } else {
        lemma_blocks_x_inc(infos, font, b, nb - 1);
        lemma_block_w_ge32(infos, font, 5 * (nb - 1), block_end(n, nb - 1));
    }
}

/// Builds the color band: every palette entry, in order, grouped into
/// five-row blocks laid side by side in one band of columns.
#[verifier::rlimit(100)]
fn build_legend_color_band(font: &Font, color_mappings: &Vec<ColorInfo>) -> (blocks: PixelBuffer)
    requires
        font.wf(),
        1 <= color_mappings@.len() <= 90,
        forall|k: int|
            0 <= k < color_mappings@.len() ==> (#[trigger] color_mappings@[k]).symbol.wf()
                && color_mappings@[k].symbol.w() == 16 && color_mappings@[k].symbol.h() == 16
                && color_mappings@[k].count <= 1000000000,
    ensures
        blocks.wf(),
        32 <= blocks.w() <= 32528,
        blocks.h() == legend_blocks_h(*font, color_mappings@.len() as int),
        blocks.w() == legend_blocks_x(
            color_mappings@,
            *font,
            num_blocks(color_mappings@.len() as int),
        ) - 16,
        forall|e: int, i: int, j: int|
            0 <= e < color_mappings@.len() && 1 <= i < 15 && 1 <= j < 15 ==> #[trigger] blocks.pix(
                legend_blocks_x(color_mappings@, *font, e / 5) + i,
                (e % 5) * (entry_h(*font) + 16) + (entry_h(*font) - 16) / 2 + j,
            ) == color_mappings@[e].color,
{
    let n = color_mappings.len();
    let ghost infos = color_mappings@;
    let ghost eh = entry_h(*font);
    let end0 = if 5 <= n {
        5
    } else {
        n
    };
    let first = create_legend_block(font, color_mappings, 0, end0);
    proof {
        assert(legend_blocks_x(infos, *font, 0) == 0);
        assert(legend_blocks_x(infos, *font, 1) == legend_block_w(
            infos,
            *font,
            0,
            block_end(n as int, 0),
        ) + 16);
        assert(first.h() == legend_blocks_h(*font, n as int));
        assert forall|e: int, i: int, j: int|
            0 <= e < end0 && 1 <= i < 15 && 1 <= j < 15 implies #[trigger] first.pix(
            legend_blocks_x(infos, *font, e / 5) + i,
            (e % 5) * (eh + 16) + (eh - 16) / 2 + j,
        ) == infos[e].color by {
            vstd::arithmetic::div_mod::lemma_fundamental_div_mod_converse(e, 5, 0, e);
            assert(e / 5 == 0 && e % 5 == e);
            assert(legend_blocks_x(infos, *font, 0) == 0);
        }
    }
    let mut blocks = first;
    let mut nb: usize = 1;
    let mut start: usize = end0;
    while start < n
        invariant
            font.wf(),
            n == infos.len(),
            infos == color_mappings@,
            eh == entry_h(*font),
            1 <= n <= 90,
            forall|k: int|
                0 <= k < infos.len() ==> (#[trigger] infos[k]).symbol.wf() && infos[k].symbol.w()
                    == 16 && infos[k].symbol.h() == 16 && infos[k].count <= 1000000000,
            blocks.wf(),
            1 <= nb <= 19,
            32 <= blocks.w(),
            start == (if 5 * nb <= n {
                5 * nb as int
            } else {
                n as int
            }),
            nb == num_blocks(start as int),
            blocks.w() <= 1712 * nb,
            blocks.w() == legend_blocks_x(infos, *font, nb as int) - 16,
            blocks.h() == legend_blocks_h(*font, n as int),
            forall|e: int, i: int, j: int|
                0 <= e < start && 1 <= i < 15 && 1 <= j < 15 ==> #[trigger] blocks.pix(
                    legend_blocks_x(infos, *font, e / 5) + i,
                    (e % 5) * (eh + 16) + (eh - 16) / 2 + j,
                ) == infos[e].color,
        decreases n - start,
    {
        proof {
            assert(5 * nb <= n) by {
                if 5 * nb > n {
                    assert(start == n);
                }
            }
            assert(start == 5 * nb);
            assert(nb <= 18) by (nonlinear_arith)
                requires
                    5 * nb <= n,
                    n <= 90,
            ;
        }
        let end = if start + 5 <= n {
            start + 5
        } else {
            n
        };
        let block = create_legend_block(font, color_mappings, start, end);
        proof {
            assert(block.h() <= 5 * 64 + 64) by (nonlinear_arith)
                requires
                    block.h() == (end - start) * entry_h(*font) + 16 * (end - start - 1),
                    1 <= end - start <= 5,
                    16 <= entry_h(*font) <= 64,
            ;
            assert(blocks.w() <= 1712 * 19) by (nonlinear_arith)
                requires
                    blocks.w() <= 1712 * nb,
                    0 <= nb <= 19,
            ;
            assert(1712 * (nb + 1) == 1712 * nb + 1712) by (nonlinear_arith);
            assert(end == block_end(n as int, nb as int));
        }
        let ghost blocks0 = blocks;
        blocks = glue_horizontal(&blocks, &block, VAlign::Top, 16, Pixel::new(
            255,
            255,
            255,
            255,
        ));
        proof {
            assert(legend_blocks_x(infos, *font, nb + 1) == legend_blocks_x(infos, *font, nb as int)
                + legend_block_w(infos, *font, 5 * (nb as int), block_end(n as int, nb as int))
                + 16);
            assert(blocks.w() == legend_blocks_x(infos, *font, nb + 1) - 16);
            assert(blocks.h() == legend_blocks_h(*font, n as int)) by {
                assert(n >= 5);
                assert(block.h() <= blocks0.h()) by (nonlinear_arith)
                    requires
                        block.h() == (end - start) * eh + 16 * (end - start - 1),
                        blocks0.h() == 5 * eh + 16 * 4,
                        1 <= end - start <= 5,
                        16 <= eh <= 64,
                ;
            }
            assert forall|e: int, i: int, j: int|
                0 <= e < end && 1 <= i < 15 && 1 <= j < 15 implies #[trigger] blocks.pix(
                legend_blocks_x(infos, *font, e / 5) + i,
                (e % 5) * (eh + 16) + (eh - 16) / 2 + j,
            ) == infos[e].color by {
                let y = (e % 5) * (eh + 16) + (eh - 16) / 2 + j;
                assert(2 * ((eh - 16) / 2) <= eh - 16) by {
                    vstd::arithmetic::div_mod::lemma_fundamental_div_mod(eh - 16, 2);
                    vstd::arithmetic::div_mod::lemma_mod_bound(eh - 16, 2);
                }
                if e < start {
                    let b = e / 5;
                    vstd::arithmetic::div_mod::lemma_mod_bound(e, 5);
                    assert(0 <= b < nb) by (nonlinear_arith)
                        requires
                            b == e / 5,
                            0 <= e < 5 * nb,
                            5 * (e / 5) <= e < 5 * (e / 5) + 5,
                    ;
                    assert(5 * (e / 5) <= e < 5 * (e / 5) + 5) by {
                        vstd::arithmetic::div_mod::lemma_fundamental_div_mod(e, 5);
                    }
                    lemma_blocks_x_inc(infos, *font, b, nb as int);
                    lemma_block_w_ge32(infos, *font, 5 * b, block_end(n as int, b));
                    assert(legend_blocks_x(infos, *font, b) + i < blocks0.w());
                    assert(y < blocks0.h()) by (nonlinear_arith)
                        requires
                            y == (e % 5) * (eh + 16) + (eh - 16) / 2 + j,
                            0 <= e % 5 < 5,
                            blocks0.h() == 5 * eh + 16 * 4,
                            16 <= eh <= 64,
                            2 * ((eh - 16) / 2) <= eh - 16,
                            0 <= (eh - 16) / 2,
                            0 <= j < 15,
                    ;
                    assert(blocks.pix(legend_blocks_x(infos, *font, b) + i, y) == blocks0.pix(
                        legend_blocks_x(infos, *font, b) + i,
                        y,
                    ));
                } else {
                    let ss = e - start;
                    vstd::arithmetic::div_mod::lemma_fundamental_div_mod_converse(
                        e,
                        5,
                        nb as int,
                        ss,
                    );
                    assert(e / 5 == nb as int && e % 5 == ss);
                    assert(y < block.h()) by (nonlinear_arith)
                        requires
                            y == ss * (eh + 16) + (eh - 16) / 2 + j,
                            0 <= ss < end - start,
                            block.h() == (end - start) * eh + 16 * (end - start - 1),
                            16 <= eh <= 64,
                            2 * ((eh - 16) / 2) <= eh - 16,
                            0 <= (eh - 16) / 2,
                            0 <= j < 15,
                    ;
                    assert(blocks.pix(blocks0.w() + 16 + i, y) == block.pix(i, y));
                    assert(block.pix(i, ss * (eh + 16) + (eh - 16) / 2 + j) == infos[start
                        + ss].color);
                }
            }
            assert(nb + 1 == num_blocks(end as int)) by {
                if end == start + 5 {
                    vstd::arithmetic::div_mod::lemma_fundamental_div_mod_converse(
                        end + 4,
                        5,
                        nb + 1,
                        4,
                    );
                } else {
                    assert(5 * nb < end <= 5 * nb + 4);
                    vstd::arithmetic::div_mod::lemma_fundamental_div_mod_converse(
                        end + 4,
                        5,
                        nb + 1,
                        end + 4 - 5 * (nb + 1),
                    );
                }
            }
        }
        nb = nb + 1;
        start = end;
    }
    proof {
        assert(num_blocks(n as int) == nb as int);
        assert(blocks.w() <= 1712 * 19) by (nonlinear_arith)
            requires
                blocks.w() <= 1712 * nb,
                0 <= nb <= 19,
        ;
    }
    blocks
}

/// Renders the legend: the size / color-count / stitch-count statistics
/// above the per-color swatch blocks, the page-overview diagram below
/// when the pattern spans several pages, and a uniform sixteen pixel
/// margin. The three statistics lines are readable at the top left
/// exactly as `size_line`, `colors_line` and `stitches_line` give them.
#[verifier::rlimit(100)]
pub fn create_cross_stitch_legend(
    image_w: usize,
    image_h: usize,
    color_mappings: &Vec<ColorInfo>,
    font: &Font,
    segment_layout_indices: &Vec<(usize, usize)>,
) -> (r: PixelBuffer)
    requires
        font.wf(),
        image_w <= 32768,
        image_h <= 32768,
        color_mappings@.len() <= 90,
        forall|k: int|
            0 <= k < color_mappings@.len() ==> (#[trigger] color_mappings@[k]).symbol.wf()
                && color_mappings@[k].symbol.w() == 16 && color_mappings@[k].symbol.h() == 16
                && color_mappings@[k].count <= 1000000000,
        segment_layout_indices@.len() <= 1000,
        forall|k: int|
            0 <= k < segment_layout_indices@.len() ==> (#[trigger] segment_layout_indices@[k]).0
                <= 40 && segment_layout_indices@[k].1 <= 40,
        forall|k1: int, k2: int|
            0 <= k1 < k2 < segment_layout_indices@.len() ==> #[trigger] segment_layout_indices@[k1]
                != #[trigger] segment_layout_indices@[k2],
    ensures
        r.wf(),
        r.h() == 32 + legend_core_h(*font, color_mappings@.len() as int) + (
        if segment_layout_indices@.len() > 1 {
            4 * font.gh() + grid_h_of(
                *font,
                segment_layout_indices@,
                segment_layout_indices@.len() as int,
            )
        } else {
            0int
        }),
        ({
            let n = color_mappings@.len() as int;
            let total = sum_counts(color_mappings@);
            forall|l: int, i: int, j: int|
                0 <= l < 3 && 0 <= j < font.gh() && 0 <= i < stats_line(
                    l,
                    image_w as int,
                    image_h as int,
                    n,
                    total,
                ).len() * font.gw() ==> #[trigger] r.pix(16 + i, 16 + 2 * l * font.gh() + j)
                    == text_pixel(
                    *font,
                    stats_line(l, image_w as int, image_h as int, n, total),
                    0,
                    0,
                    i,
                    j,
                    white(),
                )
        }),
        forall|i: int, j: int|
            0 <= i < r.w() && 0 <= j < r.h() && !(16 <= i < r.w() - 16 && 16 <= j < r.h() - 16)
                ==> #[trigger] r.pix(i, j) == white(),
        segment_layout_indices@.len() > 1 ==> forall|i: int|
            16 <= i < r.w() - 16 ==> #[trigger] r.pix(
                i,
                16 + legend_core_h(*font, color_mappings@.len() as int),
            ) == black(),
        segment_layout_indices@.len() <= 1 ==> forall|i: int, j: int|
            16 <= i < r.w() - 16 && r.h() - 40 <= j < r.h() - 16 ==> #[trigger] r.pix(i, j)
                == white(),
        forall|e: int, i: int, j: int|
            0 <= e < color_mappings@.len() && 1 <= i < 15 && 1 <= j < 15 ==> #[trigger] r.pix(
                16 + legend_blocks_x(color_mappings@, *font, e / 5) + i,
                16 + 7 * font.gh() + (e % 5) * (entry_h(*font) + 16) + (entry_h(*font) - 16) / 2
                    + j,
            ) == color_mappings@[e].color,
{
    let n = color_mappings.len();
    // total stitch count
    let mut total: u64 = 0;
    let mut t: usize = 0;
    while t < n
        invariant
            n == color_mappings@.len(),
            n <= 90,
            t <= n,
            forall|k: int|
                0 <= k < color_mappings@.len() ==> (#[trigger] color_mappings@[k]).count
                    <= 1000000000,
            total == sum_counts(color_mappings@.take(t as int)),
            total <= t * 1000000000,
        decreases n - t,
    {
        let ghost pre = color_mappings@.take(t as int);
        proof {
            assert(color_mappings@.take(t + 1).drop_last() =~= pre);
            assert(color_mappings@.take(t + 1).last() == color_mappings@[t as int]);
            assert((t + 1) * 1000000000 == t * 1000000000 + 1000000000) by (nonlinear_arith);
        }
        total = total + (color_mappings[t].count as u64);
        t = t + 1;
    }
    proof {
        assert(color_mappings@.take(n as int) =~= color_mappings@);
        assert(n * 1000000000 <= 90000000000) by (nonlinear_arith)
            requires
                0 <= n <= 90,
        ;
    }
    // the seven statistics lines (three of text, four blank)
    let line0 = legend_size_line(image_w as u64, image_h as u64);
    let line2 = legend_colors_line(n as u64);
    let line4 = legend_stitches_line(total);
    proof {
        lemma_stats_lines_len(image_w as int, image_h as int, n as int, total as int);
        lemma_text_w_bound(*font, line0@.len() as int);
        lemma_text_w_bound(*font, line2@.len() as int);
        lemma_text_w_bound(*font, line4@.len() as int);
    }
    let b0 = create_text_bitmap(font, &line0, Pixel::new(255, 255, 255, 255));
    let b2 = create_text_bitmap(font, &line2, Pixel::new(255, 255, 255, 255));
    let b4 = create_text_bitmap(font, &line4, Pixel::new(255, 255, 255, 255));
    let gh = font.glyph_height();
    let blank = PixelBuffer::new_filled(0, gh, Pixel::new(255, 255, 255, 255));
    let s01 = glue_vertical(&b0, &blank, HAlign::Left, 0, Pixel::new(255, 255, 255, 255));
    let s02 = glue_vertical(&s01, &b2, HAlign::Left, 0, Pixel::new(255, 255, 255, 255));
    let s03 = glue_vertical(&s02, &blank, HAlign::Left, 0, Pixel::new(255, 255, 255, 255));
    let s04 = glue_vertical(&s03, &b4, HAlign::Left, 0, Pixel::new(255, 255, 255, 255));
    let s05 = glue_vertical(&s04, &blank, HAlign::Left, 0, Pixel::new(255, 255, 255, 255));
    let stats = glue_vertical(&s05, &blank, HAlign::Left, 0, Pixel::new(255, 255, 255, 255));
    // the color blocks, five entries each, side by side in one band
    let blocks: PixelBuffer = if n >= 1 {
        build_legend_color_band(font, color_mappings)
    } else {
        PixelBuffer::new_filled(1, 1, Pixel::new(255, 255, 255, 255))
    };
    proof {
        assert(blocks.h() == legend_blocks_h(*font, n as int));
        assert(blocks.h() <= 464) by (nonlinear_arith)
            requires
                blocks.h() == legend_blocks_h(*font, n as int),
                legend_blocks_h(*font, n as int) == 1 || legend_blocks_h(*font, n as int)
                    == first_block_entries(n as int) * entry_h(*font) + 16 * (first_block_entries(
                    n as int,
                ) - 1),
                0 <= first_block_entries(n as int) <= 5,
                16 <= entry_h(*font) <= 64,
        ;
    }
    let blocks_padded = blocks.extended(0, 0, 0, 24, Pixel::new(255, 255, 255, 255));
    let legend0 = glue_vertical(&stats, &blocks_padded, HAlign::Left, 0, Pixel::new(
        255,
        255,
        255,
        255,
    ));
    // the page-overview diagram under the legend when there are pages
    let mut combined = legend0;
    if segment_layout_indices.len() > 1 {
        let pl = create_pattern_page_layout(font, segment_layout_indices);
        let with_pl = glue_vertical(&combined, &pl, HAlign::Left, 0, Pixel::new(
            255,
            255,
            255,
            255,
        ));
        combined = with_pl;
        let ch = combined.height();
        let plh = pl.height();
        let cw = combined.width();
        combined.fill_rect(0, ch - plh, cw, 1, Pixel::new(0, 0, 0, 255));
        proof {
            assert(pl.h() == 4 * font.gh() + grid_h_of(
                *font,
                segment_layout_indices@,
                segment_layout_indices@.len() as int,
            ));
            assert(combined.h() == legend0.h() + pl.h());
            assert(combined.w() >= legend0.w());
            assert forall|i: int, j: int|
                0 <= i < legend0.w() && 0 <= j < legend0.h() implies #[trigger] combined.pix(i, j)
                == legend0.pix(i, j) by {}
            assert forall|i: int|
                0 <= i < combined.w() implies #[trigger] combined.pix(i, legend0.h())
                == black() by {}
        }
    }
    proof {
        assert forall|i: int, yy: int|
            0 <= i < stats.w() && 0 <= yy < stats.h() implies #[trigger] combined.pix(i, yy)
            == stats.pix(i, yy) by {
            assert(legend0.pix(i, yy) == stats.pix(i, yy));
        }
    }
    let r = combined.extended(16, 16, 16, 16, Pixel::new(255, 255, 255, 255));
    proof {
        let nn = color_mappings@.len() as int;
        let tt = sum_counts(color_mappings@);
        assert forall|l: int, i: int, j: int|
            0 <= l < 3 && 0 <= j < font.gh() && 0 <= i < stats_line(
                l,
                image_w as int,
                image_h as int,
                nn,
                tt,
            ).len() * font.gw() implies #[trigger] r.pix(16 + i, 16 + 2 * l * font.gh() + j)
            == text_pixel(
            *font,
            stats_line(l, image_w as int, image_h as int, nn, tt),
            0,
            0,
            i,
            j,
            white(),
        ) by {
            lemma_text_w_bound(
                *font,
                stats_line(l, image_w as int, image_h as int, nn, tt).len() as int,
            );
            let gh_i = font.gh();
            assert(s01.h() == 2 * gh_i && s02.h() == 3 * gh_i && s03.h() == 4 * gh_i && s04.h()
                == 5 * gh_i && s05.h() == 6 * gh_i && stats.h() == 7 * gh_i);
            assert(b0.w() <= s01.w() <= s02.w() <= s03.w() <= s04.w() <= s05.w() <= stats.w());
            assert(b2.w() <= s02.w());
            assert(b4.w() <= s04.w());
            assert(stats.w() <= legend0.w());
            assert(stats.h() <= legend0.h());
            assert(legend0.w() <= combined.w() && legend0.h() <= combined.h());
            if l == 0 {
                assert(i < b0.w());
                assert(s01.pix(i, j) == b0.pix(i, j));
                assert(s02.pix(i, j) == s01.pix(i, j));
                assert(s03.pix(i, j) == s02.pix(i, j));
                assert(s04.pix(i, j) == s03.pix(i, j));
                assert(s05.pix(i, j) == s04.pix(i, j));
                assert(stats.pix(i, j) == s05.pix(i, j));
                assert(stats.pix(i, j) == text_pixel(*font, line0@, 0, 0, i, j, white()));
                assert(combined.pix(i, j) == stats.pix(i, j));
                assert(r.pix(16 + i, 16 + j) == combined.pix(i, j));
            } else if l == 1 {
                let yy = 2 * gh_i + j;
                assert(i < b2.w());
                assert(s02.pix(i, yy) == b2.pix(i, j));
                assert(s03.pix(i, yy) == s02.pix(i, yy));
                assert(s04.pix(i, yy) == s03.pix(i, yy));
                assert(s05.pix(i, yy) == s04.pix(i, yy));
                assert(stats.pix(i, yy) == s05.pix(i, yy));
                assert(stats.pix(i, yy) == text_pixel(*font, line2@, 0, 0, i, j, white()));
                assert(combined.pix(i, yy) == stats.pix(i, yy));
                assert(r.pix(16 + i, 16 + yy) == combined.pix(i, yy));
                assert(16 + 2 * l * gh_i + j == 16 + yy);
            } else {
                let yy = 4 * gh_i + j;
                assert(l == 2);
                assert(i < b4.w());
                assert(s04.pix(i, yy) == b4.pix(i, j));
                assert(s05.pix(i, yy) == s04.pix(i, yy));
                assert(stats.pix(i, yy) == s05.pix(i, yy));
                assert(stats.pix(i, yy) == text_pixel(*font, line4@, 0, 0, i, j, white()));
                assert(combined.pix(i, yy) == stats.pix(i, yy));
                assert(r.pix(16 + i, 16 + yy) == combined.pix(i, yy));
                assert(16 + 2 * l * gh_i + j == 16 + yy);
            }
        }
        // the height equation and the parts below the statistics
        assert(stats.h() == 7 * font.gh());
        assert(blocks_padded.h() == legend_blocks_h(*font, nn) + 24);
        assert(legend0.h() == legend_core_h(*font, nn));
        assert forall|i: int, j: int|
            0 <= i < legend0.w() && 0 <= j < legend0.h() implies #[trigger] combined.pix(i, j)
            == legend0.pix(i, j) by {}
        assert forall|i: int, j: int|
            0 <= i < r.w() && 0 <= j < r.h() && !(16 <= i < r.w() - 16 && 16 <= j < r.h() - 16)
                implies #[trigger] r.pix(i, j) == white() by {}
        if segment_layout_indices@.len() > 1 {
            assert forall|i: int|
                16 <= i < r.w() - 16 implies #[trigger] r.pix(i, 16 + legend_core_h(*font, nn))
                == black() by {
                assert(r.pix(i, 16 + legend0.h()) == combined.pix(i - 16, legend0.h()));
            }
        }
        if segment_layout_indices@.len() <= 1 {
            assert forall|i: int, j: int|
                16 <= i < r.w() - 16 && r.h() - 40 <= j < r.h() - 16 implies #[trigger] r.pix(
                i,
                j,
            ) == white() by {
                let ii = i - 16;
                let jj = j - 16;
                assert(combined.h() == legend0.h());
                assert(r.pix(i, j) == combined.pix(ii, jj));
                assert(combined.pix(ii, jj) == legend0.pix(ii, jj));
                assert(stats.h() <= jj < legend0.h());
                if 0 <= ii < blocks_padded.w() {
                    assert(legend0.pix(ii, jj) == blocks_padded.pix(ii, jj - stats.h()));
                    assert(jj - stats.h() >= blocks.h());
                }
            }
        }
        assert forall|e: int, i: int, j: int|
            0 <= e < nn && 1 <= i < 15 && 1 <= j < 15 implies #[trigger] r.pix(
            16 + legend_blocks_x(color_mappings@, *font, e / 5) + i,
            16 + 7 * font.gh() + (e % 5) * (entry_h(*font) + 16) + (entry_h(*font) - 16) / 2 + j,
        ) == color_mappings@[e].color by {
            let eh = entry_h(*font);
            let b = e / 5;
            vstd::arithmetic::div_mod::lemma_fundamental_div_mod(e, 5);
            vstd::arithmetic::div_mod::lemma_mod_bound(e, 5);
            vstd::arithmetic::div_mod::lemma_fundamental_div_mod(nn + 4, 5);
            vstd::arithmetic::div_mod::lemma_mod_bound(nn + 4, 5);
            assert(5 * num_blocks(nn) >= nn);
            assert(0 <= b);
            assert(b < num_blocks(nn)) by {
                if b >= num_blocks(nn) {
                    assert(5 * b >= 5 * num_blocks(nn)) by (nonlinear_arith)
                        requires
                            b >= num_blocks(nn),
                            0 <= num_blocks(nn),
                    ;
                    assert(5 * b <= e);
                    assert(false);
                }
            }
            assert(5 * (num_blocks(nn) - 1) < nn);
            lemma_blocks_x_inc(color_mappings@, *font, b, num_blocks(nn));
            lemma_block_w_ge32(color_mappings@, *font, 5 * b, block_end(nn, b));
            assert(blocks.w() == legend_blocks_x(color_mappings@, *font, num_blocks(nn)) - 16);
            let x = legend_blocks_x(color_mappings@, *font, b) + i;
            assert(0 <= x < blocks.w());
            let y = (e % 5) * (eh + 16) + (eh - 16) / 2 + j;
            assert(2 * ((eh - 16) / 2) <= eh - 16 && 0 <= (eh - 16) / 2) by {
                vstd::arithmetic::div_mod::lemma_fundamental_div_mod(eh - 16, 2);
                vstd::arithmetic::div_mod::lemma_mod_bound(eh - 16, 2);
            }
            assert(e % 5 <= first_block_entries(nn) - 1) by {
                if nn < 5 {
                    vstd::arithmetic::div_mod::lemma_fundamental_div_mod_converse(e, 5, 0, e);
                }
            }
            assert(0 <= y < blocks.h()) by (nonlinear_arith)
                requires
                    y == (e % 5) * (eh + 16) + (eh - 16) / 2 + j,
                    0 <= e % 5 <= first_block_entries(nn) - 1,
                    blocks.h() == first_block_entries(nn) * eh + 16 * (first_block_entries(nn)
                        - 1),
                    1 <= first_block_entries(nn) <= 5,
                    16 <= eh <= 64,
                    2 * ((eh - 16) / 2) <= eh - 16,
                    0 <= (eh - 16) / 2,
                    0 <= j < 15,
            ;
            assert(blocks.h() == legend_blocks_h(*font, nn));
            assert(blocks.pix(x, y) == color_mappings@[e].color);
            assert(blocks_padded.pix(x, y) == blocks.pix(x, y));
            assert(legend0.pix(x, stats.h() + y) == blocks_padded.pix(x, y));
            assert(x < legend0.w() && stats.h() + y < legend0.h());
            assert(combined.pix(x, stats.h() + y) == legend0.pix(x, stats.h() + y));
            assert(r.pix(16 + x, 16 + stats.h() + y) == combined.pix(x, stats.h() + y));
            assert(16 + stats.h() + y == 16 + 7 * font.gh() + (e % 5) * (eh + 16) + (eh - 16) / 2
                + j);
        }
    }
    r
}

/// Line `2*l` of the legend statistics text, for `l` in 0, 1, 2 (the
/// in-between lines are blank).
pub open spec fn stats_line(l: int, w: int, h: int, n: int, s: int) -> Seq<u8> {
    if l == 0 {
        size_line(w, h)
    } else if l == 1 {
        colors_line(n)
    } else {
        stitches_line(s)
    }
}

proof fn lemma_stats_lines_len(w: int, h: int, n: int, s: int)
    requires
        0 <= w <= 32768,
        0 <= h <= 32768,
        0 <= n <= 1000000000,
        0 <= s < 100000000000,
    ensures
        1 <= size_line(w, h).len() <= 21,
        1 <= colors_line(n).len() <= 20,
        1 <= stitches_line(s).len() <= 22,
{
    lemma_dec_digits_len(w);
    lemma_dec_digits_len(h);
    lemma_dec_digits_len(n);
    lemma_dec_digits_big(s);
}

proof fn lemma_dec_digits_big(s: int)
    requires
        0 <= s < 100000000000,
    ensures
        dec_digits(s).len() <= 12,
{
    if s >= 10 {
        assert(s / 10 < 10000000000) by (nonlinear_arith)
            requires
                10 <= s < 100000000000,
        ;
        lemma_dec_digits_len(s / 10);
    }
}

proof fn lemma_text_w_bound(font: Font, len: int)
    requires
        font.wf(),
        0 <= len <= 30,
    ensures
        len * font.gw() <= 1920,
        0 <= len * font.gw(),
{
    assert(0 <= len * font.gw() <= 30 * 64) by (nonlinear_arith)
        requires
            0 <= len <= 30,
            0 <= font.gw() <= 64,
    ;
}

} // verus!
