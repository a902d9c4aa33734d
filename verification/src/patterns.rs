use vstd::prelude::*;

use crate::buffer::PixelBuffer;
use crate::canvas::edged_pixel;
use crate::canvas::infos_palette;
use crate::canvas::infos_symbols;
use crate::canvas::pad_b;
use crate::canvas::pad_l;
use crate::canvas::pad_r;
use crate::canvas::pad_t;
use crate::canvas::palette_covers;
use crate::canvas::render_pattern_canvas;
use crate::canvas::symbols_wf;
use crate::canvas::variant_add_symbol;
use crate::canvas::variant_alphanum;
use crate::canvas::variant_colorize;
use crate::canvas::PatternVariant;
use crate::canvas::MAX_COORD;
use crate::compose::glue_vertical;
use crate::compose::max_int;
use crate::compose::HAlign;
use crate::font::create_text_bitmap;
use crate::font::Font;
use crate::labels::label_pad;
use crate::labels::lemma_label_pad_bound;
use crate::labels::place_grid_labels_in_pattern;
use crate::numfmt::dec_digits;
use crate::numfmt::int_to_dec;
use crate::numfmt::lemma_dec_digits_len;
use crate::pixel::white;
use crate::pixel::Pixel;
use crate::symbols::ColorInfo;

verus! {

/// One output-ready image with the name that deterministically encodes
/// its variant and segment.
pub struct PatternArtifact {
    pub name: Vec<u8>,
    pub image: PixelBuffer,
}

/// The file-name stem of a pattern variant.
pub open spec fn variant_prefix(v: PatternVariant) -> Seq<u8> {
    match v {
        PatternVariant::Colorized => seq![
            99u8, 114u8, 111u8, 115u8, 115u8, 95u8, 115u8, 116u8, 105u8, 116u8, 99u8, 104u8,
            95u8, 99u8, 111u8, 108u8, 111u8, 114u8, 105u8, 122u8, 101u8, 100u8,
        ],
        PatternVariant::BlackAndWhite => seq![
            99u8, 114u8, 111u8, 115u8, 115u8, 95u8, 115u8, 116u8, 105u8, 116u8, 99u8, 104u8,
        ],
        PatternVariant::ColorizedNoSymbols => seq![
            99u8, 114u8, 111u8, 115u8, 115u8, 95u8, 115u8, 116u8, 105u8, 116u8, 99u8, 104u8,
            95u8, 99u8, 111u8, 108u8, 111u8, 114u8, 105u8, 122u8, 101u8, 100u8, 95u8, 110u8,
            111u8, 95u8, 115u8, 121u8, 109u8, 98u8, 111u8, 108u8, 115u8,
        ],
        PatternVariant::PaintByNumbers => seq![
            112u8, 97u8, 105u8, 110u8, 116u8, 95u8, 98u8, 121u8, 95u8, 110u8, 117u8, 109u8,
            98u8, 101u8, 114u8, 115u8,
        ],
    }
}

/// `"complete"`, or `"segment_{n}"` for page `n`.
pub open spec fn set_suffix(seg: Option<u64>) -> Seq<u8> {
    match seg {
        Option::None => seq![99u8, 111u8, 109u8, 112u8, 108u8, 101u8, 116u8, 101u8],
        Option::Some(n) => seq![115u8, 101u8, 103u8, 109u8, 101u8, 110u8, 116u8, 95u8]
            + dec_digits(n as int),
    }
}

/// The artifact name: variant prefix, underscore, set suffix.
pub open spec fn artifact_name(v: PatternVariant, seg: Option<u64>) -> Seq<u8> {
    variant_prefix(v) + seq![95u8] + set_suffix(seg)
}

/// Builds the deterministic artifact name for a variant and segment.
#[verifier::rlimit(100)]
pub fn pattern_artifact_name(v: PatternVariant, seg: Option<u64>) -> (r: Vec<u8>)
    requires
        seg matches Some(n) ==> 1 <= n <= 1000000,
    ensures
        r@ == artifact_name(v, seg),
{
    let mut out: Vec<u8> = Vec::new();
    match v {
        PatternVariant::Colorized => {
            append_bytes_cs(&mut out);
            out.push(95);
            out.push(99);
            out.push(111);
            out.push(108);
            out.push(111);
            out.push(114);
            out.push(105);
            out.push(122);
            out.push(101);
            out.push(100);
        },
        PatternVariant::BlackAndWhite => {
            append_bytes_cs(&mut out);
        },
        PatternVariant::ColorizedNoSymbols => {
            append_bytes_cs(&mut out);
            out.push(95);
            out.push(99);
            out.push(111);
            out.push(108);
            out.push(111);
            out.push(114);
            out.push(105);
            out.push(122);
            out.push(101);
            out.push(100);
            out.push(95);
            out.push(110);
            out.push(111);
            out.push(95);
            out.push(115);
            out.push(121);
            out.push(109);
            out.push(98);
            out.push(111);
            out.push(108);
            out.push(115);
        },
        PatternVariant::PaintByNumbers => {
            out.push(112);
            out.push(97);
            out.push(105);
            out.push(110);
            out.push(116);
            out.push(95);
            out.push(98);
            out.push(121);
            out.push(95);
            out.push(110);
            out.push(117);
            out.push(109);
            out.push(98);
            out.push(101);
            out.push(114);
            out.push(115);
        },
    }
    out.push(95);
    match seg {
        Option::None => {
            out.push(99);
            out.push(111);
            out.push(109);
            out.push(112);
            out.push(108);
            out.push(101);
            out.push(116);
            out.push(101);
        },
        Option::Some(n) => {
            out.push(115);
            out.push(101);
            out.push(103);
            out.push(109);
            out.push(101);
            out.push(110);
            out.push(116);
            out.push(95);
            let digits = int_to_dec(n as i64);
            let mut i: usize = 0;
            let len = digits.len();
            let ghost mid = out@;
            while i < len
                invariant
                    len == digits@.len(),
                    i <= len,
                    out@ == mid + digits@.take(i as int),
                decreases len - i,
            {
                let d = digits[i];
                out.push(d);
                proof {
                    assert(out@ =~= mid + digits@.take(i + 1));
                }
                i = i + 1;
            }
            proof {
                assert(digits@.take(len as int) =~= digits@);
                assert(n >= 0);
                assert(digits@ == dec_digits(n as int));
            }
        },
    }
    proof {
        assert(out@ =~= artifact_name(v, seg));
    }
    out
}

fn append_bytes_cs(out: &mut Vec<u8>)
    ensures
        final(out)@ == old(out)@ + seq![
            99u8, 114u8, 111u8, 115u8, 115u8, 95u8, 115u8, 116u8, 105u8, 116u8, 99u8, 104u8,
        ],
{
    out.push(99);
    out.push(114);
    out.push(111);
    out.push(115);
    out.push(115);
    out.push(95);
    out.push(115);
    out.push(116);
    out.push(105);
    out.push(116);
    out.push(99);
    out.push(104);
    proof {
        assert(out@ =~= old(out)@ + seq![
            99u8, 114u8, 111u8, 115u8, 115u8, 95u8, 115u8, 116u8, 105u8, 116u8, 99u8, 104u8,
        ]);
    }
}

/// `" Pattern Part {n} "` as bytes, the caption over an individual page.
pub open spec fn caption_text(n: int) -> Seq<u8> {
    seq![
        32u8, 80u8, 97u8, 116u8, 116u8, 101u8, 114u8, 110u8, 32u8, 80u8, 97u8, 114u8, 116u8,
        32u8,
    ] + dec_digits(n) + seq![32u8]
}

fn caption_text_exec(n: u64) -> (r: Vec<u8>)
    requires
        1 <= n <= 1000000,
    ensures
        r@ == caption_text(n as int),
        1 <= r@.len(),
{
    let mut v: Vec<u8> = Vec::new();
    v.push(32);
    v.push(80);
    v.push(97);
    v.push(116);
    v.push(116);
    v.push(101);
    v.push(114);
    v.push(110);
    v.push(32);
    v.push(80);
    v.push(97);
    v.push(114);
    v.push(116);
    v.push(32);
    let digits = int_to_dec(n as i64);
    let mut i: usize = 0;
    let len = digits.len();
    let ghost mid = v@;
    while i < len
        invariant
            len == digits@.len(),
            i <= len,
            v@ == mid + digits@.take(i as int),
        decreases len - i,
    {
        let d = digits[i];
        v.push(d);
        proof {
            assert(v@ =~= mid + digits@.take(i + 1));
        }
        i = i + 1;
    }
    v.push(32);
    proof {
        assert(digits@.take(len as int) =~= digits@);
        assert(digits@ == dec_digits(n as int));
        assert(v@ =~= caption_text(n as int));
    }
    v
}

/// The rendered pattern for one variant of one (sub)image: the grid
/// canvas with origin-edge padding, the coordinate labels when the
/// 10-grid is drawn, and the page caption when this is one page of many.
/// The canvas content sits at the stated offset and equals `edged_pixel`
/// of the inputs, pixel for pixel.
pub open spec fn is_pattern_canvas(
    r: PixelBuffer,
    image: PixelBuffer,
    mappings: Seq<ColorInfo>,
    font: Font,
    font_big: Font,
    variant: PatternVariant,
    seg: Option<u64>,
    x0: int,
    y0: int,
    thick: bool,
    origin_bars: bool,
    mask: Pixel,
) -> bool {
    let ew = 16 * image.w() + pad_l(origin_bars, x0) + pad_r(origin_bars, x0, image.w());
    let eh = 16 * image.h() + pad_t(origin_bars, y0) + pad_b(origin_bars, y0, image.h());
    let pad = if thick {
        label_pad(font, x0, y0, x0 + ew / 16, y0 + eh / 16)
    } else {
        0
    };
    let lw = ew + 2 * pad;
    let lh = eh + 2 * pad;
    let caph = if seg is Some {
        3 * font_big.gh()
    } else {
        0
    };
    let capw = if seg is Some {
        caption_text(seg.unwrap() as int).len() * font_big.gw()
    } else {
        0
    };
    let rw = max_int(capw, lw);
    let ox = (rw - lw) / 2;
    &&& r.w() == rw
    &&& r.h() == caph + lh
    &&& (seg matches Some(n) ==> forall|i: int, j: int|
        0 <= i < caption_text(n as int).len() * font_big.gw() && 0 <= j < font_big.gh()
            ==> #[trigger] r.pix((rw - caption_text(n as int).len() * font_big.gw()) / 2 + i,
            font_big.gh() + j,
        ) == crate::font::text_pixel(font_big, caption_text(n as int), 0, 0, i, j, white()))
    &&& forall|i: int, j: int|
        0 <= i < ew && 0 <= j < eh ==> #[trigger] r.pix(ox + pad + i, caph + pad + j)
            == edged_pixel(
            image,
            infos_palette(mappings),
            infos_symbols(mappings, variant_alphanum(variant)),
            variant_colorize(variant),
            variant_add_symbol(variant),
            mask,
            x0,
            y0,
            thick,
            origin_bars,
            i,
            j,
        )
}

/// Renders one pattern variant of one (sub)image: the per-cell canvas
/// with grids and origin bars, then coordinate labels when the 10-grid is
/// on, then the "Pattern Part N" caption when this is one page of many.
#[verifier::rlimit(60)]
pub fn create_cross_stitch_pattern(
    image: &PixelBuffer,
    font_grid_label: &Font,
    font_segment_indicator: &Font,
    color_mappings: &Vec<ColorInfo>,
    segment_index: Option<u64>,
    logical_first_x: i32,
    logical_first_y: i32,
    variant: PatternVariant,
    add_thick_ten_grid: bool,
    add_origin_grid_bars: bool,
    symbol_mask_color: Pixel,
) -> (r: PixelBuffer)
    requires
        image.wf(),
        1 <= image.w() <= 1900,
        1 <= image.h() <= 1900,
        font_grid_label.wf(),
        font_segment_indicator.wf(),
        -MAX_COORD <= logical_first_x <= MAX_COORD,
        -MAX_COORD <= logical_first_y <= MAX_COORD,
        symbols_wf(infos_symbols(color_mappings@, variant_alphanum(variant))),
        variant_add_symbol(variant) ==> palette_covers(
            *image,
            infos_palette(color_mappings@),
            infos_symbols(color_mappings@, variant_alphanum(variant)).len() as int,
        ),
        segment_index matches Some(n) ==> 1 <= n <= 1000000,
    ensures
        r.wf(),
        is_pattern_canvas(
            r,
            *image,
            color_mappings@,
            *font_grid_label,
            *font_segment_indicator,
            variant,
            segment_index,
            logical_first_x as int,
            logical_first_y as int,
            add_thick_ten_grid,
            add_origin_grid_bars,
            symbol_mask_color,
        ),
{
    let colorize = match variant {
        PatternVariant::Colorized => true,
        PatternVariant::ColorizedNoSymbols => true,
        _ => false,
    };
    let add_symbol = match variant {
        PatternVariant::ColorizedNoSymbols => false,
        _ => true,
    };
    let use_alphanum = match variant {
        PatternVariant::PaintByNumbers => true,
        _ => false,
    };
    let canvas = render_pattern_canvas(
        image,
        color_mappings,
        use_alphanum,
        colorize,
        add_symbol,
        symbol_mask_color,
        logical_first_x,
        logical_first_y,
        add_thick_ten_grid,
        add_origin_grid_bars,
    );
    proof {
        lemma_label_pad_bound(
            *font_grid_label,
            logical_first_x as int,
            logical_first_y as int,
            logical_first_x + canvas.w() / 16,
            logical_first_y + canvas.h() / 16,
        );
    }
    let labeled = if add_thick_ten_grid {
        place_grid_labels_in_pattern(
            &canvas,
            16,
            font_grid_label,
            logical_first_x,
            logical_first_y,
        )
    } else {
        canvas
    };
    proof {
        let x0 = logical_first_x as int;
        let y0 = logical_first_y as int;
        let ew = 16 * image.w() + pad_l(add_origin_grid_bars, x0) + pad_r(
            add_origin_grid_bars,
            x0,
            image.w(),
        );
        let eh = 16 * image.h() + pad_t(add_origin_grid_bars, y0) + pad_b(
            add_origin_grid_bars,
            y0,
            image.h(),
        );
        let pad = if add_thick_ten_grid {
            label_pad(*font_grid_label, x0, y0, x0 + ew / 16, y0 + eh / 16)
        } else {
            0
        };
        assert(canvas.w() == ew && canvas.h() == eh);
        assert forall|i: int, j: int| 0 <= i < ew && 0 <= j < eh implies #[trigger] labeled.pix(
            pad + i,
            pad + j,
        ) == edged_pixel(
            *image,
            infos_palette(color_mappings@),
            infos_symbols(color_mappings@, variant_alphanum(variant)),
            variant_colorize(variant),
            variant_add_symbol(variant),
            symbol_mask_color,
            x0,
            y0,
            add_thick_ten_grid,
            add_origin_grid_bars,
            i,
            j,
        ) by {
            assert(canvas.pix(i, j) == edged_pixel(
                *image,
                infos_palette(color_mappings@),
                infos_symbols(color_mappings@, variant_alphanum(variant)),
                variant_colorize(variant),
                variant_add_symbol(variant),
                symbol_mask_color,
                x0,
                y0,
                add_thick_ten_grid,
                add_origin_grid_bars,
                i,
                j,
            ));
            if add_thick_ten_grid {
                assert(labeled.pix(pad + i, pad + j) == canvas.pix(i, j));
            }
        }
        assert(labeled.w() == ew + 2 * pad && labeled.h() == eh + 2 * pad);
    }
    match segment_index {
        Option::None => {
            proof {
                let x0 = logical_first_x as int;
                let y0 = logical_first_y as int;
                let ew = 16 * image.w() + pad_l(add_origin_grid_bars, x0) + pad_r(
                    add_origin_grid_bars,
                    x0,
                    image.w(),
                );
                let eh = 16 * image.h() + pad_t(add_origin_grid_bars, y0) + pad_b(
                    add_origin_grid_bars,
                    y0,
                    image.h(),
                );
                let pad = if add_thick_ten_grid {
                    label_pad(*font_grid_label, x0, y0, x0 + ew / 16, y0 + eh / 16)
                } else {
                    0
                };
                let lw = ew + 2 * pad;
                let rw = max_int(0, lw);
                let ox = (rw - lw) / 2;
                assert(ox == 0);
                assert forall|i: int, j: int|
                    0 <= i < ew && 0 <= j < eh implies #[trigger] labeled.pix(
                    ox + pad + i,
                    0 + pad + j,
                ) == edged_pixel(
                    *image,
                    infos_palette(color_mappings@),
                    infos_symbols(color_mappings@, variant_alphanum(variant)),
                    variant_colorize(variant),
                    variant_add_symbol(variant),
                    symbol_mask_color,
                    x0,
                    y0,
                    add_thick_ten_grid,
                    add_origin_grid_bars,
                    i,
                    j,
                ) by {
                    assert(labeled.pix(pad + i, pad + j) == edged_pixel(
                        *image,
                        infos_palette(color_mappings@),
                        infos_symbols(color_mappings@, variant_alphanum(variant)),
                        variant_colorize(variant),
                        variant_add_symbol(variant),
                        symbol_mask_color,
                        x0,
                        y0,
                        add_thick_ten_grid,
                        add_origin_grid_bars,
                        i,
                        j,
                    ));
                    assert(ox + pad + i == pad + i && 0 + pad + j == pad + j);
                }
            }
            labeled
        },
        Option::Some(n) => {
            let text = caption_text_exec(n);
            proof {
                lemma_dec_digits_len(n as int);
            }
            let cap = create_text_bitmap(font_segment_indicator, &text, Pixel::new(
                255,
                255,
                255,
                255,
            ));
            let gh_big = font_segment_indicator.glyph_height();
            let cap_padded = cap.extended(0, gh_big, 0, gh_big, Pixel::new(255, 255, 255, 255));
            let r = glue_vertical(&cap_padded, &labeled, HAlign::Center, 0, Pixel::new(
                255,
                255,
                255,
                255,
            ));
            proof {
                let x0 = logical_first_x as int;
                let y0 = logical_first_y as int;
                let ew = 16 * image.w() + pad_l(add_origin_grid_bars, x0) + pad_r(
                    add_origin_grid_bars,
                    x0,
                    image.w(),
                );
                let eh = 16 * image.h() + pad_t(add_origin_grid_bars, y0) + pad_b(
                    add_origin_grid_bars,
                    y0,
                    image.h(),
                );
                let pad = if add_thick_ten_grid {
                    label_pad(*font_grid_label, x0, y0, x0 + ew / 16, y0 + eh / 16)
                } else {
                    0
                };
                let lw = ew + 2 * pad;
                let caph = 3 * font_segment_indicator.gh();
                let capw = caption_text(n as int).len() * font_segment_indicator.gw();
                let rw = max_int(capw, lw);
                let ox = (rw - lw) / 2;
                assert(cap_padded.w() == capw && cap_padded.h() == caph);
                assert(r.w() == rw && r.h() == caph + (eh + 2 * pad));
                assert forall|i: int, j: int|
                    0 <= i < caption_text(n as int).len() * font_segment_indicator.gw() && 0 <= j
                    < font_segment_indicator.gh() implies #[trigger] r.pix(
                    (rw - caption_text(n as int).len() * font_segment_indicator.gw()) / 2 + i,
                    font_segment_indicator.gh() + j,
                ) == crate::font::text_pixel(
                    *font_segment_indicator,
                    caption_text(n as int),
                    0,
                    0,
                    i,
                    j,
                    white(),
                ) by {
                    let gho = font_segment_indicator.gh();
                    let cox = (rw - capw) / 2;
                    assert(cap.pix(i, j) == crate::font::text_pixel(
                        *font_segment_indicator,
                        text@,
                        0,
                        0,
                        i,
                        j,
                        white(),
                    ));
                    assert(cap_padded.pix(i, gho + j) == cap.pix(i, j));
                    assert(0 <= cox + i < r.w() && 0 <= gho + j < r.h());
                    assert(r.pix(cox + i, gho + j) == cap_padded.pix(i, gho + j));
                }
                assert forall|i: int, j: int|
                    0 <= i < ew && 0 <= j < eh implies #[trigger] r.pix(
                    ox + pad + i,
                    caph + pad + j,
                ) == edged_pixel(
                    *image,
                    infos_palette(color_mappings@),
                    infos_symbols(color_mappings@, variant_alphanum(variant)),
                    variant_colorize(variant),
                    variant_add_symbol(variant),
                    symbol_mask_color,
                    x0,
                    y0,
                    add_thick_ten_grid,
                    add_origin_grid_bars,
                    i,
                    j,
                ) by {
                    assert(labeled.pix(pad + i, pad + j) == edged_pixel(
                        *image,
                        infos_palette(color_mappings@),
                        infos_symbols(color_mappings@, variant_alphanum(variant)),
                        variant_colorize(variant),
                        variant_add_symbol(variant),
                        symbol_mask_color,
                        x0,
                        y0,
                        add_thick_ten_grid,
                        add_origin_grid_bars,
                        i,
                        j,
                    ));
                    assert(0 <= ox + pad + i < r.w() && 0 <= caph + pad + j < r.h());
                    assert(r.pix(ox + pad + i, caph + pad + j) == labeled.pix(pad + i, pad + j));
                }
            }
            r
        },
    }
}

/// Renders the full variant set for one (sub)image: colorized,
/// black-and-white and colorized-without-symbols always, paint-by-numbers
/// when asked for (the complete, unsegmented set). All variants of the
/// first three carry the 10-grid; paint-by-numbers carries neither the
/// 10-grid nor origin bars and stamps with a transparent mask.
pub fn create_cross_stitch_pattern_set(
    image: &PixelBuffer,
    font_grid_label: &Font,
    font_segment_indicator: &Font,
    color_mappings: &Vec<ColorInfo>,
    segment_index: Option<u64>,
    logical_first_x: i32,
    logical_first_y: i32,
    create_paint_by_number_set: bool,
    add_origin_grid_bars: bool,
) -> (r: Vec<PatternArtifact>)
    requires
        image.wf(),
        1 <= image.w() <= 1900,
        1 <= image.h() <= 1900,
        font_grid_label.wf(),
        font_segment_indicator.wf(),
        -MAX_COORD <= logical_first_x <= MAX_COORD,
        -MAX_COORD <= logical_first_y <= MAX_COORD,
        symbols_wf(infos_symbols(color_mappings@, false)),
        palette_covers(
            *image,
            infos_palette(color_mappings@),
            infos_symbols(color_mappings@, false).len() as int,
        ),
        create_paint_by_number_set ==> symbols_wf(infos_symbols(color_mappings@, true))
            && palette_covers(
            *image,
            infos_palette(color_mappings@),
            infos_symbols(color_mappings@, true).len() as int,
        ),
        segment_index matches Some(n) ==> 1 <= n <= 1000000,
    ensures
        r@.len() == if create_paint_by_number_set {
            4int
        } else {
            3int
        },
        set_artifact_ok(
            r@[0],
            *image,
            color_mappings@,
            *font_grid_label,
            *font_segment_indicator,
            PatternVariant::Colorized,
            segment_index,
            logical_first_x as int,
            logical_first_y as int,
            true,
            add_origin_grid_bars,
            crate::pixel::white(),
        ),
        set_artifact_ok(
            r@[1],
            *image,
            color_mappings@,
            *font_grid_label,
            *font_segment_indicator,
            PatternVariant::BlackAndWhite,
            segment_index,
            logical_first_x as int,
            logical_first_y as int,
            true,
            add_origin_grid_bars,
            crate::pixel::white(),
        ),
        set_artifact_ok(
            r@[2],
            *image,
            color_mappings@,
            *font_grid_label,
            *font_segment_indicator,
            PatternVariant::ColorizedNoSymbols,
            segment_index,
            logical_first_x as int,
            logical_first_y as int,
            true,
            add_origin_grid_bars,
            crate::pixel::white(),
        ),
        create_paint_by_number_set ==> set_artifact_ok(
            r@[3],
            *image,
            color_mappings@,
            *font_grid_label,
            *font_segment_indicator,
            PatternVariant::PaintByNumbers,
            segment_index,
            logical_first_x as int,
            logical_first_y as int,
            false,
            false,
            crate::pixel::transparent(),
        ),
{
    let mut r: Vec<PatternArtifact> = Vec::new();
    let a0 = PatternArtifact {
        name: pattern_artifact_name(PatternVariant::Colorized, segment_index),
        image: create_cross_stitch_pattern(
            image,
            font_grid_label,
            font_segment_indicator,
            color_mappings,
            segment_index,
            logical_first_x,
            logical_first_y,
            PatternVariant::Colorized,
            true,
            add_origin_grid_bars,
            Pixel::new(255, 255, 255, 255),
        ),
    };
    r.push(a0);
    let a1 = PatternArtifact {
        name: pattern_artifact_name(PatternVariant::BlackAndWhite, segment_index),
        image: create_cross_stitch_pattern(
            image,
            font_grid_label,
            font_segment_indicator,
            color_mappings,
            segment_index,
            logical_first_x,
            logical_first_y,
            PatternVariant::BlackAndWhite,
            true,
            add_origin_grid_bars,
            Pixel::new(255, 255, 255, 255),
        ),
    };
    r.push(a1);
    let a2 = PatternArtifact {
        name: pattern_artifact_name(PatternVariant::ColorizedNoSymbols, segment_index),
        image: create_cross_stitch_pattern(
            image,
            font_grid_label,
            font_segment_indicator,
            color_mappings,
            segment_index,
            logical_first_x,
            logical_first_y,
            PatternVariant::ColorizedNoSymbols,
            true,
            add_origin_grid_bars,
            Pixel::new(255, 255, 255, 255),
        ),
    };
    r.push(a2);
    if create_paint_by_number_set {
        let a3 = PatternArtifact {
            name: pattern_artifact_name(PatternVariant::PaintByNumbers, segment_index),
            image: create_cross_stitch_pattern(
                image,
                font_grid_label,
                font_segment_indicator,
                color_mappings,
                segment_index,
                logical_first_x,
                logical_first_y,
                PatternVariant::PaintByNumbers,
                false,
                false,
                Pixel::new(0, 0, 0, 0),
            ),
        };
        r.push(a3);
    }
    r
}

/// One artifact of a pattern set: the deterministic name and a canvas
/// that satisfies the pattern predicate for its variant.
pub open spec fn set_artifact_ok(
    a: PatternArtifact,
    image: PixelBuffer,
    mappings: Seq<ColorInfo>,
    font: Font,
    font_big: Font,
    variant: PatternVariant,
    seg: Option<u64>,
    x0: int,
    y0: int,
    thick: bool,
    origin_bars: bool,
    mask: Pixel,
) -> bool {
    &&& a.name@ == artifact_name(variant, seg)
    &&& a.image.wf()
    &&& is_pattern_canvas(
        a.image,
        image,
        mappings,
        font,
        font_big,
        variant,
        seg,
        x0,
        y0,
        thick,
        origin_bars,
        mask,
    )
}

} // verus!
