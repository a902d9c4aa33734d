use vstd::prelude::*;

use crate::blend::apply_map;
use crate::blend::blend_spec;
use crate::blend::BlendMode;
use crate::blend::PixelMap;
use crate::buffer::in_rect;
use crate::buffer::PixelBuffer;
use crate::canvas::infos_palette;
use crate::canvas::infos_symbols;
use crate::canvas::palette_covers;
use crate::canvas::symbols_wf;
use crate::canvas::PatternVariant;
use crate::font::Font;
use crate::legend::create_cross_stitch_legend;
use crate::palette::find_color;
use crate::patterns::create_cross_stitch_pattern_set;
use crate::patterns::set_artifact_ok;
use crate::patterns::PatternArtifact;
use crate::pixel::transparent;
use crate::pixel::white;
use crate::pixel::Pixel;
use crate::preview::bg_layer_pixel;
use crate::preview::render_background_layer;
use crate::preview::render_stitch_layer;
use crate::preview::stitch_layer_pixel;
use crate::preview::stitches_ok;
use crate::segments::ceil_div;
use crate::segments::lemma_ceil_div;
use crate::segments::min_int;
use crate::segments::to_segments;
use crate::symbols::ColorInfo;

verus! {

/// Pages are at most this many cells wide and tall.
pub const SPLIT_SEGMENT_WIDTH: usize = 60;

pub const SPLIT_SEGMENT_HEIGHT: usize = 80;

/// The fixed seed for the stitched preview's texture choices.
pub const PREVIEW_SEED: u64 = 1234;

/// The legend and every pattern page of one output directory.
pub struct PatternOutputs {
    pub legend: PixelBuffer,
    pub artifacts: Vec<PatternArtifact>,
}

/// `seg` is page `k` of `image` under the fixed page size.
pub open spec fn is_segment_of(seg: PixelBuffer, image: PixelBuffer, k: int) -> bool {
    let cols = ceil_div(image.w(), 60);
    let col = k % cols;
    let row = k / cols;
    &&& seg.wf()
    &&& seg.w() == min_int(60, image.w() - col * 60)
    &&& seg.h() == min_int(80, image.h() - row * 80)
    &&& forall|i: int, j: int|
        0 <= i < seg.w() && 0 <= j < seg.h() ==> #[trigger] seg.pix(i, j) == image.pix(
            col * 60 + i,
            row * 80 + j,
        )
}

/// The artifact list of one pattern directory: the complete four-variant
/// set at the front, then three variants per page when the image spans
/// more than one page.
pub open spec fn dir_artifacts_ok(
    arts: Seq<PatternArtifact>,
    segs: Seq<PixelBuffer>,
    image: PixelBuffer,
    mappings: Seq<ColorInfo>,
    font: Font,
    font_big: Font,
    x0: int,
    y0: int,
    origin_bars: bool,
) -> bool {
    let cols = ceil_div(image.w(), 60);
    let rows = ceil_div(image.h(), 80);
    let nsegs = cols * rows;
    &&& arts.len() == 4 + if nsegs > 1 {
        3 * nsegs
    } else {
        0
    }
    &&& set_artifact_ok(
        arts[0],
        image,
        mappings,
        font,
        font_big,
        PatternVariant::Colorized,
        Option::None,
        x0,
        y0,
        true,
        origin_bars,
        white(),
    )
    &&& set_artifact_ok(
        arts[1],
        image,
        mappings,
        font,
        font_big,
        PatternVariant::BlackAndWhite,
        Option::None,
        x0,
        y0,
        true,
        origin_bars,
        white(),
    )
    &&& set_artifact_ok(
        arts[2],
        image,
        mappings,
        font,
        font_big,
        PatternVariant::ColorizedNoSymbols,
        Option::None,
        x0,
        y0,
        true,
        origin_bars,
        white(),
    )
    &&& set_artifact_ok(
        arts[3],
        image,
        mappings,
        font,
        font_big,
        PatternVariant::PaintByNumbers,
        Option::None,
        x0,
        y0,
        false,
        false,
        transparent(),
    )
    &&& nsegs > 1 ==> segs.len() == nsegs
    &&& nsegs > 1 ==> forall|s: int| 0 <= s < nsegs ==> is_segment_of(#[trigger] segs[s], image, s)
    &&& nsegs > 1 ==> forall|s: int, v: int|
        0 <= s < nsegs && 0 <= v < 3 ==> set_artifact_ok(
            #[trigger] arts[4 + 3 * s + v],
            segs[s],
            mappings,
            font,
            font_big,
            seg_variant(v),
            Option::Some((s + 1) as u64),
            60 * (s % ceil_div(image.w(), 60)) + x0,
            80 * (s / ceil_div(image.w(), 60)) + y0,
            true,
            origin_bars,
            white(),
        )
}

/// The three per-page variants, in output order.
pub open spec fn seg_variant(v: int) -> PatternVariant {
    if v == 0 {
        PatternVariant::Colorized
    } else if v == 1 {
        PatternVariant::BlackAndWhite
    } else {
        PatternVariant::ColorizedNoSymbols
    }
}

/// Renders everything a pattern directory holds, with the logical origin
/// at the image's top-left corner or, for the centered mode, at its
/// geometric center with origin bars drawn.
fn patterns_dir_output(
    image: &PixelBuffer,
    font: &Font,
    font_big: &Font,
    color_mappings: &Vec<ColorInfo>,
    centered: bool,
) -> (r: PatternOutputs)
    requires
        image.wf(),
        1 <= image.w() <= 1900,
        1 <= image.h() <= 1900,
        font.wf(),
        font_big.wf(),
        color_mappings@.len() <= 90,
        forall|k: int|
            0 <= k < color_mappings@.len() ==> (#[trigger] color_mappings@[k]).count <= 1000000000,
        symbols_wf(infos_symbols(color_mappings@, false)),
        symbols_wf(infos_symbols(color_mappings@, true)),
        palette_covers(
            *image,
            infos_palette(color_mappings@),
            infos_symbols(color_mappings@, false).len() as int,
        ),
        palette_covers(
            *image,
            infos_palette(color_mappings@),
            infos_symbols(color_mappings@, true).len() as int,
        ),
    ensures
        r.legend.wf(),
        !centered ==> exists|segs: Seq<PixelBuffer>|
            #[trigger] dir_artifacts_ok(
                r.artifacts@,
                segs,
                *image,
                color_mappings@,
                *font,
                *font_big,
                0,
                0,
                false,
            ),
        centered ==> exists|segs: Seq<PixelBuffer>|
            #[trigger] dir_artifacts_ok(
                r.artifacts@,
                segs,
                *image,
                color_mappings@,
                *font,
                *font_big,
                -((image.w() + 1) / 2),
                -((image.h() + 1) / 2),
                true,
            ),
{
    let w = image.width();
    let h = image.height();
    let x0: i32 = if centered {
        -(((w + 1) / 2) as i32)
    } else {
        0
    };
    let y0: i32 = if centered {
        -(((h + 1) / 2) as i32)
    } else {
        0
    };
    let (segs, coords) = to_segments(image, SPLIT_SEGMENT_WIDTH, SPLIT_SEGMENT_HEIGHT);
    proof {
        lemma_ceil_div(w as int, 60);
        lemma_ceil_div(h as int, 80);
        assert(ceil_div(w as int, 60) <= 32 && ceil_div(h as int, 80) <= 24) by (nonlinear_arith)
            requires
                ceil_div(w as int, 60) == (w + 59) / 60,
                ceil_div(h as int, 80) == (h + 79) / 80,
                1 <= w <= 1900,
                1 <= h <= 1900,
        ;
        assert forall|k: int| 0 <= k < coords@.len() implies (#[trigger] coords@[k]).0 <= 40
            && coords@[k].1 <= 40 by {
            let cols = ceil_div(w as int, 60);
            let rows = ceil_div(h as int, 80);
            assert(coords@[k].0 == k % cols && coords@[k].1 == k / cols);
            vstd::arithmetic::div_mod::lemma_mod_bound(k, cols);
            let krow = k / cols;
            assert(0 <= krow < rows) by (nonlinear_arith)
                requires
                    krow == k / cols,
                    0 <= k < cols * rows,
                    1 <= cols,
            ;
            assert(k % cols <= 40 && k / cols <= 40);
        }
        assert(coords@.len() <= 1000) by (nonlinear_arith)
            requires
                coords@.len() == ceil_div(w as int, 60) * ceil_div(h as int, 80),
                1 <= ceil_div(w as int, 60) <= 32,
                1 <= ceil_div(h as int, 80) <= 24,
        ;
        assert forall|k1: int, k2: int|
            0 <= k1 < k2 < coords@.len() implies #[trigger] coords@[k1]
            != #[trigger] coords@[k2] by {
            let cols = ceil_div(w as int, 60);
            assert(coords@[k1].0 == k1 % cols && coords@[k1].1 == k1 / cols);
            assert(coords@[k2].0 == k2 % cols && coords@[k2].1 == k2 / cols);
            if coords@[k1] == coords@[k2] {
                vstd::arithmetic::div_mod::lemma_fundamental_div_mod(k1, cols);
                vstd::arithmetic::div_mod::lemma_fundamental_div_mod(k2, cols);
                assert(cols * (k1 / cols) == cols * (k2 / cols));
                assert(k1 == k2);
            }
        }
    }
    proof {
        assert forall|k: int|
            0 <= k < color_mappings@.len() implies (#[trigger] color_mappings@[k]).symbol.wf()
            && color_mappings@[k].symbol.w() == 16 && color_mappings@[k].symbol.h() == 16 by {
            assert(infos_symbols(color_mappings@, false)[k] == color_mappings@[k].symbol);
        }
    }
    let legend = create_cross_stitch_legend(w, h, color_mappings, font, &coords);
    let mut artifacts = create_cross_stitch_pattern_set(
        image,
        font,
        font_big,
        color_mappings,
        Option::None,
        x0,
        y0,
        true,
        centered,
    );
    let nsegs = segs.len();
    proof {
        assert forall|k: int| 0 <= k < segs@.len() implies is_segment_of(
            #[trigger] segs@[k],
            *image,
            k,
        ) by {
            assert(segs@[k].wf());
        }
    }
    if nsegs > 1 {
        let ghost complete = artifacts@;
        let cols: usize = (w + SPLIT_SEGMENT_WIDTH - 1) / SPLIT_SEGMENT_WIDTH;
        let mut s: usize = 0;
        while s < nsegs
            invariant
                image.wf(),
                1 <= image.w() <= 1900,
                1 <= image.h() <= 1900,
                font.wf(),
                font_big.wf(),
                symbols_wf(infos_symbols(color_mappings@, false)),
                palette_covers(
                    *image,
                    infos_palette(color_mappings@),
                    infos_symbols(color_mappings@, false).len() as int,
                ),
                w == image.w(),
                h == image.h(),
                x0 == if centered {
                    -((image.w() + 1) / 2)
                } else {
                    0
                },
                y0 == if centered {
                    -((image.h() + 1) / 2)
                } else {
                    0
                },
                cols == ceil_div(image.w(), 60),
                1 <= cols <= 32,
                nsegs == segs@.len(),
                nsegs == ceil_div(image.w(), 60) * ceil_div(image.h(), 80),
                1 < nsegs <= 1000,
                forall|k: int|
                    0 <= k < nsegs ==> is_segment_of(#[trigger] segs@[k], *image, k),
                s <= nsegs,
                artifacts@.len() == 4 + 3 * s,
                forall|t: int| 0 <= t < 4 ==> artifacts@[t] == complete[t],
                forall|t: int, v: int|
                    0 <= t < s && 0 <= v < 3 ==> set_artifact_ok(
                        #[trigger] artifacts@[4 + 3 * t + v],
                        segs@[t],
                        color_mappings@,
                        *font,
                        *font_big,
                        seg_variant(v),
                        Option::Some((t + 1) as u64),
                        60 * (t % ceil_div(image.w(), 60)) + x0,
                        80 * (t / ceil_div(image.w(), 60)) + y0,
                        true,
                        centered,
                        white(),
                    ),
            decreases nsegs - s,
        {
            let seg_image = &segs[s];
            proof {
                assert(is_segment_of(segs@[s as int], *image, s as int));
                let colsg = ceil_div(image.w(), 60);
                let rowsg = ceil_div(image.h(), 80);
                let col = (s as int) % colsg;
                let row = (s as int) / colsg;
                vstd::arithmetic::div_mod::lemma_mod_bound(s as int, colsg);
                assert(0 <= row < rowsg) by (nonlinear_arith)
                    requires
                        row == (s as int) / colsg,
                        0 <= s < colsg * rowsg,
                        1 <= colsg,
                ;
                assert(col * 60 <= (colsg - 1) * 60 && (colsg - 1) * 60 < image.w())
                    by (nonlinear_arith)
                    requires
                        0 <= col <= colsg - 1,
                        (ceil_div(image.w(), 60) - 1) * 60 < image.w(),
                        colsg == ceil_div(image.w(), 60),
                ;
                assert(row * 80 <= (rowsg - 1) * 80 && (rowsg - 1) * 80 < image.h())
                    by (nonlinear_arith)
                    requires
                        0 <= row <= rowsg - 1,
                        (ceil_div(image.h(), 80) - 1) * 80 < image.h(),
                        rowsg == ceil_div(image.h(), 80),
                ;
                assert(1 <= seg_image.w() <= 60 && 1 <= seg_image.h() <= 80);
                assert forall|x: int, y: int|
                    0 <= x < seg_image.w() && 0 <= y < seg_image.h() && (#[trigger] seg_image.pix(
                        x,
                        y,
                    )).a != 0 implies 0 <= find_color(
                    infos_palette(color_mappings@),
                    seg_image.pix(x, y),
                ) < infos_symbols(color_mappings@, false).len() by {
                    assert(seg_image.pix(x, y) == image.pix(col * 60 + x, row * 80 + y));
                }
            }
            let col_i: usize = s % cols;
            let row_i: usize = s / cols;
            let sx0: i64 = 60 * (col_i as i64) + (x0 as i64);
            let sy0: i64 = 80 * (row_i as i64) + (y0 as i64);
            proof {
                assert(0 <= 60 * (col_i as int) <= 60 * 31 && 0 <= 80 * (row_i as int) <= 80 * 23)
                    by (nonlinear_arith)
                    requires
                        0 <= col_i <= 31,
                        0 <= row_i <= 23,
                ;
            }
            let set = create_cross_stitch_pattern_set(
                seg_image,
                font,
                font_big,
                color_mappings,
                Option::Some((s + 1) as u64),
                sx0 as i32,
                sy0 as i32,
                false,
                centered,
            );
            let ghost before = artifacts@;
            let (s0, s1, s2) = vec3_of(set);
            artifacts.push(s0);
            artifacts.push(s1);
            artifacts.push(s2);
            proof {
                assert forall|t: int, v: int|
                    0 <= t < s + 1 && 0 <= v < 3 implies set_artifact_ok(
                    #[trigger] artifacts@[4 + 3 * t + v],
                    segs@[t],
                    color_mappings@,
                    *font,
                    *font_big,
                    seg_variant(v),
                    Option::Some((t + 1) as u64),
                    60 * (t % ceil_div(image.w(), 60)) + x0,
                    80 * (t / ceil_div(image.w(), 60)) + y0,
                    true,
                    centered,
                    white(),
                ) by {
                    if t < s {
                        assert(artifacts@[4 + 3 * t + v] == before[4 + 3 * t + v]);
                    } else {
                        assert(artifacts@[4 + 3 * t + v] == if v == 0 {
                            artifacts@[artifacts@.len() - 3]
                        } else if v == 1 {
                            artifacts@[artifacts@.len() - 2]
                        } else {
                            artifacts@[artifacts@.len() - 1]
                        });
                    }
                }
            }
            s = s + 1;
        }
        proof {
            assert forall|t: int, v: int|
                0 <= t < nsegs && 0 <= v < 3 implies exists|seg: PixelBuffer|
                is_segment_of(seg, *image, t) && set_artifact_ok(
                    #[trigger] artifacts@[4 + 3 * t + v],
                    seg,
                    color_mappings@,
                    *font,
                    *font_big,
                    seg_variant(v),
                    Option::Some((t + 1) as u64),
                    60 * (t % ceil_div(image.w(), 60)) + x0,
                    80 * (t / ceil_div(image.w(), 60)) + y0,
                    true,
                    centered,
                    white(),
                ) by {
                let seg0 = segs@[t];
                assert(is_segment_of(seg0, *image, t) && set_artifact_ok(
                    artifacts@[4 + 3 * t + v],
                    seg0,
                    color_mappings@,
                    *font,
                    *font_big,
                    seg_variant(v),
                    Option::Some((t + 1) as u64),
                    60 * (t % ceil_div(image.w(), 60)) + x0,
                    80 * (t / ceil_div(image.w(), 60)) + y0,
                    true,
                    centered,
                    white(),
                ));
            }
        }
    }
    proof {
        let gx0 = if centered {
            -((image.w() + 1) / 2)
        } else {
            0int
        };
        let gy0 = if centered {
            -((image.h() + 1) / 2)
        } else {
            0int
        };
        assert(x0 as int == gx0 && y0 as int == gy0);
        assert(nsegs == ceil_div(image.w(), 60) * ceil_div(image.h(), 80));
        assert(artifacts@.len() == 4 + if nsegs > 1 {
            3 * (nsegs as int)
        } else {
            0int
        });
        assert(set_artifact_ok(
            artifacts@[0],
            *image,
            color_mappings@,
            *font,
            *font_big,
            PatternVariant::Colorized,
            Option::None,
            gx0,
            gy0,
            true,
            centered,
            white(),
        ));
        assert(set_artifact_ok(
            artifacts@[1],
            *image,
            color_mappings@,
            *font,
            *font_big,
            PatternVariant::BlackAndWhite,
            Option::None,
            gx0,
            gy0,
            true,
            centered,
            white(),
        ));
        assert(set_artifact_ok(
            artifacts@[2],
            *image,
            color_mappings@,
            *font,
            *font_big,
            PatternVariant::ColorizedNoSymbols,
            Option::None,
            gx0,
            gy0,
            true,
            centered,
            white(),
        ));
        assert(set_artifact_ok(
            artifacts@[3],
            *image,
            color_mappings@,
            *font,
            *font_big,
            PatternVariant::PaintByNumbers,
            Option::None,
            gx0,
            gy0,
            false,
            false,
            transparent(),
        ));
        if nsegs > 1 {
            assert forall|s2: int, v: int|
                0 <= s2 < nsegs && 0 <= v < 3 implies set_artifact_ok(
                #[trigger] artifacts@[4 + 3 * s2 + v],
                segs@[s2],
                color_mappings@,
                *font,
                *font_big,
                seg_variant(v),
                Option::Some((s2 + 1) as u64),
                60 * (s2 % ceil_div(image.w(), 60)) + gx0,
                80 * (s2 / ceil_div(image.w(), 60)) + gy0,
                true,
                centered,
                white(),
            ) by {
                assert(set_artifact_ok(
                    artifacts@[4 + 3 * s2 + v],
                    segs@[s2],
                    color_mappings@,
                    *font,
                    *font_big,
                    seg_variant(v),
                    Option::Some((s2 + 1) as u64),
                    60 * (s2 % ceil_div(image.w(), 60)) + x0,
                    80 * (s2 / ceil_div(image.w(), 60)) + y0,
                    true,
                    centered,
                    white(),
                ));
                assert(60 * (s2 % ceil_div(image.w(), 60)) + x0 == 60 * (s2 % ceil_div(
                    image.w(),
                    60,
                )) + gx0);
                assert(80 * (s2 / ceil_div(image.w(), 60)) + y0 == 80 * (s2 / ceil_div(
                    image.w(),
                    60,
                )) + gy0);
            }
        }
        assert(dir_artifacts_ok(
            artifacts@,
            segs@,
            *image,
            color_mappings@,
            *font,
            *font_big,
            gx0,
            gy0,
            centered,
        ));
    }
    let ghost arts_v = artifacts@;
    let out = PatternOutputs { legend, artifacts };
    proof {
        assert(out.artifacts@ == arts_v);
        if centered {
            assert(dir_artifacts_ok(
                out.artifacts@,
                segs@,
                *image,
                color_mappings@,
                *font,
                *font_big,
                -((image.w() + 1) / 2),
                -((image.h() + 1) / 2),
                true,
            ));
        } else {
            assert(dir_artifacts_ok(
                out.artifacts@,
                segs@,
                *image,
                color_mappings@,
                *font,
                *font_big,
                0,
                0,
                false,
            ));
        }
    }
    out
}

/// The three preview images.
pub struct PreviewSet {
    pub background: PixelBuffer,
    pub stitches: PixelBuffer,
    pub combined: PixelBuffer,
}

/// `ext` is `image` inside a ten pixel transparent border.
pub open spec fn is_extended10(ext: PixelBuffer, image: PixelBuffer) -> bool {
    &&& ext.wf()
    &&& ext.w() == image.w() + 20
    &&& ext.h() == image.h() + 20
    &&& forall|i: int, j: int|
        0 <= i < ext.w() && 0 <= j < ext.h() ==> #[trigger] ext.pix(i, j) == (if in_rect(
            i,
            j,
            10,
            10,
            image.w(),
            image.h(),
        ) {
            image.pix(i - 10, j - 10)
        } else {
            transparent()
        })
}

/// The witnesses tying a preview set to its inputs: the padded canvas and
/// the premultiplied stitch layer from which the three outputs follow,
/// pixel for pixel.
pub open spec fn preview_witness(
    ext: PixelBuffer,
    layer: PixelBuffer,
    bgout: PixelBuffer,
    stout: PixelBuffer,
    cmb: PixelBuffer,
    image: PixelBuffer,
    mappings: Seq<ColorInfo>,
    bg: PixelBuffer,
    nstitch: int,
) -> bool {
    let tw = bg.w() / 8;
    let th = bg.h() / 8;
    &&& is_extended10(ext, image)
    &&& bgout.wf()
    &&& bgout.w() == tw * ext.w()
    &&& bgout.h() == th * ext.h()
    &&& forall|i: int, j: int|
        0 <= i < bgout.w() && 0 <= j < bgout.h() ==> #[trigger] bgout.pix(i, j) == bg_layer_pixel(
            bg,
            ext.w(),
            ext.h(),
            i,
            j,
        )
    &&& layer.wf()
    &&& layer.w() == tw * ext.w()
    &&& layer.h() == th * ext.h()
    &&& forall|i: int, j: int|
        0 <= i < layer.w() && 0 <= j < layer.h() ==> #[trigger] layer.pix(i, j)
            == stitch_layer_pixel(
            ext,
            mappings,
            PREVIEW_SEED,
            nstitch,
            tw,
            th,
            ext.w() * ext.h(),
            i,
            j,
        )
    &&& stout.wf()
    &&& stout.w() == layer.w()
    &&& stout.h() == layer.h()
    &&& forall|i: int, j: int|
        0 <= i < stout.w() && 0 <= j < stout.h() ==> #[trigger] stout.pix(i, j) == apply_map(
            PixelMap::Unpremultiply,
            layer.pix(i, j),
        )
    &&& cmb.wf()
    &&& cmb.w() == bgout.w()
    &&& cmb.h() == bgout.h()
    &&& forall|i: int, j: int|
        0 <= i < cmb.w() && 0 <= j < cmb.h() ==> #[trigger] cmb.pix(i, j) == blend_spec(
            BlendMode::Normal,
            layer.pix(i, j),
            bgout.pix(i, j),
        )
}

/// A preview set is correct for its inputs: some padded canvas and stitch
/// layer witness the three outputs.
pub open spec fn is_preview_of(
    bgout: PixelBuffer,
    stout: PixelBuffer,
    cmb: PixelBuffer,
    image: PixelBuffer,
    mappings: Seq<ColorInfo>,
    bg: PixelBuffer,
    nstitch: int,
) -> bool {
    exists|ext: PixelBuffer, layer: PixelBuffer|
        #[trigger] preview_witness(ext, layer, bgout, stout, cmb, image, mappings, bg, nstitch)
}

/// Composes the photoreal stitched preview: the tiled aida background,
/// the seeded layer of tinted stitch textures, and the two composited,
/// all in premultiplied alpha except the stitch layer output, which is
/// converted back to straight alpha. The whole set is a pure function of
/// the image, the mappings and the fixed seed.
pub fn create_cross_stitch_pattern_preview(
    image: &PixelBuffer,
    color_mappings: &Vec<ColorInfo>,
    background_tile: &PixelBuffer,
    stitch_variant_count: usize,
) -> (r: PreviewSet)
    requires
        image.wf(),
        1 <= image.w() <= 1000,
        1 <= image.h() <= 1000,
        background_tile.wf(),
        8 <= background_tile.w() <= 256,
        8 <= background_tile.h() <= 256,
        1 <= stitch_variant_count <= 1000,
        stitches_ok(*image, color_mappings@, stitch_variant_count as int),
    ensures
        r.background.wf(),
        r.stitches.wf(),
        r.combined.wf(),
        is_preview_of(
            r.background,
            r.stitches,
            r.combined,
            *image,
            color_mappings@,
            *background_tile,
            stitch_variant_count as int,
        ),
{
    let ext = image.extended(10, 10, 10, 10, Pixel::new(0, 0, 0, 0));
    proof {
        assert(is_extended10(ext, *image));
        assert forall|x: int, y: int|
            0 <= x < ext.w() && 0 <= y < ext.h() && (#[trigger] ext.pix(x, y)).a != 0 implies 0
            <= find_color(infos_palette(color_mappings@), ext.pix(x, y))
            < color_mappings@.len() by {
            assert(ext.pix(x, y) == image.pix(x - 10, y - 10));
        }
        assert(stitches_ok(ext, color_mappings@, stitch_variant_count as int));
    }
    let bgout = render_background_layer(background_tile, ext.width(), ext.height());
    let tw: usize = background_tile.width() / 8;
    let th: usize = background_tile.height() / 8;
    proof {
        assert(1 <= tw <= 32 && 1 <= th <= 32) by (nonlinear_arith)
            requires
                tw == background_tile.w() / 8,
                th == background_tile.h() / 8,
                8 <= background_tile.w() <= 256,
                8 <= background_tile.h() <= 256,
        ;
    }
    let layer = render_stitch_layer(
        &ext,
        color_mappings,
        PREVIEW_SEED,
        stitch_variant_count,
        tw,
        th,
    );
    let stitches = layer.to_unpremultiplied_alpha();
    let mut combined = bgout.duplicate();
    combined.blend_blit(&layer, 0, 0, BlendMode::Normal);
    let out = PreviewSet { background: bgout, stitches, combined };
    proof {
        assert(out.layer_witness_holds(ext, layer, *image, color_mappings@, *background_tile,
            stitch_variant_count as int));
    }
    out
}

impl PreviewSet {
    /// The given canvas and layer witness this set.
    pub open spec fn layer_witness_holds(
        self,
        ext: PixelBuffer,
        layer: PixelBuffer,
        image: PixelBuffer,
        mappings: Seq<ColorInfo>,
        bg: PixelBuffer,
        nstitch: int,
    ) -> bool {
        preview_witness(
            ext,
            layer,
            self.background,
            self.stitches,
            self.combined,
            image,
            mappings,
            bg,
            nstitch,
        )
    }
}

/// Renders the preview directory's three artifacts, named
/// `complete_background`, `complete_stitches` and `complete`.
pub fn create_preview_dir(
    image: &PixelBuffer,
    color_mappings: &Vec<ColorInfo>,
    background_tile: &PixelBuffer,
    stitch_variant_count: usize,
) -> (r: Vec<PatternArtifact>)
    requires
        image.wf(),
        1 <= image.w() <= 1000,
        1 <= image.h() <= 1000,
        background_tile.wf(),
        8 <= background_tile.w() <= 256,
        8 <= background_tile.h() <= 256,
        1 <= stitch_variant_count <= 1000,
        stitches_ok(*image, color_mappings@, stitch_variant_count as int),
    ensures
        r@.len() == 3,
        r@[0].name@ == preview_name(0),
        r@[1].name@ == preview_name(1),
        r@[2].name@ == preview_name(2),
        r@[0].image.wf() && r@[1].image.wf() && r@[2].image.wf(),
        is_preview_of(
            r@[0].image,
            r@[1].image,
            r@[2].image,
            *image,
            color_mappings@,
            *background_tile,
            stitch_variant_count as int,
        ),
{
    let set = create_cross_stitch_pattern_preview(
        image,
        color_mappings,
        background_tile,
        stitch_variant_count,
    );
    let mut r: Vec<PatternArtifact> = Vec::new();
    let mut n0: Vec<u8> = complete_name();
    push_suffix_background(&mut n0);
    r.push(PatternArtifact { name: n0, image: set.background });
    let mut n1: Vec<u8> = complete_name();
    push_suffix_stitches(&mut n1);
    r.push(PatternArtifact { name: n1, image: set.stitches });
    r.push(PatternArtifact { name: complete_name(), image: set.combined });
    proof {
        assert(r@[0].name@ =~= preview_name(0));
        assert(r@[1].name@ =~= preview_name(1));
        assert(r@[2].name@ =~= preview_name(2));
    }
    r
}

/// The preview artifact names: `complete_background`, `complete_stitches`
/// and `complete`, in that order.
pub open spec fn preview_name(k: int) -> Seq<u8> {
    let complete = seq![99u8, 111u8, 109u8, 112u8, 108u8, 101u8, 116u8, 101u8];
    if k == 0 {
        complete + seq![
            95u8, 98u8, 97u8, 99u8, 107u8, 103u8, 114u8, 111u8, 117u8, 110u8, 100u8,
        ]
    } else if k == 1 {
        complete + seq![95u8, 115u8, 116u8, 105u8, 116u8, 99u8, 104u8, 101u8, 115u8]
    } else {
        complete
    }
}

fn complete_name() -> (r: Vec<u8>)
    ensures
        r@ == seq![99u8, 111u8, 109u8, 112u8, 108u8, 101u8, 116u8, 101u8],
{
    let mut v: Vec<u8> = Vec::new();
    v.push(99);
    v.push(111);
    v.push(109);
    v.push(112);
    v.push(108);
    v.push(101);
    v.push(116);
    v.push(101);
    proof {
        assert(v@ =~= seq![99u8, 111u8, 109u8, 112u8, 108u8, 101u8, 116u8, 101u8]);
    }
    v
}

fn push_suffix_background(v: &mut Vec<u8>)
    ensures
        final(v)@ == old(v)@ + seq![
            95u8, 98u8, 97u8, 99u8, 107u8, 103u8, 114u8, 111u8, 117u8, 110u8, 100u8,
        ],
{
    v.push(95);
    v.push(98);
    v.push(97);
    v.push(99);
    v.push(107);
    v.push(103);
    v.push(114);
    v.push(111);
    v.push(117);
    v.push(110);
    v.push(100);
    proof {
        assert(v@ =~= old(v)@ + seq![
            95u8, 98u8, 97u8, 99u8, 107u8, 103u8, 114u8, 111u8, 117u8, 110u8, 100u8,
        ]);
    }
}

fn push_suffix_stitches(v: &mut Vec<u8>)
    ensures
        final(v)@ == old(v)@ + seq![95u8, 115u8, 116u8, 105u8, 116u8, 99u8, 104u8, 101u8, 115u8],
{
    v.push(95);
    v.push(115);
    v.push(116);
    v.push(105);
    v.push(116);
    v.push(99);
    v.push(104);
    v.push(101);
    v.push(115);
    proof {
        assert(v@ =~= old(v)@ + seq![
            95u8, 115u8, 116u8, 105u8, 116u8, 99u8, 104u8, 101u8, 115u8,
        ]);
    }
}

fn vec3_of(mut v: Vec<PatternArtifact>) -> (r: (PatternArtifact, PatternArtifact, PatternArtifact))
    requires
        v@.len() == 3,
    ensures
        r.0 == v@[0],
        r.1 == v@[1],
        r.2 == v@[2],
{
    let c = v.pop().unwrap();
    let b = v.pop().unwrap();
    let a = v.pop().unwrap();
    (a, b, c)
}

/// Renders a pattern directory with the logical origin at the image's
/// top-left corner: the legend and the complete set, plus the per-page
/// sets when the image spans several pages.
pub fn create_patterns_dir(
    image: &PixelBuffer,
    font: &Font,
    font_big: &Font,
    color_mappings: &Vec<ColorInfo>,
) -> (r: PatternOutputs)
    requires
        image.wf(),
        1 <= image.w() <= 1900,
        1 <= image.h() <= 1900,
        font.wf(),
        font_big.wf(),
        color_mappings@.len() <= 90,
        forall|k: int|
            0 <= k < color_mappings@.len() ==> (#[trigger] color_mappings@[k]).count <= 1000000000,
        symbols_wf(infos_symbols(color_mappings@, false)),
        symbols_wf(infos_symbols(color_mappings@, true)),
        palette_covers(
            *image,
            infos_palette(color_mappings@),
            infos_symbols(color_mappings@, false).len() as int,
        ),
        palette_covers(
            *image,
            infos_palette(color_mappings@),
            infos_symbols(color_mappings@, true).len() as int,
        ),
    ensures
        r.legend.wf(),
        exists|segs: Seq<PixelBuffer>|
            #[trigger] dir_artifacts_ok(
                r.artifacts@,
                segs,
                *image,
                color_mappings@,
                *font,
                *font_big,
                0,
                0,
                false,
            ),
{
    let r = patterns_dir_output(image, font, font_big, color_mappings, false);
    r
}

/// Renders the centered-mode pattern directory: the logical origin sits
/// at the image's geometric center, the y axis is presented upward, and
/// origin bars mark the axes.
pub fn create_patterns_dir_centered(
    image: &PixelBuffer,
    font: &Font,
    font_big: &Font,
    color_mappings: &Vec<ColorInfo>,
) -> (r: PatternOutputs)
    requires
        image.wf(),
        1 <= image.w() <= 1900,
        1 <= image.h() <= 1900,
        font.wf(),
        font_big.wf(),
        color_mappings@.len() <= 90,
        forall|k: int|
            0 <= k < color_mappings@.len() ==> (#[trigger] color_mappings@[k]).count <= 1000000000,
        symbols_wf(infos_symbols(color_mappings@, false)),
        symbols_wf(infos_symbols(color_mappings@, true)),
        palette_covers(
            *image,
            infos_palette(color_mappings@),
            infos_symbols(color_mappings@, false).len() as int,
        ),
        palette_covers(
            *image,
            infos_palette(color_mappings@),
            infos_symbols(color_mappings@, true).len() as int,
        ),
    ensures
        r.legend.wf(),
        exists|segs: Seq<PixelBuffer>|
            #[trigger] dir_artifacts_ok(
                r.artifacts@,
                segs,
                *image,
                color_mappings@,
                *font,
                *font_big,
                -((image.w() + 1) / 2),
                -((image.h() + 1) / 2),
                true,
            ),
{
    let r = patterns_dir_output(image, font, font_big, color_mappings, true);
    r
}

} // verus!
