use vstd::prelude::*;

use crate::blend::apply_map;
use crate::blend::blend_spec;
use crate::blend::mask_pixel;
use crate::blend::BlendMode;
use crate::blend::PixelMap;
use crate::buffer::PixelBuffer;
use crate::buffer::same_image;
use crate::font::Font;
use crate::palette::accum;
use crate::palette::extract_palette;
use crate::palette::palette_view;
use crate::palette::sort_palette;
use crate::pixel::contrast_ink;
use crate::pixel::contrast_ink_for;
use crate::pixel::transparent;
use crate::pixel::white;
use crate::pixel::Pixel;

verus! {

/// Stamps a symbol bitmap into `buf` with its top-left corner at
/// `(px, py)`. The ink is black or white, chosen against the pixel under
/// the stamp's origin; symbol pixels equal to `mask` are skipped, every
/// other symbol pixel is stamped in the ink color (the symbol's own colors
/// are discarded).
pub fn stamp_symbol(buf: &mut PixelBuffer, sym: &PixelBuffer, px: usize, py: usize, mask: Pixel)
    requires
        old(buf).wf(),
        sym.wf(),
        px + sym.w() <= old(buf).w(),
        py + sym.h() <= old(buf).h(),
        py < old(buf).h(),
        px < old(buf).w(),
    ensures
        final(buf).wf(),
        final(buf).w() == old(buf).w(),
        final(buf).h() == old(buf).h(),
        forall|i: int, j: int|
            0 <= i < old(buf).w() && 0 <= j < old(buf).h() ==> final(buf).pix(i, j) == (if px <= i
                < px + sym.w() && py <= j < py + sym.h() && sym.pix(i - px, j - py) != mask {
                contrast_ink(old(buf).pix(px as int, py as int))
            } else {
                old(buf).pix(i, j)
            }),
{
    let under = buf.get(px, py);
    let ink = contrast_ink_for(under);
    let sw = sym.width();
    let sh = sym.height();
    let mut sy: usize = 0;
    while sy < sh
        invariant
            buf.wf(),
            sym.wf(),
            buf.w() == old(buf).w(),
            buf.h() == old(buf).h(),
            px + sw <= buf.w(),
            py + sh <= buf.h(),
            sw == sym.w(),
            sh == sym.h(),
            sy <= sh,
            ink == contrast_ink(old(buf).pix(px as int, py as int)),
            forall|i: int, j: int|
                0 <= i < old(buf).w() && 0 <= j < old(buf).h() ==> buf.pix(i, j) == (if px <= i < px
                    + sym.w() && py <= j < py + sy && sym.pix(i - px, j - py) != mask {
                    contrast_ink(old(buf).pix(px as int, py as int))
                } else {
                    old(buf).pix(i, j)
                }),
        decreases sh - sy,
    {
        let mut sx: usize = 0;
        while sx < sw
            invariant
                buf.wf(),
                sym.wf(),
                buf.w() == old(buf).w(),
                buf.h() == old(buf).h(),
                px + sw <= buf.w(),
                py + sh <= buf.h(),
                sw == sym.w(),
                sh == sym.h(),
                sy < sh,
                sx <= sw,
                ink == contrast_ink(old(buf).pix(px as int, py as int)),
                forall|i: int, j: int|
                    0 <= i < old(buf).w() && 0 <= j < old(buf).h() ==> buf.pix(i, j) == (if px <= i
                        < px + sym.w() && ((py <= j < py + sy) || (j == py + sy && i < px + sx))
                        && sym.pix(i - px, j - py) != mask {
                        contrast_ink(old(buf).pix(px as int, py as int))
                    } else {
                        old(buf).pix(i, j)
                    }),
            decreases sw - sx,
        {
            let sp = sym.get(sx, sy);
            if sp != mask {
                buf.set(px + sx, py + sy, ink);
            }
            sx = sx + 1;
        }
        sy = sy + 1;
    }
}

/// Byte code of the `k`th alphanumeric symbol: the digits 1 to 9 followed
/// by the letters A to Z (a zero never leads, to avoid print ambiguity).
pub open spec fn alnum_code(k: int) -> u8 {
    if k < 9 {
        (49 + k) as u8
    } else {
        (56 + k) as u8
    }
}

/// Pixel `(i, j)` of the `k`th alphanumeric symbol tile: the font glyph,
/// centered in a 16 x 16 transparent tile and stamped in white ink.
pub open spec fn alnum_pixel(font: Font, k: int, i: int, j: int) -> Pixel {
    let ox = (16 - font.gw()) / 2;
    let oy = (16 - font.gh()) / 2;
    if ox <= i < ox + font.gw() && oy <= j < oy + font.gh() && font.glyph(alnum_code(k) as int).pix(
        i - ox,
        j - oy,
    ) != transparent() {
        white()
    } else {
        transparent()
    }
}

/// Builds the 35 alphanumeric symbol tiles (1-9 then A-Z) by centering
/// each font glyph in a 16 x 16 transparent tile.
pub fn create_alphanumeric_symbols(font: &Font) -> (r: Vec<PixelBuffer>)
    requires
        font.wf(),
        font.gw() <= 16,
        font.gh() <= 16,
    ensures
        r@.len() == 35,
        forall|k: int|
            0 <= k < 35 ==> (#[trigger] r@[k]).wf() && r@[k].w() == 16 && r@[k].h() == 16,
        forall|k: int, i: int, j: int|
            0 <= k < 35 && 0 <= i < 16 && 0 <= j < 16 ==> (#[trigger] r@[k].pix(i, j))
                == alnum_pixel(*font, k, i, j),
{
    let gw = font.glyph_width();
    let gh = font.glyph_height();
    let ox: usize = (16 - gw) / 2;
    let oy: usize = (16 - gh) / 2;
    let mut r: Vec<PixelBuffer> = Vec::new();
    let mut k: usize = 0;
    while k < 35
        invariant
            font.wf(),
            font.gw() <= 16,
            font.gh() <= 16,
            gw == font.gw(),
            gh == font.gh(),
            ox == (16 - font.gw()) / 2,
            oy == (16 - font.gh()) / 2,
            k <= 35,
            r@.len() == k,
            forall|t: int|
                0 <= t < k ==> (#[trigger] r@[t]).wf() && r@[t].w() == 16 && r@[t].h() == 16,
            forall|t: int, i: int, j: int|
                0 <= t < k && 0 <= i < 16 && 0 <= j < 16 ==> (#[trigger] r@[t].pix(i, j))
                    == alnum_pixel(*font, t, i, j),
        decreases 35 - k,
    {
        let code: u8 = if k < 9 {
            49 + (k as u8)
        } else {
            56 + (k as u8)
        };
        let mut tile = PixelBuffer::new_filled(16, 16, Pixel::new(0, 0, 0, 0));
        let glyph = font.glyph_ref(code);
        stamp_symbol(&mut tile, glyph, ox, oy, Pixel::new(0, 0, 0, 0));
        proof {
            assert(contrast_ink(transparent()) == white());
            assert(forall|i: int, j: int|
                0 <= i < 16 && 0 <= j < 16 ==> #[trigger] tile.pix(i, j) == alnum_pixel(
                    *font,
                    k as int,
                    i,
                    j,
                ));
        }
        r.push(tile);
        k = k + 1;
    }
    r
}

/// The capacity failure: more distinct colors in the image than symbols
/// in a pool. This is detected and reported, never silently truncated.
#[derive(Clone, Copy, PartialEq, Eq, Structural, Debug)]
pub struct InsufficientSymbols {
    /// Distinct opaque colors found in the image.
    pub colors: usize,
    /// Symbols available in the pool that fell short.
    pub symbols_available: usize,
    /// Whether the short pool was the alphanumeric one.
    pub alphanumeric: bool,
}

/// One fully-assigned palette entry: the color, its stitch count, its two
/// symbol tiles, and its tinted stitch textures for the preview.
pub struct ColorInfo {
    pub color: Pixel,
    pub count: usize,
    pub symbol: PixelBuffer,
    pub symbol_alphanum: PixelBuffer,
    pub stitches_premultiplied: Vec<PixelBuffer>,
}

/// The gray layer screened over the stitch texture before tinting.
pub open spec fn screen_gray() -> Pixel {
    Pixel { r: 105, g: 109, b: 128, a: 255 }
}

/// Divisor applied to the luminance texture: grows quadratically with the
/// average brightness of the thread color, flattening the shading of
/// bright threads.
pub open spec fn shade_divisor(c: Pixel) -> int {
    6 + (8 * ((c.r + c.g + c.b) * (c.r + c.g + c.b))) / 585225
}

/// Pixel `(i, j)` of a tinted stitch texture: the premultiplied base
/// stitch under a screened gray highlight, a multiplied flat color layer,
/// and a luminosity layer from the shaded luminance texture, masked back
/// to the base stitch's silhouette.
pub open spec fn tinted_stitch_pixel(base: Pixel, lum: Pixel, color: Pixel) -> Pixel {
    let s1 = blend_spec(BlendMode::Screen, apply_map(PixelMap::Premultiply, screen_gray()), base);
    let s2 = blend_spec(BlendMode::Multiply, apply_map(PixelMap::Premultiply, color), s1);
    let s3 = blend_spec(
        BlendMode::Luminosity,
        apply_map(PixelMap::DivChannels(shade_divisor(color) as u8), lum),
        s2,
    );
    mask_pixel(s3, base)
}

fn shade_divisor_exec(c: Pixel) -> (d: u8)
    ensures
        d == shade_divisor(c),
        1 <= d,
{
    let s: u32 = (c.r as u32) + (c.g as u32) + (c.b as u32);
    proof {
        assert(0 <= 8 * ((c.r + c.g + c.b) * (c.r + c.g + c.b)) <= 8 * 765 * 765)
            by (nonlinear_arith)
            requires
                0 <= c.r + c.g + c.b <= 765,
        ;
    }
    let d: u32 = 6 + (8 * (s * s)) / 585225;
    d as u8
}

/// Tints one premultiplied stitch texture for one thread color.
pub fn tint_stitch(base: &PixelBuffer, lum: &PixelBuffer, color: Pixel) -> (r: PixelBuffer)
    requires
        base.wf(),
        lum.wf(),
        lum.w() == base.w(),
        lum.h() == base.h(),
    ensures
        r.wf(),
        r.w() == base.w(),
        r.h() == base.h(),
        forall|i: int, j: int|
            0 <= i < base.w() && 0 <= j < base.h() ==> r.pix(i, j) == tinted_stitch_pixel(
                base.pix(i, j),
                lum.pix(i, j),
                color,
            ),
{
    let w = base.width();
    let h = base.height();
    let mut stitch = base.duplicate();
    let screen_layer = PixelBuffer::new_filled(w, h, Pixel::new(105, 109, 128, 255))
        .to_premultiplied_alpha();
    stitch.blend_blit(&screen_layer, 0, 0, BlendMode::Screen);
    let color_layer = PixelBuffer::new_filled(w, h, color).to_premultiplied_alpha();
    stitch.blend_blit(&color_layer, 0, 0, BlendMode::Multiply);
    let divisor = shade_divisor_exec(color);
    let lum_layer = lum.mapped(PixelMap::DivChannels(divisor));
    stitch.blend_blit(&lum_layer, 0, 0, BlendMode::Luminosity);
    stitch.masked_by_premultiplied_alpha(base)
}

/// Glyph assignment is positional and exhaustive-or-rejected: entry `i` of
/// the sorted palette receives symbol `i` of each pool, so no two colors
/// share a symbol; when either pool is smaller than the palette the whole
/// operation fails with the exact counts and produces nothing.
pub fn create_color_mappings_from_image(
    image: &PixelBuffer,
    symbols: &Vec<PixelBuffer>,
    symbols_alphanum: &Vec<PixelBuffer>,
    stitch_images_premultiplied: &Vec<PixelBuffer>,
    stitch_images_luminance: &Vec<PixelBuffer>,
) -> (r: Result<Vec<ColorInfo>, InsufficientSymbols>)
    requires
        image.wf(),
        forall|k: int| 0 <= k < symbols@.len() ==> (#[trigger] symbols@[k]).wf(),
        forall|k: int| 0 <= k < symbols_alphanum@.len() ==> (#[trigger] symbols_alphanum@[k]).wf(),
        stitch_images_luminance@.len() == stitch_images_premultiplied@.len(),
        forall|k: int|
            0 <= k < stitch_images_premultiplied@.len() ==> (
            #[trigger] stitch_images_premultiplied@[k]).wf()
                && stitch_images_luminance@[k].wf()
                && stitch_images_luminance@[k].w() == stitch_images_premultiplied@[k].w()
                && stitch_images_luminance@[k].h() == stitch_images_premultiplied@[k].h(),
    ensures
        ({
            let palette = sort_palette(accum(image.pixels()));
            match r {
                Err(e) => (palette.len() > symbols@.len() || palette.len()
                    > symbols_alphanum@.len()) && e.colors == palette.len() && (if palette.len()
                    > symbols@.len() {
                    e.symbols_available == symbols@.len() && !e.alphanumeric
                } else {
                    e.symbols_available == symbols_alphanum@.len() && e.alphanumeric
                }),
                Ok(v) => {
                    &&& palette.len() <= symbols@.len()
                    &&& palette.len() <= symbols_alphanum@.len()
                    &&& v@.len() == palette.len()
                    &&& forall|i: int|
                        0 <= i < v@.len() ==> {
                            let info = #[trigger] v@[i];
                            &&& info.color == palette[i].0
                            &&& info.count == palette[i].1
                            &&& info.symbol.wf()
                            &&& same_image(info.symbol, symbols@[i])
                            &&& info.symbol_alphanum.wf()
                            &&& same_image(info.symbol_alphanum, symbols_alphanum@[i])
                            &&& (info.color.a != 0 ==> info.stitches_premultiplied@.len()
                                == stitch_images_premultiplied@.len())
                            &&& (info.color.a == 0 ==> info.stitches_premultiplied@.len() == 0)
                            &&& forall|k: int|
                                0 <= k < info.stitches_premultiplied@.len() && info.color.a != 0
                                    ==> {
                                    let st = #[trigger] info.stitches_premultiplied@[k];
                                    &&& st.wf()
                                    &&& st.w() == stitch_images_premultiplied@[k].w()
                                    &&& st.h() == stitch_images_premultiplied@[k].h()
                                    &&& forall|x: int, y: int|
                                        0 <= x < st.w() && 0 <= y < st.h() ==> #[trigger] st.pix(
                                            x,
                                            y,
                                        ) == tinted_stitch_pixel(
                                            stitch_images_premultiplied@[k].pix(x, y),
                                            stitch_images_luminance@[k].pix(x, y),
                                            info.color,
                                        )
                                }
                        }
                },
            }
        }),
{
    let palette = extract_palette(image);
    let ghost pv = sort_palette(accum(image.pixels()));
    proof {
        assert(pv.len() == palette@.len());
    }
    if palette.len() > symbols.len() {
        return Result::Err(
            InsufficientSymbols {
                colors: palette.len(),
                symbols_available: symbols.len(),
                alphanumeric: false,
            },
        );
    }
    if palette.len() > symbols_alphanum.len() {
        return Result::Err(
            InsufficientSymbols {
                colors: palette.len(),
                symbols_available: symbols_alphanum.len(),
                alphanumeric: true,
            },
        );
    }
    let n = palette.len();
    let nstitch = stitch_images_premultiplied.len();
    let mut v: Vec<ColorInfo> = Vec::new();
    let mut i: usize = 0;
    while i < n
        invariant
            image.wf(),
            forall|k: int| 0 <= k < symbols@.len() ==> (#[trigger] symbols@[k]).wf(),
            forall|k: int|
                0 <= k < symbols_alphanum@.len() ==> (#[trigger] symbols_alphanum@[k]).wf(),
            stitch_images_luminance@.len() == stitch_images_premultiplied@.len(),
            forall|k: int|
                0 <= k < stitch_images_premultiplied@.len() ==> (
                #[trigger] stitch_images_premultiplied@[k]).wf()
                    && stitch_images_luminance@[k].wf() && stitch_images_luminance@[k].w()
                    == stitch_images_premultiplied@[k].w() && stitch_images_luminance@[k].h()
                    == stitch_images_premultiplied@[k].h(),
            pv == sort_palette(accum(image.pixels())),
            palette_view(palette@) == pv,
            n == palette@.len(),
            n == pv.len(),
            n <= symbols@.len(),
            n <= symbols_alphanum@.len(),
            nstitch == stitch_images_premultiplied@.len(),
            i <= n,
            v@.len() == i,
            forall|t: int|
                0 <= t < i ==> {
                    let info = #[trigger] v@[t];
                    &&& info.color == pv[t].0
                    &&& info.count == pv[t].1
                    &&& info.symbol.wf()
                    &&& same_image(info.symbol, symbols@[t])
                    &&& info.symbol_alphanum.wf()
                    &&& same_image(info.symbol_alphanum, symbols_alphanum@[t])
                    &&& (info.color.a != 0 ==> info.stitches_premultiplied@.len()
                        == stitch_images_premultiplied@.len())
                    &&& (info.color.a == 0 ==> info.stitches_premultiplied@.len() == 0)
                    &&& forall|k: int|
                        0 <= k < info.stitches_premultiplied@.len() && info.color.a != 0 ==> {
                            let st = #[trigger] info.stitches_premultiplied@[k];
                            &&& st.wf()
                            &&& st.w() == stitch_images_premultiplied@[k].w()
                            &&& st.h() == stitch_images_premultiplied@[k].h()
                            &&& forall|x: int, y: int|
                                0 <= x < st.w() && 0 <= y < st.h() ==> #[trigger] st.pix(x, y)
                                    == tinted_stitch_pixel(
                                    stitch_images_premultiplied@[k].pix(x, y),
                                    stitch_images_luminance@[k].pix(x, y),
                                    info.color,
                                )
                        }
                },
        decreases n - i,
    {
        let entry = palette[i];
        proof {
            assert(pv[i as int] == (entry.color, entry.count as nat));
        }
        let mut stitches: Vec<PixelBuffer> = Vec::new();
        if entry.color.a != 0 {
            let mut k: usize = 0;
            while k < nstitch
                invariant
                    stitch_images_luminance@.len() == stitch_images_premultiplied@.len(),
                    forall|t: int|
                        0 <= t < stitch_images_premultiplied@.len() ==> (
                        #[trigger] stitch_images_premultiplied@[t]).wf()
                            && stitch_images_luminance@[t].wf() && stitch_images_luminance@[t].w()
                            == stitch_images_premultiplied@[t].w()
                            && stitch_images_luminance@[t].h()
                            == stitch_images_premultiplied@[t].h(),
                    nstitch == stitch_images_premultiplied@.len(),
                    k <= nstitch,
                    stitches@.len() == k,
                    forall|t: int|
                        0 <= t < k ==> {
                            let st = #[trigger] stitches@[t];
                            &&& st.wf()
                            &&& st.w() == stitch_images_premultiplied@[t].w()
                            &&& st.h() == stitch_images_premultiplied@[t].h()
                            &&& forall|x: int, y: int|
                                0 <= x < st.w() && 0 <= y < st.h() ==> #[trigger] st.pix(x, y)
                                    == tinted_stitch_pixel(
                                    stitch_images_premultiplied@[t].pix(x, y),
                                    stitch_images_luminance@[t].pix(x, y),
                                    entry.color,
                                )
                        },
                decreases nstitch - k,
            {
                let st = tint_stitch(
                    &stitch_images_premultiplied[k],
                    &stitch_images_luminance[k],
                    entry.color,
                );
                stitches.push(st);
                k = k + 1;
            }
        }
        let info = ColorInfo {
            color: entry.color,
            count: entry.count,
            symbol: symbols[i].duplicate(),
            symbol_alphanum: symbols_alphanum[i].duplicate(),
            stitches_premultiplied: stitches,
        };
        v.push(info);
        i = i + 1;
    }
    Result::Ok(v)
}

/// True when a file's stem parses as an unsigned number, the rule that
/// selects the symbol glyph files from a resource directory: an optional
/// leading plus sign, then only decimal digits, and a value that fits an
/// unsigned 32-bit number.
pub fn is_numeric_symbol_name(stem: &Vec<u8>) -> (r: bool)
    ensures
        r == numeric_symbol_name(stem@),
{
    let n = stem.len();
    let start: usize = if n >= 1 && stem[0] == 43 {
        1
    } else {
        0
    };
    if n == start {
        return false;
    }
    let mut value: u64 = 0;
    let mut i: usize = start;
    while i < n
        invariant
            n == stem@.len(),
            start <= i <= n,
            start <= 1,
            start == (if stem@.len() >= 1 && stem@[0] == 43 {
                1int
            } else {
                0int
            }),
            value == digits_value(stem@, start as int, i as int),
            value <= 0xffffffff,
            forall|k: int| start <= k < i ==> 48 <= #[trigger] stem@[k] <= 57,
        decreases n - i,
    {
        let c = stem[i];
        if c < 48 || c > 57 {
            proof {
                if numeric_symbol_name(stem@) {
                    assert(48 <= stem@[i as int] <= 57);
                }
            }
            return false;
        }
        if value > 429496729 || (value == 429496729 && c > 53) {
            // the value would no longer fit in 32 bits
            proof {
                if numeric_symbol_name(stem@) {
                    lemma_digits_value_mono(stem@, start as int, i as int + 1, n as int);
                    assert(digits_value(stem@, start as int, i as int + 1) == digits_value(
                        stem@,
                        start as int,
                        i as int,
                    ) * 10 + (stem@[i as int] - 48));
                    assert(false);
                }
            }
            return false;
        }
        value = value * 10 + ((c - 48) as u64);
        i = i + 1;
    }
    true
}

/// The numeric-stem rule as a predicate: optional `+`, one or more
/// digits, value at most `u32::MAX`.
pub open spec fn numeric_symbol_name(stem: Seq<u8>) -> bool {
    let start: int = if stem.len() >= 1 && stem[0] == 43 {
        1
    } else {
        0
    };
    &&& stem.len() > start
    &&& forall|k: int| start <= k < stem.len() ==> 48 <= #[trigger] stem[k] <= 57
    &&& digits_value(stem, start, stem.len() as int) <= 0xffffffff
}

/// The value of the digit run `stem[start..end]`.
pub open spec fn digits_value(stem: Seq<u8>, start: int, end: int) -> int
    decreases end - start,
{
    if end <= start {
        0
    } else {
        digits_value(stem, start, end - 1) * 10 + (stem[end - 1] - 48)
    }
}

proof fn lemma_digits_value_mono(stem: Seq<u8>, start: int, a: int, b: int)
    requires
        start <= a <= b,
        forall|k: int| start <= k < b ==> 48 <= #[trigger] stem[k] <= 57,
        b <= stem.len(),
    ensures
        digits_value(stem, start, b) >= digits_value(stem, start, a),
        digits_value(stem, start, a) >= 0,
    decreases b - a,
{
    lemma_digits_value_nonneg(stem, start, a);
    if a < b {
        lemma_digits_value_mono(stem, start, a, b - 1);
        lemma_digits_value_nonneg(stem, start, b - 1);
        assert(digits_value(stem, start, b) == digits_value(stem, start, b - 1) * 10 + (stem[b - 1]
            - 48));
        assert(digits_value(stem, start, b - 1) * 10 >= digits_value(stem, start, b - 1))
            by (nonlinear_arith)
            requires
                digits_value(stem, start, b - 1) >= 0,
        ;
    }
}

proof fn lemma_digits_value_nonneg(stem: Seq<u8>, start: int, a: int)
    requires
        start <= a,
        forall|k: int| start <= k < a ==> 48 <= #[trigger] stem[k] <= 57,
    ensures
        digits_value(stem, start, a) >= 0,
    decreases a - start,
{
    if a > start {
        lemma_digits_value_nonneg(stem, start, a - 1);
        assert(digits_value(stem, start, a - 1) * 10 >= 0) by (nonlinear_arith)
            requires
                digits_value(stem, start, a - 1) >= 0,
        ;
    }
}

} // verus!
