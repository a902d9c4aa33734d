use vstd::prelude::*;

use vstd::arithmetic::div_mod::lemma_mod_multiples_vanish;

use crate::buffer::PixelBuffer;
use crate::palette::find_color;
use crate::symbols::ColorInfo;
use crate::pixel::black;
use crate::pixel::contrast_ink;
use crate::pixel::contrast_ink_for;
use crate::pixel::grid_thick;
use crate::pixel::grid_thin;
use crate::pixel::white;
use crate::pixel::Pixel;

verus! {

/// Side length in output pixels of one stitch cell.
pub const TILE: usize = 16;

/// Largest image width or height the pattern renderer accepts; scaled by
/// `TILE` plus padding this stays inside the buffer capacity bound.
pub const MAX_PATTERN_DIM: usize = 2000;

/// Largest magnitude of a logical coordinate origin.
pub const MAX_COORD: i32 = 1000000;

/// The four pattern styles.
#[derive(Clone, Copy, PartialEq, Eq, Structural, Debug)]
pub enum PatternVariant {
    BlackAndWhite,
    Colorized,
    ColorizedNoSymbols,
    PaintByNumbers,
}

/// Whether cells are filled with the stitch color.
pub open spec fn variant_colorize(v: PatternVariant) -> bool {
    v == PatternVariant::Colorized || v == PatternVariant::ColorizedNoSymbols
}

/// Whether cells carry a symbol stamp.
pub open spec fn variant_add_symbol(v: PatternVariant) -> bool {
    v != PatternVariant::ColorizedNoSymbols
}

/// Whether the alphanumeric symbol pool is the one stamped.
pub open spec fn variant_alphanum(v: PatternVariant) -> bool {
    v == PatternVariant::PaintByNumbers
}

/// `v` is a multiple of ten.
pub open spec fn div10(v: int) -> bool {
    v % 10 == 0
}

/// A cell's background: the stitch color when colorizing an opaque stitch,
/// white otherwise (including "no stitch here").
pub open spec fn cell_fill(colorize: bool, c: Pixel) -> Pixel {
    if colorize && c.a != 0 {
        c
    } else {
        white()
    }
}

/// All symbol bitmaps are well-formed `TILE` x `TILE` cells.
pub open spec fn symbols_wf(symbols: Seq<PixelBuffer>) -> bool {
    forall|k: int|
        0 <= k < symbols.len() ==> (#[trigger] symbols[k]).wf() && symbols[k].w() == 16
            && symbols[k].h() == 16
}

/// Every opaque pixel color of `image` has a palette entry whose index is
/// a valid symbol index.
pub open spec fn palette_covers(image: PixelBuffer, palette: Seq<(Pixel, nat)>, nsym: int) -> bool {
    forall|x: int, y: int|
        0 <= x < image.w() && 0 <= y < image.h() && (#[trigger] image.pix(x, y)).a != 0 ==> 0
            <= find_color(palette, image.pix(x, y)) < nsym
}

/// The palette as the assigned mappings carry it: entry `k`'s color and
/// stitch count.
pub open spec fn infos_palette(s: Seq<ColorInfo>) -> Seq<(Pixel, nat)> {
    s.map_values(|e: ColorInfo| (e.color, e.count as nat))
}

/// The symbol pool a variant stamps: the plain symbols, or the
/// alphanumeric ones for paint-by-numbers.
pub open spec fn infos_symbols(s: Seq<ColorInfo>, alphanum: bool) -> Seq<PixelBuffer> {
    if alphanum {
        s.map_values(|e: ColorInfo| e.symbol_alphanum)
    } else {
        s.map_values(|e: ColorInfo| e.symbol)
    }
}

/// Mappings whose entries carry, position by position, the colors of the
/// image's sorted palette cover every opaque pixel color: the lookup the
/// renderer performs always lands on a valid entry. This discharges the
/// renderer's coverage obligation for any caller holding the assigner's
/// contract.
pub proof fn lemma_mappings_cover(image: PixelBuffer, mappings: Seq<ColorInfo>)
    requires
        image.wf(),
        mappings.len() == crate::palette::sort_palette(
            crate::palette::accum(image.pixels()),
        ).len(),
        forall|i: int|
            0 <= i < mappings.len() ==> (#[trigger] mappings[i]).color
                == crate::palette::sort_palette(crate::palette::accum(image.pixels()))[i].0,
    ensures
        palette_covers(image, infos_palette(mappings), mappings.len() as int),
{
    let pixels = image.pixels();
    let acc = crate::palette::accum(pixels);
    let sorted = crate::palette::sort_palette(acc);
    crate::palette::lemma_accum_has_all(pixels);
    crate::palette::lemma_accum_wf(pixels);
    crate::palette::lemma_sort_distinct(acc);
    assert forall|x: int, y: int|
        0 <= x < image.w() && 0 <= y < image.h() && (#[trigger] image.pix(x, y)).a != 0 implies 0
        <= find_color(infos_palette(mappings), image.pix(x, y)) < mappings.len() by {
        let c = image.pix(x, y);
        image.lemma_pixels();
        crate::buffer::lemma_row_major_in_range(x, y, image.w(), image.h());
        assert(pixels[y * image.w() + x] == c);
        assert(crate::palette::has_color(acc, c));
        assert(crate::palette::has_color(sorted, c));
        let k = choose|k: int| 0 <= k < sorted.len() && (#[trigger] sorted[k]).0 == c;
        assert(mappings[k].color == c);
        assert(infos_palette(mappings)[k].0 == c);
        assert(crate::palette::has_color(infos_palette(mappings), c));
        crate::palette::lemma_has_color_found(infos_palette(mappings), c);
    }
}

/// Finds the first mapping entry carrying color `c`.
pub fn find_info(mappings: &Vec<ColorInfo>, c: Pixel) -> (r: Option<usize>)
    ensures
        match r {
            Some(i) => find_color(infos_palette(mappings@), c) == i && i < mappings@.len()
                && mappings@[i as int].color == c,
            None => find_color(infos_palette(mappings@), c) < 0,
        },
{
    let ghost acc = infos_palette(mappings@);
    let n = mappings.len();
    let mut j: usize = 0;
    while j < n
        invariant
            n == mappings@.len(),
            j <= n,
            acc == infos_palette(mappings@),
            forall|k: int| 0 <= k < j ==> (#[trigger] acc[k]).0 != c,
        decreases n - j,
    {
        if mappings[j].color == c {
            proof {
                crate::palette::lemma_find_color(acc, c);
                let f = find_color(acc, c);
                assert(acc[j as int].0 == c);
                if f < 0 {
                    assert(acc[j as int].0 != c);
                } else {
                    if f < j {
                        assert(acc[f].0 != c);
                    }
                    if j < f {
                        assert(acc[j as int].0 != c);
                    }
                }
            }
            return Some(j);
        }
        j = j + 1;
    }
    proof {
        crate::palette::lemma_find_color(acc, c);
        let f = find_color(acc, c);
        if f >= 0 {
            assert(acc[f].0 == c);
        }
    }
    None
}

/// The content of output pixel `(i, j)` before any grid line: the cell's
/// fill, or the contrast ink where the cell's symbol covers it. The ink
/// color is chosen against the fill the stamp lands on; pixels of the
/// symbol bitmap equal to `mask` are treated as transparent.
pub open spec fn pattern_cell_pixel(
    image: PixelBuffer,
    palette: Seq<(Pixel, nat)>,
    symbols: Seq<PixelBuffer>,
    colorize: bool,
    add_symbol: bool,
    mask: Pixel,
    i: int,
    j: int,
) -> Pixel {
    let c = image.pix(i / 16, j / 16);
    let fill = cell_fill(colorize, c);
    if add_symbol && c.a != 0 {
        let sym = symbols[find_color(palette, c)];
        if sym.pix(i % 16, j % 16) != mask {
            contrast_ink(fill)
        } else {
            fill
        }
    } else {
        fill
    }
}

/// Output pixel `(i, j)` of the scaled pattern canvas: cell fills and
/// symbols under the 1-unit grid, the closing grid lines at the far edges,
/// the logical-coordinate-aligned 10-unit grid, and the interior origin
/// bars, in exactly that stacking order.
pub open spec fn core_pixel(
    image: PixelBuffer,
    palette: Seq<(Pixel, nat)>,
    symbols: Seq<PixelBuffer>,
    colorize: bool,
    add_symbol: bool,
    mask: Pixel,
    x0: int,
    y0: int,
    thick: bool,
    origin_bars: bool,
    i: int,
    j: int,
) -> Pixel {
    let w = image.w();
    let h = image.h();
    let bw = 16 * w;
    let bh = 16 * h;
    let oxv = origin_bars && 0 < -x0 < w;
    let oyv = origin_bars && 0 < -y0 < h;
    let ox = 16 * (-x0);
    let oy = 16 * (-y0);
    if oyv && oy - 1 <= j < oy + 1 {
        white()
    } else if oyv && oy - 2 <= j < oy + 2 {
        black()
    } else if oxv && ox - 1 <= i < ox + 1 {
        white()
    } else if oxv && ox - 2 <= i < ox + 2 {
        black()
    } else if thick && div10(y0 + h) && j >= bh - 2 {
        grid_thick()
    } else if thick && div10(x0 + w) && i >= bw - 2 {
        grid_thick()
    } else if thick && j % 16 < 2 && div10(y0 + j / 16) {
        grid_thick()
    } else if thick && i % 16 < 2 && div10(x0 + i / 16) {
        grid_thick()
    } else if j == bh - 1 {
        grid_thin()
    } else if i == bw - 1 {
        grid_thin()
    } else if j % 16 == 0 {
        grid_thin()
    } else if i % 16 == 0 {
        grid_thin()
    } else {
        pattern_cell_pixel(image, palette, symbols, colorize, add_symbol, mask, i, j)
    }
}

/// Decides whether `v` is a multiple of ten.
pub fn is_ten_multiple(v: i64) -> (b: bool)
    requires
        -1000000000 <= v <= 1000000000,
    ensures
        b == div10(v as int),
{
    let shifted: i64 = v + 10000000000;
    proof {
        lemma_mod_multiples_vanish(1000000000, v as int, 10);
    }
    (shifted % 10) == 0
}

proof fn lemma_div16(i: int, w: int)
    by (nonlinear_arith)
    requires
        0 <= i < 16 * w,
    ensures
        0 <= i / 16 < w,
        0 <= i % 16 < 16,
{
}

/// Computes one output pixel of the scaled pattern canvas.
fn core_pixel_at(
    image: &PixelBuffer,
    mappings: &Vec<ColorInfo>,
    use_alphanum: bool,
    colorize: bool,
    add_symbol: bool,
    mask: Pixel,
    x0: i32,
    y0: i32,
    thick: bool,
    origin_bars: bool,
    i: usize,
    j: usize,
) -> (p: Pixel)
    requires
        image.wf(),
        image.w() <= MAX_PATTERN_DIM,
        image.h() <= MAX_PATTERN_DIM,
        -MAX_COORD <= x0 <= MAX_COORD,
        -MAX_COORD <= y0 <= MAX_COORD,
        symbols_wf(infos_symbols(mappings@, use_alphanum)),
        add_symbol ==> palette_covers(
            *image,
            infos_palette(mappings@),
            infos_symbols(mappings@, use_alphanum).len() as int,
        ),
        i < 16 * image.w(),
        j < 16 * image.h(),
    ensures
        p == core_pixel(
            *image,
            infos_palette(mappings@),
            infos_symbols(mappings@, use_alphanum),
            colorize,
            add_symbol,
            mask,
            x0 as int,
            y0 as int,
            thick,
            origin_bars,
            i as int,
            j as int,
        ),
{
    let w = image.width();
    let h = image.height();
    let bw: usize = 16 * w;
    let bh: usize = 16 * h;
    let ii: i64 = i as i64;
    let jj: i64 = j as i64;
    let ox: i64 = 16 * (-(x0 as i64));
    let oy: i64 = 16 * (-(y0 as i64));
    let oxv = origin_bars && 0 < -(x0 as i64) && -(x0 as i64) < w as i64;
    let oyv = origin_bars && 0 < -(y0 as i64) && -(y0 as i64) < h as i64;
    proof {
        lemma_div16(i as int, w as int);
        lemma_div16(j as int, h as int);
    }
    if oyv && oy - 1 <= jj && jj < oy + 1 {
        Pixel::new(255, 255, 255, 255)
    } else if oyv && oy - 2 <= jj && jj < oy + 2 {
        Pixel::new(0, 0, 0, 255)
    } else if oxv && ox - 1 <= ii && ii < ox + 1 {
        Pixel::new(255, 255, 255, 255)
    } else if oxv && ox - 2 <= ii && ii < ox + 2 {
        Pixel::new(0, 0, 0, 255)
    } else if thick && is_ten_multiple((y0 as i64) + (h as i64)) && j >= bh - 2 {
        Pixel::new(64, 64, 64, 255)
    } else if thick && is_ten_multiple((x0 as i64) + (w as i64)) && i >= bw - 2 {
        Pixel::new(64, 64, 64, 255)
    } else if thick && j % 16 < 2 && is_ten_multiple((y0 as i64) + (j / 16) as i64) {
        Pixel::new(64, 64, 64, 255)
    } else if thick && i % 16 < 2 && is_ten_multiple((x0 as i64) + (i / 16) as i64) {
        Pixel::new(64, 64, 64, 255)
    } else if j == bh - 1 {
        Pixel::new(128, 128, 128, 255)
    } else if i == bw - 1 {
        Pixel::new(128, 128, 128, 255)
    } else if j % 16 == 0 {
        Pixel::new(128, 128, 128, 255)
    } else if i % 16 == 0 {
        Pixel::new(128, 128, 128, 255)
    } else {
        let cx = i / 16;
        let cy = j / 16;
        let c = image.get(cx, cy);
        let fill = if colorize && c.a != 0 {
            c
        } else {
            Pixel::new(255, 255, 255, 255)
        };
        if add_symbol && c.a != 0 {
            match find_info(mappings, c) {
                Some(idx) => {
                    let sym = if use_alphanum {
                        &mappings[idx].symbol_alphanum
                    } else {
                        &mappings[idx].symbol
                    };
                    proof {
                        assert(infos_symbols(mappings@, use_alphanum)[idx as int] == *sym);
                    }
                    let sp = sym.get(i % 16, j % 16);
                    if sp != mask {
                        contrast_ink_for(fill)
                    } else {
                        fill
                    }
                },
                None => {
                    // unreachable: the palette covers every opaque color
                    proof {
                        assert(find_color(infos_palette(mappings@), c) >= 0);
                    }
                    fill
                },
            }
        } else {
            fill
        }
    }
}

/// Renders the scaled pattern canvas: a `TILE` x `TILE` cell per source
/// pixel (fill and symbol according to the variant), the full 1-unit grid
/// with its closing lines, the logical 10-unit grid when asked for, and
/// interior origin bars when asked for. Every output pixel is exactly
/// `core_pixel` of the inputs.
#[verifier::rlimit(60)]
pub fn render_pattern_cells(
    image: &PixelBuffer,
    mappings: &Vec<ColorInfo>,
    use_alphanum: bool,
    colorize: bool,
    add_symbol: bool,
    mask: Pixel,
    x0: i32,
    y0: i32,
    thick: bool,
    origin_bars: bool,
) -> (r: PixelBuffer)
    requires
        image.wf(),
        1 <= image.w() <= MAX_PATTERN_DIM,
        1 <= image.h() <= MAX_PATTERN_DIM,
        -MAX_COORD <= x0 <= MAX_COORD,
        -MAX_COORD <= y0 <= MAX_COORD,
        symbols_wf(infos_symbols(mappings@, use_alphanum)),
        add_symbol ==> palette_covers(
            *image,
            infos_palette(mappings@),
            infos_symbols(mappings@, use_alphanum).len() as int,
        ),
    ensures
        r.wf(),
        r.w() == 16 * image.w(),
        r.h() == 16 * image.h(),
        forall|i: int, j: int|
            0 <= i < r.w() && 0 <= j < r.h() ==> r.pix(i, j) == core_pixel(
                *image,
                infos_palette(mappings@),
                infos_symbols(mappings@, use_alphanum),
                colorize,
                add_symbol,
                mask,
                x0 as int,
                y0 as int,
                thick,
                origin_bars,
                i,
                j,
            ),
{
    let w = image.width();
    let h = image.height();
    let bw: usize = 16 * w;
    let bh: usize = 16 * h;
    let mut r = PixelBuffer::new_filled(bw, bh, Pixel::new(255, 255, 255, 255));
    let mut j: usize = 0;
    while j < bh
        invariant
            image.wf(),
            1 <= image.w() <= MAX_PATTERN_DIM,
            1 <= image.h() <= MAX_PATTERN_DIM,
            -MAX_COORD <= x0 <= MAX_COORD,
            -MAX_COORD <= y0 <= MAX_COORD,
            symbols_wf(infos_symbols(mappings@, use_alphanum)),
            add_symbol ==> palette_covers(
                *image,
                infos_palette(mappings@),
                infos_symbols(mappings@, use_alphanum).len() as int,
            ),
            w == image.w(),
            h == image.h(),
            bw == 16 * w,
            bh == 16 * h,
            r.wf(),
            r.w() == bw,
            r.h() == bh,
            j <= bh,
            forall|a: int, b: int|
                0 <= a < bw && 0 <= b < j ==> r.pix(a, b) == core_pixel(
                    *image,
                    infos_palette(mappings@),
                    infos_symbols(mappings@, use_alphanum),
                    colorize,
                    add_symbol,
                    mask,
                    x0 as int,
                    y0 as int,
                    thick,
                    origin_bars,
                    a,
                    b,
                ),
        decreases bh - j,
    {
        let mut i: usize = 0;
        while i < bw
            invariant
                image.wf(),
                1 <= image.w() <= MAX_PATTERN_DIM,
                1 <= image.h() <= MAX_PATTERN_DIM,
                -MAX_COORD <= x0 <= MAX_COORD,
                -MAX_COORD <= y0 <= MAX_COORD,
                symbols_wf(infos_symbols(mappings@, use_alphanum)),
                add_symbol ==> palette_covers(
                    *image,
                    infos_palette(mappings@),
                    infos_symbols(mappings@, use_alphanum).len() as int,
                ),
                w == image.w(),
                h == image.h(),
                bw == 16 * w,
                bh == 16 * h,
                r.wf(),
                r.w() == bw,
                r.h() == bh,
                j < bh,
                i <= bw,
                forall|a: int, b: int|
                    0 <= a < bw && 0 <= b < j ==> r.pix(a, b) == core_pixel(
                        *image,
                        infos_palette(mappings@),
                        infos_symbols(mappings@, use_alphanum),
                        colorize,
                        add_symbol,
                        mask,
                        x0 as int,
                        y0 as int,
                        thick,
                        origin_bars,
                        a,
                        b,
                    ),
                forall|a: int|
                    0 <= a < i ==> r.pix(a, j as int) == core_pixel(
                        *image,
                        infos_palette(mappings@),
                        infos_symbols(mappings@, use_alphanum),
                        colorize,
                        add_symbol,
                        mask,
                        x0 as int,
                        y0 as int,
                        thick,
                        origin_bars,
                        a,
                        j as int,
                    ),
            decreases bw - i,
        {
            let p = core_pixel_at(
                image,
                mappings,
                use_alphanum,
                colorize,
                add_symbol,
                mask,
                x0,
                y0,
                thick,
                origin_bars,
                i,
                j,
            );
            r.set(i, j, p);
            i = i + 1;
        }
        j = j + 1;
    }
    r
}

/// Extra pixels added on each side so an origin bar falling exactly on a
/// canvas edge stays visible.
pub open spec fn pad_l(origin_bars: bool, x0: int) -> int {
    if origin_bars && x0 == 0 {
        2
    } else {
        0
    }
}

pub open spec fn pad_t(origin_bars: bool, y0: int) -> int {
    if origin_bars && y0 == 0 {
        2
    } else {
        0
    }
}

pub open spec fn pad_r(origin_bars: bool, x0: int, w: int) -> int {
    if origin_bars && x0 + w == 0 {
        2
    } else {
        0
    }
}

pub open spec fn pad_b(origin_bars: bool, y0: int, h: int) -> int {
    if origin_bars && y0 + h == 0 {
        2
    } else {
        0
    }
}

/// Output pixel `(i, j)` of the pattern canvas after the origin-edge
/// padding: edge origin bars over the padded core canvas.
pub open spec fn edged_pixel(
    image: PixelBuffer,
    palette: Seq<(Pixel, nat)>,
    symbols: Seq<PixelBuffer>,
    colorize: bool,
    add_symbol: bool,
    mask: Pixel,
    x0: int,
    y0: int,
    thick: bool,
    origin_bars: bool,
    i: int,
    j: int,
) -> Pixel {
    let w = image.w();
    let h = image.h();
    let bw = 16 * w;
    let bh = 16 * h;
    let pl = pad_l(origin_bars, x0);
    let pt = pad_t(origin_bars, y0);
    if origin_bars && y0 == 0 && 1 <= j < 3 {
        white()
    } else if origin_bars && y0 == 0 && 0 <= j < 4 {
        black()
    } else if origin_bars && y0 + h == 0 && bh - 1 <= j < bh + 1 {
        white()
    } else if origin_bars && y0 + h == 0 && bh - 2 <= j < bh + 2 {
        black()
    } else if origin_bars && x0 == 0 && 1 <= i < 3 {
        white()
    } else if origin_bars && x0 == 0 && 0 <= i < 4 {
        black()
    } else if origin_bars && x0 + w == 0 && bw - 1 <= i < bw + 1 {
        white()
    } else if origin_bars && x0 + w == 0 && bw - 2 <= i < bw + 2 {
        black()
    } else if pl <= i < pl + bw && pt <= j < pt + bh {
        core_pixel(
            image,
            palette,
            symbols,
            colorize,
            add_symbol,
            mask,
            x0,
            y0,
            thick,
            origin_bars,
            i - pl,
            j - pt,
        )
    } else {
        white()
    }
}

/// Renders the pattern canvas, padding an edge outward by two pixels and
/// drawing the black-over-white origin bar there whenever the logical
/// origin line falls exactly on that edge.
#[verifier::rlimit(80)]
pub fn render_pattern_canvas(
    image: &PixelBuffer,
    mappings: &Vec<ColorInfo>,
    use_alphanum: bool,
    colorize: bool,
    add_symbol: bool,
    mask: Pixel,
    x0: i32,
    y0: i32,
    thick: bool,
    origin_bars: bool,
) -> (r: PixelBuffer)
    requires
        image.wf(),
        1 <= image.w() <= MAX_PATTERN_DIM,
        1 <= image.h() <= MAX_PATTERN_DIM,
        -MAX_COORD <= x0 <= MAX_COORD,
        -MAX_COORD <= y0 <= MAX_COORD,
        symbols_wf(infos_symbols(mappings@, use_alphanum)),
        add_symbol ==> palette_covers(
            *image,
            infos_palette(mappings@),
            infos_symbols(mappings@, use_alphanum).len() as int,
        ),
    ensures
        r.wf(),
        r.w() == 16 * image.w() + pad_l(origin_bars, x0 as int) + pad_r(
            origin_bars,
            x0 as int,
            image.w(),
        ),
        r.h() == 16 * image.h() + pad_t(origin_bars, y0 as int) + pad_b(
            origin_bars,
            y0 as int,
            image.h(),
        ),
        forall|i: int, j: int|
            0 <= i < r.w() && 0 <= j < r.h() ==> r.pix(i, j) == edged_pixel(
                *image,
                infos_palette(mappings@),
                infos_symbols(mappings@, use_alphanum),
                colorize,
                add_symbol,
                mask,
                x0 as int,
                y0 as int,
                thick,
                origin_bars,
                i,
                j,
            ),
{
    let core = render_pattern_cells(
        image,
        mappings,
        use_alphanum,
        colorize,
        add_symbol,
        mask,
        x0,
        y0,
        thick,
        origin_bars,
    );
    if !origin_bars {
        return core;
    }
    let w = image.width();
    let h = image.height();
    let bw: usize = 16 * w;
    let bh: usize = 16 * h;
    let grid_left = x0 == 0;
    let grid_top = y0 == 0;
    let grid_right = (x0 as i64) + (w as i64) == 0;
    let grid_bottom = (y0 as i64) + (h as i64) == 0;
    let pl: usize = if grid_left {
        2
    } else {
        0
    };
    let pt: usize = if grid_top {
        2
    } else {
        0
    };
    let pr: usize = if grid_right {
        2
    } else {
        0
    };
    let pb: usize = if grid_bottom {
        2
    } else {
        0
    };
    let mut r = core.extended(pl, pt, pr, pb, Pixel::new(255, 255, 255, 255));
    let rw: usize = bw + pl + pr;
    let rh: usize = bh + pt + pb;
    if grid_left {
        r.fill_rect(0, 0, 4, rh, Pixel::new(0, 0, 0, 255));
        r.fill_rect(1, 0, 2, rh, Pixel::new(255, 255, 255, 255));
    }
    if grid_right {
        r.fill_rect(bw - 2, 0, 4, rh, Pixel::new(0, 0, 0, 255));
        r.fill_rect(bw - 1, 0, 2, rh, Pixel::new(255, 255, 255, 255));
    }
    if grid_top {
        r.fill_rect(0, 0, rw, 4, Pixel::new(0, 0, 0, 255));
        r.fill_rect(0, 1, rw, 2, Pixel::new(255, 255, 255, 255));
    }
    if grid_bottom {
        r.fill_rect(0, bh - 2, rw, 4, Pixel::new(0, 0, 0, 255));
        r.fill_rect(0, bh - 1, rw, 2, Pixel::new(255, 255, 255, 255));
    }
    r
}

/// An image of only fully-transparent pixels renders to a blank canvas:
/// every pixel is the white background or a grid gray -- no color fill
/// and no symbol ink.
pub proof fn lemma_blank_canvas(
    image: PixelBuffer,
    palette: Seq<(Pixel, nat)>,
    symbols: Seq<PixelBuffer>,
    colorize: bool,
    add_symbol: bool,
    mask: Pixel,
    x0: int,
    y0: int,
    thick: bool,
    i: int,
    j: int,
)
    requires
        forall|x: int, y: int|
            0 <= x < image.w() && 0 <= y < image.h() ==> (#[trigger] image.pix(x, y)).a == 0,
        0 <= i < 16 * image.w(),
        0 <= j < 16 * image.h(),
    ensures
        core_pixel(image, palette, symbols, colorize, add_symbol, mask, x0, y0, thick, false, i, j)
            == white() || core_pixel(
            image,
            palette,
            symbols,
            colorize,
            add_symbol,
            mask,
            x0,
            y0,
            thick,
            false,
            i,
            j,
        ) == grid_thin() || core_pixel(
            image,
            palette,
            symbols,
            colorize,
            add_symbol,
            mask,
            x0,
            y0,
            thick,
            false,
            i,
            j,
        ) == grid_thick(),
{
    lemma_div16(i, image.w());
    lemma_div16(j, image.h());
    assert(image.pix(i / 16, j / 16).a == 0);
}

/// Column `i` of the scaled canvas carries a vertical 1-unit grid line.
pub open spec fn is_thin_vline(w: int, i: int) -> bool {
    (i % 16 == 0 && i < 16 * w) || i == 16 * w - 1
}

/// Row `j` of the scaled canvas carries a horizontal 1-unit grid line.
pub open spec fn is_thin_hline(h: int, j: int) -> bool {
    (j % 16 == 0 && j < 16 * h) || j == 16 * h - 1
}

/// The `k`th vertical grid-line column: the leading edge of cell `k`, or
/// the closing line at the far edge for `k == w`.
pub open spec fn vline_col(w: int, k: int) -> int {
    if k < w {
        16 * k
    } else {
        16 * w - 1
    }
}

/// Grid-closing invariant: with the 10-grid and origin bars off, the
/// canvas for a `w` x `h` image shows a vertical 1-unit grid line in
/// exactly the `w + 1` distinct columns enumerated by `vline_col` (the
/// leading edge of each cell column plus the closing line at the far
/// right), and the same holds for rows.
pub proof fn lemma_grid_closing(
    image: PixelBuffer,
    palette: Seq<(Pixel, nat)>,
    symbols: Seq<PixelBuffer>,
    colorize: bool,
    add_symbol: bool,
    mask: Pixel,
    x0: int,
    y0: int,
)
    requires
        1 <= image.w(),
        1 <= image.h(),
    ensures
        forall|i: int, j: int|
            0 <= i < 16 * image.w() && 0 <= j < 16 * image.h() && is_thin_vline(image.w(), i)
                ==> core_pixel(
                image,
                palette,
                symbols,
                colorize,
                add_symbol,
                mask,
                x0,
                y0,
                false,
                false,
                i,
                j,
            ) == grid_thin(),
        forall|i: int, j: int|
            0 <= i < 16 * image.w() && 0 <= j < 16 * image.h() && is_thin_hline(image.h(), j)
                ==> core_pixel(
                image,
                palette,
                symbols,
                colorize,
                add_symbol,
                mask,
                x0,
                y0,
                false,
                false,
                i,
                j,
            ) == grid_thin(),
        forall|k: int|
            0 <= k <= image.w() ==> is_thin_vline(image.w(), #[trigger] vline_col(image.w(), k))
                && 0 <= vline_col(image.w(), k) < 16 * image.w(),
        forall|k1: int, k2: int|
            0 <= k1 < k2 <= image.w() ==> vline_col(image.w(), k1) != vline_col(image.w(), k2),
        forall|i: int|
            0 <= i < 16 * image.w() && is_thin_vline(image.w(), i) ==> exists|k: int|
                0 <= k <= image.w() && vline_col(image.w(), k) == i,
{
    let w = image.w();
    assert forall|k: int| 0 <= k <= w implies is_thin_vline(w, #[trigger] vline_col(w, k)) && 0
        <= vline_col(w, k) < 16 * w by {
        if k < w {
            assert((16 * k) % 16 == 0) by (nonlinear_arith);
            assert(16 * k < 16 * w) by (nonlinear_arith)
                requires
                    k < w,
            ;
        }
    }
    assert forall|k1: int, k2: int| 0 <= k1 < k2 <= w implies vline_col(w, k1) != vline_col(
        w,
        k2,
    ) by {
        if k2 < w {
            assert(16 * k1 != 16 * k2) by (nonlinear_arith)
                requires
                    k1 != k2,
            ;
        } else {
            assert(16 * k1 <= 16 * (w - 1)) by (nonlinear_arith)
                requires
                    k1 <= w - 1,
            ;
        }
    }
    assert forall|i: int| 0 <= i < 16 * w && is_thin_vline(w, i) implies exists|k: int|
        0 <= k <= w && vline_col(w, k) == i by {
        if i % 16 == 0 && i < 16 * w {
            vstd::arithmetic::div_mod::lemma_fundamental_div_mod(i, 16);
            lemma_div16(i, w);
            assert(vline_col(w, i / 16) == i);
        } else {
            assert(vline_col(w, w) == i);
        }
    }
}

proof fn lemma_div10_shift(v: int, s: int)
    requires
        s % 10 == 0,
    ensures
        div10(v + s) == div10(v),
{
    vstd::arithmetic::div_mod::lemma_fundamental_div_mod(s, 10);
    lemma_mod_multiples_vanish(s / 10, v, 10);
    assert(v + s == 10 * (s / 10) + v);
}

/// 10-grid alignment is logical-origin-relative: shifting the logical
/// origin by any multiple of ten leaves every pixel of the rendered canvas
/// unchanged (origin bars aside, which mark the absolute origin).
pub proof fn lemma_ten_grid_origin_shift(
    image: PixelBuffer,
    palette: Seq<(Pixel, nat)>,
    symbols: Seq<PixelBuffer>,
    colorize: bool,
    add_symbol: bool,
    mask: Pixel,
    x0: int,
    y0: int,
    sx: int,
    sy: int,
    thick: bool,
    i: int,
    j: int,
)
    requires
        div10(sx),
        div10(sy),
    ensures
        core_pixel(
            image,
            palette,
            symbols,
            colorize,
            add_symbol,
            mask,
            x0 + sx,
            y0 + sy,
            thick,
            false,
            i,
            j,
        ) == core_pixel(
            image,
            palette,
            symbols,
            colorize,
            add_symbol,
            mask,
            x0,
            y0,
            thick,
            false,
            i,
            j,
        ),
{
    lemma_div10_shift(y0 + image.h(), sy);
    lemma_div10_shift(x0 + image.w(), sx);
    lemma_div10_shift(y0 + j / 16, sy);
    lemma_div10_shift(x0 + i / 16, sx);
    assert(y0 + sy + image.h() == (y0 + image.h()) + sy);
    assert(x0 + sx + image.w() == (x0 + image.w()) + sx);
    assert(y0 + sy + j / 16 == (y0 + j / 16) + sy);
    assert(x0 + sx + i / 16 == (x0 + i / 16) + sx);
}

} // verus!
