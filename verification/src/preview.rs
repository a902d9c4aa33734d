use vstd::prelude::*;

use vstd::arithmetic::div_mod::lemma_fundamental_div_mod_converse;

use crate::blend::blend_spec;
use crate::blend::BlendMode;
use crate::buffer::same_image;
use crate::buffer::PixelBuffer;
use crate::canvas::infos_palette;
use crate::canvas::find_info;
use crate::palette::find_color;
use crate::pixel::transparent;
use crate::pixel::Pixel;
use crate::rng::rng_next;
use crate::rng::Random;
use crate::symbols::ColorInfo;

verus! {

/// Pixel `(i, j)` of the aida background layer: the tileable background
/// repeated across the canvas.
pub open spec fn bg_layer_pixel(bg: PixelBuffer, ew: int, eh: int, i: int, j: int) -> Pixel {
    if i / bg.w() <= ew / 8 && j / bg.h() <= eh / 8 {
        bg.pix(i % bg.w(), j % bg.h())
    } else {
        transparent()
    }
}

/// Tiles the background texture over a canvas for an `ew` x `eh` stitch
/// grid, one texture block per 8 x 8 stitches.
pub fn render_background_layer(bg: &PixelBuffer, ew: usize, eh: usize) -> (r: PixelBuffer)
    requires
        bg.wf(),
        8 <= bg.w() <= 256,
        8 <= bg.h() <= 256,
        1 <= ew <= 1024,
        1 <= eh <= 1024,
    ensures
        r.wf(),
        r.w() == (bg.w() / 8) * ew,
        r.h() == (bg.h() / 8) * eh,
        forall|i: int, j: int|
            0 <= i < r.w() && 0 <= j < r.h() ==> r.pix(i, j) == bg_layer_pixel(
                *bg,
                ew as int,
                eh as int,
                i,
                j,
            ),
{
    let tw: usize = bg.width() / 8;
    let th: usize = bg.height() / 8;
    proof {
        assert(1 <= tw <= 32 && 1 <= th <= 32) by (nonlinear_arith)
            requires
                tw == bg.w() / 8,
                th == bg.h() / 8,
                8 <= bg.w() <= 256,
                8 <= bg.h() <= 256,
        ;
        assert(tw * ew <= 32 * 1024 && 0 <= tw * ew && th * eh <= 32 * 1024 && 0 <= th * eh)
            by (nonlinear_arith)
            requires
                1 <= tw <= 32,
                1 <= th <= 32,
                1 <= ew <= 1024,
                1 <= eh <= 1024,
        ;
    }
    let rw: usize = tw * ew;
    let rh: usize = th * eh;
    let mut r = PixelBuffer::new_filled(rw, rh, Pixel::new(0, 0, 0, 0));
    let bw = bg.width();
    let bh = bg.height();
    let ew8: usize = ew / 8;
    let eh8: usize = eh / 8;
    let mut j: usize = 0;
    while j < rh
        invariant
            bg.wf(),
            r.wf(),
            r.w() == rw,
            r.h() == rh,
            bw == bg.w(),
            bh == bg.h(),
            8 <= bg.w() <= 256,
            8 <= bg.h() <= 256,
            ew8 == ew as int / 8,
            eh8 == eh as int / 8,
            j <= rh,
            forall|a: int, b: int|
                0 <= a < rw && 0 <= b < j ==> r.pix(a, b) == bg_layer_pixel(
                    *bg,
                    ew as int,
                    eh as int,
                    a,
                    b,
                ),
        decreases rh - j,
    {
        let mut i: usize = 0;
        while i < rw
            invariant
                bg.wf(),
                r.wf(),
                r.w() == rw,
                r.h() == rh,
                bw == bg.w(),
                bh == bg.h(),
                8 <= bg.w() <= 256,
                8 <= bg.h() <= 256,
                ew8 == ew as int / 8,
                eh8 == eh as int / 8,
                j < rh,
                i <= rw,
                forall|a: int, b: int|
                    0 <= a < rw && 0 <= b < j ==> r.pix(a, b) == bg_layer_pixel(
                        *bg,
                        ew as int,
                        eh as int,
                        a,
                        b,
                    ),
                forall|a: int|
                    0 <= a < i ==> r.pix(a, j as int) == bg_layer_pixel(
                        *bg,
                        ew as int,
                        eh as int,
                        a,
                        j as int,
                    ),
            decreases rw - i,
        {
            let p = if i / bw <= ew8 && j / bh <= eh8 {
                bg.get(i % bw, j % bh)
            } else {
                Pixel::new(0, 0, 0, 0)
            };
            r.set(i, j, p);
            i = i + 1;
        }
        j = j + 1;
    }
    r
}

/// The generator state after accounting the first `k` cells of the canvas
/// in row-major order; only opaque cells draw.
pub open spec fn preview_state(image: PixelBuffer, seed: u64, k: int) -> u64
    decreases k,
{
    if k <= 0 {
        seed
    } else {
        let prev = preview_state(image, seed, k - 1);
        if image.pix((k - 1) % image.w(), (k - 1) / image.w()).a != 0 {
            rng_next(prev)
        } else {
            prev
        }
    }
}

/// Pixel `(i, j)` of the stitch layer after the first `k` cells have been
/// stitched: each opaque cell draws one of its color's tinted stitch
/// textures, chosen by the seeded generator, centered on its cell and
/// composited over what is already there.
pub open spec fn stitch_layer_pixel(
    image: PixelBuffer,
    mappings: Seq<ColorInfo>,
    seed: u64,
    nstitch: int,
    tw: int,
    th: int,
    k: int,
    i: int,
    j: int,
) -> Pixel
    decreases k,
{
    if k <= 0 {
        transparent()
    } else {
        let prev = stitch_layer_pixel(image, mappings, seed, nstitch, tw, th, k - 1, i, j);
        let x = (k - 1) % image.w();
        let y = (k - 1) / image.w();
        let c = image.pix(x, y);
        if c.a != 0 {
            let choice = rng_next(preview_state(image, seed, k - 1)) % (nstitch as u64);
            let st = mappings[find_color(mappings.map_values(
                |e: ColorInfo| (e.color, e.count as nat),
            ), c)].stitches_premultiplied@[choice as int];
            let px = tw * x + tw / 2 - st.w() / 2;
            let py = th * y + tw / 2 - st.h() / 2;
            if px <= i < px + st.w() && py <= j < py + st.h() {
                blend_spec(BlendMode::Normal, st.pix(i - px, j - py), prev)
            } else {
                prev
            }
        } else {
            prev
        }
    }
}

/// The mapping set carries, for every opaque color of the canvas, a found
/// entry whose stitch textures are `nstitch` well-formed buffers of
/// bounded size.
pub open spec fn stitches_ok(
    image: PixelBuffer,
    mappings: Seq<ColorInfo>,
    nstitch: int,
) -> bool {
    &&& forall|x: int, y: int|
        0 <= x < image.w() && 0 <= y < image.h() && (#[trigger] image.pix(x, y)).a != 0 ==> 0
            <= find_color(infos_palette(mappings), image.pix(x, y)) < mappings.len()
    &&& forall|t: int|
        0 <= t < mappings.len() ==> (#[trigger] mappings[t]).stitches_premultiplied@.len()
            == nstitch
    &&& forall|t: int, u: int|
        0 <= t < mappings.len() && 0 <= u < nstitch ==> (
        #[trigger] mappings[t].stitches_premultiplied@[u]).wf()
            && mappings[t].stitches_premultiplied@[u].w() <= 512
            && mappings[t].stitches_premultiplied@[u].h() <= 512
}

/// Renders the stitch layer for an `ew` x `eh` canvas: every output pixel
/// is exactly `stitch_layer_pixel` of the inputs, so the layer is a pure
/// function of the canvas, the mappings and the seed.
#[verifier::rlimit(80)]
pub fn render_stitch_layer(
    image: &PixelBuffer,
    mappings: &Vec<ColorInfo>,
    seed: u64,
    nstitch: usize,
    tw: usize,
    th: usize,
) -> (r: PixelBuffer)
    requires
        image.wf(),
        1 <= image.w() <= 1024,
        1 <= image.h() <= 1024,
        1 <= nstitch <= 1000,
        1 <= tw <= 32,
        1 <= th <= 32,
        stitches_ok(*image, mappings@, nstitch as int),
    ensures
        r.wf(),
        r.w() == tw * image.w(),
        r.h() == th * image.h(),
        forall|i: int, j: int|
            0 <= i < r.w() && 0 <= j < r.h() ==> r.pix(i, j) == stitch_layer_pixel(
                *image,
                mappings@,
                seed,
                nstitch as int,
                tw as int,
                th as int,
                image.w() * image.h(),
                i,
                j,
            ),
{
    let w = image.width();
    let h = image.height();
    proof {
        assert(0 <= tw * w <= 32 * 1024 && 0 <= th * h <= 32 * 1024 && 0 <= w * h <= 1024 * 1024)
            by (nonlinear_arith)
            requires
                1 <= tw <= 32,
                1 <= th <= 32,
                1 <= w <= 1024,
                1 <= h <= 1024,
        ;
    }
    let rw: usize = tw * w;
    let rh: usize = th * h;
    let mut r = PixelBuffer::new_filled(rw, rh, Pixel::new(0, 0, 0, 0));
    let mut rng = Random::new_from_seed(seed);
    proof {
        assert forall|i: int, j: int|
            0 <= i < rw && 0 <= j < rh implies r.pix(i, j) == stitch_layer_pixel(
            *image,
            mappings@,
            seed,
            nstitch as int,
            tw as int,
            th as int,
            0,
            i,
            j,
        ) by {}
    }
    let mut y: usize = 0;
    while y < h
        invariant
            image.wf(),
            1 <= image.w() <= 1024,
            1 <= image.h() <= 1024,
            1 <= nstitch <= 1000,
            1 <= tw <= 32,
            1 <= th <= 32,
            stitches_ok(*image, mappings@, nstitch as int),
            w == image.w(),
            h == image.h(),
            rw == tw * w,
            rh == th * h,
            r.wf(),
            r.w() == rw,
            r.h() == rh,
            y <= h,
            rng.state == preview_state(*image, seed, y * w),
            forall|i: int, j: int|
                0 <= i < rw && 0 <= j < rh ==> r.pix(i, j) == stitch_layer_pixel(
                    *image,
                    mappings@,
                    seed,
                    nstitch as int,
                    tw as int,
                    th as int,
                    y * w,
                    i,
                    j,
                ),
        decreases h - y,
    {
        let mut x: usize = 0;
        while x < w
            invariant
                image.wf(),
                1 <= image.w() <= 1024,
                1 <= image.h() <= 1024,
                1 <= nstitch <= 1000,
                1 <= tw <= 32,
                1 <= th <= 32,
                stitches_ok(*image, mappings@, nstitch as int),
                w == image.w(),
                h == image.h(),
                rw == tw * w,
                rh == th * h,
                r.wf(),
                r.w() == rw,
                r.h() == rh,
                y < h,
                x <= w,
                rng.state == preview_state(*image, seed, y * w + x),
                forall|i: int, j: int|
                    0 <= i < rw && 0 <= j < rh ==> r.pix(i, j) == stitch_layer_pixel(
                        *image,
                        mappings@,
                        seed,
                        nstitch as int,
                        tw as int,
                        th as int,
                        y * w + x,
                        i,
                        j,
                    ),
            decreases w - x,
        {
            let ghost k = y * w + x;
            proof {
                lemma_fundamental_div_mod_converse(k as int, w as int, y as int, x as int);
                assert(k % w as int == x as int && k / w as int == y as int);
            }
            let c = image.get(x, y);
            if c.a != 0 {
                let idx = match find_info(mappings, c) {
                    Some(idx) => idx,
                    None => {
                        proof {
                            assert(find_color(infos_palette(mappings@), c) >= 0);
                        }
                        0
                    },
                };
                let choice = rng.u32_bounded_exclusive(nstitch as u32);
                let st = &mappings[idx].stitches_premultiplied[choice as usize];
                proof {
                    assert(0 <= (tw as int) * (x as int) <= 32 * 1024 && 0 <= (th as int) * (y
                        as int) <= 32 * 1024) by (nonlinear_arith)
                        requires
                            0 <= x <= 1024,
                            0 <= y <= 1024,
                            1 <= tw <= 32,
                            1 <= th <= 32,
                    ;
                }
                let px: i64 = (tw as i64) * (x as i64) + (tw as i64) / 2 - (st.width() as i64) / 2;
                let py: i64 = (th as i64) * (y as i64) + (tw as i64) / 2 - (st.height() as i64)
                    / 2;
                r.blend_blit(st, px as i32, py as i32, BlendMode::Normal);
            }
            x = x + 1;
            proof {
                assert(y * w + x == k + 1);
            }
        }
        proof {
            assert((y + 1) * w == y * w + w) by (nonlinear_arith);
        }
        y = y + 1;
    }
    proof {
        assert(h * w == w * h) by (nonlinear_arith);
    }
    r
}

/// The stitch layer is a function of the canvas's pixels alone: two
/// canvases with the same pixels, the same mappings and the same seed
/// yield the same generator states and the same layer, pixel for pixel.
pub proof fn lemma_preview_deterministic(
    e1: PixelBuffer,
    e2: PixelBuffer,
    mappings: Seq<ColorInfo>,
    seed: u64,
    nstitch: int,
    tw: int,
    th: int,
    k: int,
    i: int,
    j: int,
)
    requires
        same_image(e1, e2),
        1 <= e1.w(),
        0 <= k <= e1.w() * e1.h(),
    ensures
        preview_state(e1, seed, k) == preview_state(e2, seed, k),
        stitch_layer_pixel(e1, mappings, seed, nstitch, tw, th, k, i, j) == stitch_layer_pixel(
            e2,
            mappings,
            seed,
            nstitch,
            tw,
            th,
            k,
            i,
            j,
        ),
    decreases k,
{
    if k > 0 {
        lemma_preview_deterministic(e1, e2, mappings, seed, nstitch, tw, th, k - 1, i, j);
        let x = (k - 1) % e1.w();
        let y = (k - 1) / e1.w();
        vstd::arithmetic::div_mod::lemma_mod_bound(k - 1, e1.w());
        assert(0 <= y < e1.h()) by (nonlinear_arith)
            requires
                y == (k - 1) / e1.w(),
                0 <= k - 1 < e1.w() * e1.h(),
                1 <= e1.w(),
        ;
        assert(e1.pix(x, y) == e2.pix(x, y));
    }
}

} // verus!
