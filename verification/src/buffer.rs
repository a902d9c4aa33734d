use vstd::prelude::*;

use crate::pixel::Pixel;

verus! {

/// Largest width or height a buffer may have. Keeps every row-major index
/// and every scaled canvas size well inside `usize` on any platform.
pub const MAX_DIM: usize = 32768;

/// A dense row-major RGBA8 buffer. Whether the channels are premultiplied
/// by alpha is tracked by the operations a caller chooses, not by the type.
pub struct PixelBuffer {
    width: usize,
    height: usize,
    data: Vec<Pixel>,
}

/// Both dimensions within the library's capacity bound.
pub open spec fn dims_ok(w: int, h: int) -> bool {
    0 <= w <= MAX_DIM && 0 <= h <= MAX_DIM
}

/// `a` and `b` have the same dimensions and the same pixels.
pub open spec fn same_image(a: PixelBuffer, b: PixelBuffer) -> bool {
    &&& a.w() == b.w()
    &&& a.h() == b.h()
    &&& forall|x: int, y: int|
        0 <= x < a.w() && 0 <= y < a.h() ==> a.pix(x, y) == b.pix(x, y)
}

/// `(px, py)` lies in the rectangle of size `rw` x `rh` whose top-left
/// corner is `(rx, ry)`.
pub open spec fn in_rect(px: int, py: int, rx: int, ry: int, rw: int, rh: int) -> bool {
    rx <= px < rx + rw && ry <= py < ry + rh
}

/// `(px, py)` lies on the 1-pixel border of the rectangle `(rx, ry, rw, rh)`.
pub open spec fn on_outline(px: int, py: int, rx: int, ry: int, rw: int, rh: int) -> bool {
    in_rect(px, py, rx, ry, rw, rh) && (px == rx || px == rx + rw - 1 || py == ry || py == ry + rh
        - 1)
}

pub proof fn lemma_row_major_in_range(x: int, y: int, w: int, h: int)
    by (nonlinear_arith)
    requires
        0 <= x < w,
        0 <= y < h,
    ensures
        0 <= y * w + x < w * h,
{
}

pub proof fn lemma_row_major_injective(x1: int, y1: int, x2: int, y2: int, w: int)
    by (nonlinear_arith)
    requires
        0 <= x1 < w,
        0 <= x2 < w,
        0 <= y1,
        0 <= y2,
        !(x1 == x2 && y1 == y2),
    ensures
        y1 * w + x1 != y2 * w + x2,
{
}

impl PixelBuffer {
    /// The buffer holds exactly `width * height` pixels.
    pub closed spec fn data_ok(self) -> bool {
        self.data.len() == self.width * self.height
    }

    /// The buffer holds exactly `width * height` pixels and fits the
    /// capacity bound.
    pub open spec fn wf(self) -> bool {
        &&& self.data_ok()
        &&& dims_ok(self.w(), self.h())
    }

    pub closed spec fn w(self) -> int {
        self.width as int
    }

    pub closed spec fn h(self) -> int {
        self.height as int
    }

    /// The pixel in column `x` of row `y`.
    pub closed spec fn pix(self, x: int, y: int) -> Pixel {
        self.data[y * self.width + x]
    }

    /// All pixels in row-major order.
    pub closed spec fn pixels(self) -> Seq<Pixel> {
        self.data@
    }

    pub proof fn lemma_pixels(self)
        requires
            self.wf(),
        ensures
            self.pixels().len() == self.w() * self.h(),
            forall|x: int, y: int|
                0 <= x < self.w() && 0 <= y < self.h() ==> #[trigger] self.pix(x, y)
                    == self.pixels()[y * self.w() + x],
    {
    }

    /// The pixel at row-major position `i`.
    pub fn get_linear(&self, i: usize) -> (p: Pixel)
        requires
            self.wf(),
            i < self.pixels().len(),
        ensures
            p == self.pixels()[i as int],
    {
        self.data[i]
    }

    /// The number of pixels, `width * height`.
    pub fn pixel_count(&self) -> (n: usize)
        requires
            self.wf(),
        ensures
            n == self.pixels().len(),
            n == self.w() * self.h(),
    {
        self.data.len()
    }

    pub fn width(&self) -> (w: usize)
        ensures
            w == self.w(),
    {
        self.width
    }

    pub fn height(&self) -> (h: usize)
        ensures
            h == self.h(),
    {
        self.height
    }

    /// A `width` x `height` buffer with every pixel set to `fill`.
    pub fn new_filled(width: usize, height: usize, fill: Pixel) -> (r: PixelBuffer)
        requires
            dims_ok(width as int, height as int),
        ensures
            r.wf(),
            r.w() == width,
            r.h() == height,
            forall|x: int, y: int| 0 <= x < width && 0 <= y < height ==> r.pix(x, y) == fill,
    {
        proof {
            assert(width * height <= MAX_DIM * MAX_DIM) by (nonlinear_arith)
                requires
                    0 <= width <= MAX_DIM,
                    0 <= height <= MAX_DIM,
            ;
        }
        let total: usize = width * height;
        let mut data: Vec<Pixel> = Vec::new();
        let mut i: usize = 0;
        while i < total
            invariant
                i <= total,
                data.len() == i,
                forall|j: int| 0 <= j < i ==> data[j] == fill,
            decreases total - i,
        {
            data.push(fill);
            i = i + 1;
        }
        let r = PixelBuffer { width, height, data };
        proof {
            assert forall|x: int, y: int|
                0 <= x < width && 0 <= y < height implies r.pix(x, y) == fill by {
                lemma_row_major_in_range(x, y, width as int, height as int);
            }
        }
        r
    }

    /// Builds a buffer from a flat RGBA byte stream, four bytes per pixel
    /// in row-major order, as an image decoder hands it out.
    pub fn from_rgba_bytes(width: usize, height: usize, bytes: &Vec<u8>) -> (r: PixelBuffer)
        requires
            dims_ok(width as int, height as int),
            bytes@.len() == 4 * width * height,
        ensures
            r.wf(),
            r.w() == width,
            r.h() == height,
            forall|i: int|
                0 <= i < width * height ==> #[trigger] r.pixels()[i] == (Pixel {
                    r: bytes@[4 * i],
                    g: bytes@[4 * i + 1],
                    b: bytes@[4 * i + 2],
                    a: bytes@[4 * i + 3],
                }),
    {
        let blen = bytes.len();
        proof {
            assert((width as int) * (height as int) <= bytes@.len() && 4 * ((width as int)
                * (height as int)) == bytes@.len()) by (nonlinear_arith)
                requires
                    bytes@.len() == 4 * width * height,
                    0 <= width,
                    0 <= height,
            ;
        }
        let total: usize = width * height;
        let mut data: Vec<Pixel> = Vec::new();
        let mut i: usize = 0;
        while i < total
            invariant
                total == width * height,
                bytes@.len() == 4 * total,
                blen == bytes@.len(),
                i <= total,
                data@.len() == i,
                forall|k: int|
                    0 <= k < i ==> #[trigger] data@[k] == (Pixel {
                        r: bytes@[4 * k],
                        g: bytes@[4 * k + 1],
                        b: bytes@[4 * k + 2],
                        a: bytes@[4 * k + 3],
                    }),
            decreases total - i,
        {
            let p = Pixel {
                r: bytes[4 * i],
                g: bytes[4 * i + 1],
                b: bytes[4 * i + 2],
                a: bytes[4 * i + 3],
            };
            data.push(p);
            i = i + 1;
        }
        PixelBuffer { width, height, data }
    }

    /// The buffer's pixels as a flat RGBA byte stream, four bytes per
    /// pixel in row-major order, ready for an image encoder.
    pub fn to_rgba_bytes(&self) -> (r: Vec<u8>)
        requires
            self.wf(),
        ensures
            r@.len() == 4 * self.pixels().len(),
            forall|i: int|
                0 <= i < self.pixels().len() ==> r@[4 * i] == (#[trigger] self.pixels()[i]).r
                    && r@[4 * i + 1] == self.pixels()[i].g && r@[4 * i + 2]
                    == self.pixels()[i].b && r@[4 * i + 3] == self.pixels()[i].a,
    {
        let total = self.data.len();
        proof {
            assert(4 * total <= 4 * (MAX_DIM * MAX_DIM)) by (nonlinear_arith)
                requires
                    total == self.pixels().len(),
                    self.pixels().len() == self.w() * self.h(),
                    0 <= self.w() <= MAX_DIM,
                    0 <= self.h() <= MAX_DIM,
            ;
        }
        let mut out: Vec<u8> = Vec::new();
        let mut i: usize = 0;
        while i < total
            invariant
                self.wf(),
                total == self.pixels().len(),
                total <= MAX_DIM * MAX_DIM,
                i <= total,
                out@.len() == 4 * i,
                forall|k: int|
                    0 <= k < i ==> out@[4 * k] == (#[trigger] self.pixels()[k]).r && out@[4 * k
                        + 1] == self.pixels()[k].g && out@[4 * k + 2] == self.pixels()[k].b
                        && out@[4 * k + 3] == self.pixels()[k].a,
            decreases total - i,
        {
            let p = self.data[i];
            out.push(p.r);
            out.push(p.g);
            out.push(p.b);
            out.push(p.a);
            i = i + 1;
        }
        out
    }

    /// Bounds-checked read.
    pub fn get(&self, x: usize, y: usize) -> (p: Pixel)
        requires
            self.wf(),
            x < self.w(),
            y < self.h(),
        ensures
            p == self.pix(x as int, y as int),
    {
        proof {
            lemma_row_major_in_range(x as int, y as int, self.w(), self.h());
        }
        self.data[y * self.width + x]
    }

    /// Fills the rectangle of size `rw` x `rh` whose top-left corner is
    /// `(rx, ry)` with `fill`; every other pixel keeps its value.
    pub fn fill_rect(&mut self, rx: usize, ry: usize, rw: usize, rh: usize, fill: Pixel)
        requires
            old(self).wf(),
            rx + rw <= old(self).w(),
            ry + rh <= old(self).h(),
        ensures
            final(self).wf(),
            final(self).w() == old(self).w(),
            final(self).h() == old(self).h(),
            forall|i: int, j: int|
                0 <= i < old(self).w() && 0 <= j < old(self).h() ==> final(self).pix(i, j) == (
                if in_rect(i, j, rx as int, ry as int, rw as int, rh as int) {
                    fill
                } else {
                    old(self).pix(i, j)
                }),
    {
        let mut dy: usize = 0;
        while dy < rh
            invariant
                self.wf(),
                self.w() == old(self).w(),
                self.h() == old(self).h(),
                dy <= rh,
                rx + rw <= self.w(),
                ry + rh <= self.h(),
                forall|i: int, j: int|
                    0 <= i < self.w() && 0 <= j < self.h() ==> self.pix(i, j) == (if in_rect(
                        i,
                        j,
                        rx as int,
                        ry as int,
                        rw as int,
                        dy as int,
                    ) {
                        fill
                    } else {
                        old(self).pix(i, j)
                    }),
            decreases rh - dy,
        {
            let mut dx: usize = 0;
            while dx < rw
                invariant
                    self.wf(),
                    self.w() == old(self).w(),
                    self.h() == old(self).h(),
                    dy < rh,
                    dx <= rw,
                    rx + rw <= self.w(),
                    ry + rh <= self.h(),
                    forall|i: int, j: int|
                        0 <= i < self.w() && 0 <= j < self.h() ==> self.pix(i, j) == (if in_rect(
                            i,
                            j,
                            rx as int,
                            ry as int,
                            rw as int,
                            dy as int,
                        ) || (j == ry + dy && rx <= i < rx + dx) {
                            fill
                        } else {
                            old(self).pix(i, j)
                        }),
                decreases rw - dx,
            {
                self.set(rx + dx, ry + dy, fill);
                dx = dx + 1;
            }
            dy = dy + 1;
        }
    }

    /// Draws the 1-pixel border of the rectangle `(rx, ry, rw, rh)` in
    /// `ink`; the rectangle's interior and everything outside keep their
    /// values.
    pub fn draw_rect_outline(&mut self, rx: usize, ry: usize, rw: usize, rh: usize, ink: Pixel)
        requires
            old(self).wf(),
            1 <= rw,
            1 <= rh,
            rx + rw <= old(self).w(),
            ry + rh <= old(self).h(),
        ensures
            final(self).wf(),
            final(self).w() == old(self).w(),
            final(self).h() == old(self).h(),
            forall|i: int, j: int|
                0 <= i < old(self).w() && 0 <= j < old(self).h() ==> final(self).pix(i, j) == (
                if on_outline(i, j, rx as int, ry as int, rw as int, rh as int) {
                    ink
                } else {
                    old(self).pix(i, j)
                }),
    {
        self.fill_rect(rx, ry, rw, 1, ink);
        self.fill_rect(rx, ry + rh - 1, rw, 1, ink);
        self.fill_rect(rx, ry, 1, rh, ink);
        self.fill_rect(rx + rw - 1, ry, 1, rh, ink);
    }

    /// A new buffer grown by `left`, `top`, `right` and `bottom` pixels of
    /// `fill` on the respective sides, with this buffer's content translated
    /// by `(left, top)`.
    pub fn extended(&self, left: usize, top: usize, right: usize, bottom: usize, fill: Pixel) -> (r:
        PixelBuffer)
        requires
            self.wf(),
            dims_ok(self.w() + left + right, self.h() + top + bottom),
        ensures
            r.wf(),
            r.w() == self.w() + left + right,
            r.h() == self.h() + top + bottom,
            forall|i: int, j: int|
                0 <= i < r.w() && 0 <= j < r.h() ==> r.pix(i, j) == (if in_rect(
                    i,
                    j,
                    left as int,
                    top as int,
                    self.w(),
                    self.h(),
                ) {
                    self.pix(i - left, j - top)
                } else {
                    fill
                }),
    {
        let nw: usize = self.width + left + right;
        let nh: usize = self.height + top + bottom;
        let mut r = PixelBuffer::new_filled(nw, nh, fill);
        let mut y: usize = 0;
        while y < self.height
            invariant
                self.wf(),
                r.wf(),
                r.w() == self.w() + left + right,
                r.h() == self.h() + top + bottom,
                y <= self.h(),
                forall|i: int, j: int|
                    0 <= i < r.w() && 0 <= j < r.h() ==> r.pix(i, j) == (if in_rect(
                        i,
                        j,
                        left as int,
                        top as int,
                        self.w(),
                        y as int,
                    ) {
                        self.pix(i - left, j - top)
                    } else {
                        fill
                    }),
            decreases self.h() - y,
        {
            let mut x: usize = 0;
            while x < self.width
                invariant
                    self.wf(),
                    r.wf(),
                    r.w() == self.w() + left + right,
                    r.h() == self.h() + top + bottom,
                    y < self.h(),
                    x <= self.w(),
                    forall|i: int, j: int|
                        0 <= i < r.w() && 0 <= j < r.h() ==> r.pix(i, j) == (if in_rect(
                            i,
                            j,
                            left as int,
                            top as int,
                            self.w(),
                            y as int,
                        ) || (j == top + y && left <= i < left + x) {
                            self.pix(i - left, j - top)
                        } else {
                            fill
                        }),
                decreases self.w() - x,
            {
                let p = self.get(x, y);
                r.set(left + x, top + y, p);
                x = x + 1;
            }
            y = y + 1;
        }
        r
    }

    /// The `rw` x `rh` sub-rectangle whose top-left corner in this buffer
    /// is `(rx, ry)`, as a new buffer.
    pub fn sub_rect(&self, rx: usize, ry: usize, rw: usize, rh: usize) -> (r: PixelBuffer)
        requires
            self.wf(),
            rx + rw <= self.w(),
            ry + rh <= self.h(),
        ensures
            r.wf(),
            r.w() == rw,
            r.h() == rh,
            forall|i: int, j: int|
                0 <= i < rw && 0 <= j < rh ==> r.pix(i, j) == self.pix(rx + i, ry + j),
    {
        let mut r = PixelBuffer::new_filled(rw, rh, Pixel::new(0, 0, 0, 0));
        let mut y: usize = 0;
        while y < rh
            invariant
                self.wf(),
                r.wf(),
                r.w() == rw,
                r.h() == rh,
                y <= rh,
                rx + rw <= self.w(),
                ry + rh <= self.h(),
                forall|i: int, j: int|
                    0 <= i < rw && 0 <= j < y ==> r.pix(i, j) == self.pix(rx + i, ry + j),
            decreases rh - y,
        {
            let mut x: usize = 0;
            while x < rw
                invariant
                    self.wf(),
                    r.wf(),
                    r.w() == rw,
                    r.h() == rh,
                    y < rh,
                    x <= rw,
                    rx + rw <= self.w(),
                    ry + rh <= self.h(),
                    forall|i: int, j: int|
                        0 <= i < rw && 0 <= j < y ==> r.pix(i, j) == self.pix(rx + i, ry + j),
                    forall|i: int|
                        0 <= i < x ==> r.pix(i, y as int) == self.pix(rx + i, ry + y),
                decreases rw - x,
            {
                let p = self.get(rx + x, ry + y);
                r.set(x, y, p);
                x = x + 1;
            }
            y = y + 1;
        }
        r
    }

    /// Copies `src` into this buffer with its top-left corner at
    /// `(px, py)`; pixels outside the copied window keep their values.
    pub fn copy_blit(&mut self, src: &PixelBuffer, px: usize, py: usize)
        requires
            old(self).wf(),
            src.wf(),
            px + src.w() <= old(self).w(),
            py + src.h() <= old(self).h(),
        ensures
            final(self).wf(),
            final(self).w() == old(self).w(),
            final(self).h() == old(self).h(),
            forall|i: int, j: int|
                0 <= i < old(self).w() && 0 <= j < old(self).h() ==> final(self).pix(i, j) == (
                if px <= i < px + src.w() && py <= j < py + src.h() {
                    src.pix(i - px, j - py)
                } else {
                    old(self).pix(i, j)
                }),
    {
        let sw = src.width();
        let sh = src.height();
        let mut sy: usize = 0;
        while sy < sh
            invariant
                self.wf(),
                src.wf(),
                self.w() == old(self).w(),
                self.h() == old(self).h(),
                px + sw <= self.w(),
                py + sh <= self.h(),
                sw == src.w(),
                sh == src.h(),
                sy <= sh,
                forall|i: int, j: int|
                    0 <= i < old(self).w() && 0 <= j < old(self).h() ==> self.pix(i, j) == (if px
                        <= i < px + src.w() && py <= j < py + sy {
                        src.pix(i - px, j - py)
                    } else {
                        old(self).pix(i, j)
                    }),
            decreases sh - sy,
        {
            let mut sx: usize = 0;
            while sx < sw
                invariant
                    self.wf(),
                    src.wf(),
                    self.w() == old(self).w(),
                    self.h() == old(self).h(),
                    px + sw <= self.w(),
                    py + sh <= self.h(),
                    sw == src.w(),
                    sh == src.h(),
                    sy < sh,
                    sx <= sw,
                    forall|i: int, j: int|
                        0 <= i < old(self).w() && 0 <= j < old(self).h() ==> self.pix(i, j) == (
                        if px <= i < px + src.w() && (py <= j < py + sy || (j == py + sy && px <= i
                            < px + sx)) {
                            src.pix(i - px, j - py)
                        } else {
                            old(self).pix(i, j)
                        }),
                decreases sw - sx,
            {
                let p = src.get(sx, sy);
                self.set(px + sx, py + sy, p);
                sx = sx + 1;
            }
            sy = sy + 1;
        }
    }

    /// An exact copy of this buffer.
    pub fn duplicate(&self) -> (r: PixelBuffer)
        requires
            self.wf(),
        ensures
            r.wf(),
            same_image(r, *self),
    {
        self.sub_rect(0, 0, self.width, self.height)
    }

    /// True exactly when the two buffers have the same dimensions and the
    /// same pixel at every position.
    pub fn eq_image(&self, other: &PixelBuffer) -> (eq: bool)
        requires
            self.wf(),
            other.wf(),
        ensures
            eq == same_image(*self, *other),
    {
        if self.width != other.width || self.height != other.height {
            return false;
        }
        let mut y: usize = 0;
        while y < self.height
            invariant
                self.wf(),
                other.wf(),
                self.w() == other.w(),
                self.h() == other.h(),
                y <= self.h(),
                forall|i: int, j: int|
                    0 <= i < self.w() && 0 <= j < y ==> self.pix(i, j) == other.pix(i, j),
            decreases self.h() - y,
        {
            let mut x: usize = 0;
            while x < self.width
                invariant
                    self.wf(),
                    other.wf(),
                    self.w() == other.w(),
                    self.h() == other.h(),
                    y < self.h(),
                    x <= self.w(),
                    forall|i: int, j: int|
                        0 <= i < self.w() && 0 <= j < y ==> self.pix(i, j) == other.pix(i, j),
                    forall|i: int| 0 <= i < x ==> self.pix(i, y as int) == other.pix(i, y as int),
                decreases self.w() - x,
            {
                let p = self.get(x, y);
                let q = other.get(x, y);
                if p != q {
                    return false;
                }
                x = x + 1;
            }
            y = y + 1;
        }
        true
    }

    /// Bounds-checked write.
    pub fn set(&mut self, x: usize, y: usize, p: Pixel)
        requires
            old(self).wf(),
            x < old(self).w(),
            y < old(self).h(),
        ensures
            final(self).wf(),
            final(self).w() == old(self).w(),
            final(self).h() == old(self).h(),
            final(self).pix(x as int, y as int) == p,
            forall|i: int, j: int|
                0 <= i < old(self).w() && 0 <= j < old(self).h() && !(i == x && j == y)
                    ==> final(self).pix(i, j) == old(self).pix(i, j),
    {
        proof {
            lemma_row_major_in_range(x as int, y as int, self.w(), self.h());
        }
        let idx: usize = y * self.width + x;
        self.data.set(idx, p);
        proof {
            assert forall|i: int, j: int|
                0 <= i < old(self).w() && 0 <= j < old(self).h() && !(i == x && j == y)
                    implies final(self).pix(i, j) == old(self).pix(i, j) by {
                lemma_row_major_in_range(i, j, old(self).w(), old(self).h());
                lemma_row_major_injective(i, j, x as int, y as int, old(self).w());
            }
        }
    }
}

} // verus!
