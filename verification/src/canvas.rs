//! An owned raster canvas: a row-major grid of opaque RGB pixels, with
//! clipped rectangle fills and the byte permutation an external image
//! encoder consumes.

use vstd::prelude::*;

verus! {

use vstd::arithmetic::div_mod::{
    lemma_fundamental_div_mod,
    lemma_fundamental_div_mod_converse,
    lemma_mod_bound,
};
use vstd::pervasive::VecAdditionalExecFns;

/// An opaque color: red, green and blue channels.
#[derive(Clone, Copy, Debug, PartialEq, Eq, Structural)]
pub struct Rgb {
    pub r: u8,
    pub g: u8,
    pub b: u8,
}

/// The mathematical contents of a canvas: its dimensions and the row-major
/// pixel grid.
#[verifier::ext_equal]
pub struct CanvasView {
    pub width: nat,
    pub height: nat,
    pub pixels: Seq<Rgb>,
}

impl CanvasView {
    /// The pixel grid holds exactly one entry per coordinate pair.
    pub open spec fn wf(self) -> bool {
        self.pixels.len() == self.width * self.height
    }

    /// Whether `(x, y)` addresses a pixel of this canvas.
    pub open spec fn in_bounds(self, x: int, y: int) -> bool {
        0 <= x < self.width && 0 <= y < self.height
    }

    /// The color at `(x, y)`; meaningful when `in_bounds(x, y)`.
    pub open spec fn pix(self, x: int, y: int) -> Rgb {
        self.pixels[y * (self.width as int) + x]
    }

    /// The column a flat pixel index lies in.
    pub open spec fn col_of(self, j: int) -> int {
        j % (self.width as int)
    }

    /// The row a flat pixel index lies in.
    pub open spec fn row_of(self, j: int) -> int {
        j / (self.width as int)
    }
}

/// Whether flat index `j` lies inside the axis-aligned rectangle with origin
/// `(x, y)`, width `w` and height `h`; parts of the rectangle outside the
/// canvas hold no index, so a fill is clipped by construction.
pub open spec fn rect_hits(cv: CanvasView, x: int, y: int, w: int, h: int, j: int) -> bool {
    x <= cv.col_of(j) < x + w && y <= cv.row_of(j) < y + h
}

/// The canvas after painting `color` over the given rectangle, clipped to
/// the canvas.
pub open spec fn rect_fill(cv: CanvasView, x: int, y: int, w: int, h: int, color: Rgb) -> CanvasView {
    CanvasView {
        pixels: Seq::new(
            cv.pixels.len(),
            |j: int| if rect_hits(cv, x, y, w, h, j) { color } else { cv.pixels[j] },
        ),
        ..cv
    }
}

/// Distinct in-bounds coordinate pairs have distinct flat indices, and a
/// flat index recovers its coordinates by division and remainder.
pub proof fn lemma_flat_index(cv: CanvasView, x: int, y: int)
    requires
        cv.wf(),
        cv.in_bounds(x, y),
    ensures
        0 <= y * (cv.width as int) + x < cv.pixels.len(),
        cv.col_of(y * (cv.width as int) + x) == x,
        cv.row_of(y * (cv.width as int) + x) == y,
{
    let w = cv.width as int;
    let h = cv.height as int;
    let j = y * w + x;
    assert(j < w * h && y * w + x >= 0) by (nonlinear_arith)
        requires
            0 <= x < w,
            0 <= y < h,
            j == y * w + x,
    ;
    lemma_fundamental_div_mod_converse(j, w, y, x);
}

/// Every flat index of a well-formed canvas lies at in-bounds coordinates,
/// and is recovered from them.
pub proof fn lemma_index_coords(cv: CanvasView, j: int)
    requires
        cv.wf(),
        0 <= j < cv.pixels.len(),
    ensures
        0 <= cv.col_of(j) < cv.width,
        0 <= cv.row_of(j) < cv.height,
        j == cv.row_of(j) * (cv.width as int) + cv.col_of(j),
{
    let w = cv.width as int;
    let h = cv.height as int;
    assert(w > 0 && h > 0) by (nonlinear_arith)
        requires
            cv.pixels.len() == cv.width * cv.height,
            0 <= j < cv.pixels.len(),
            w == cv.width as int,
            h == cv.height as int,
    ;
    lemma_fundamental_div_mod(j, w);
    lemma_mod_bound(j, w);
    assert(j / w < h) by (nonlinear_arith)
        requires
            w > 0,
            h > 0,
            j < w * h,
            j == w * (j / w) + j % w,
            0 <= j % w < w,
    ;
    assert(j / w >= 0) by (nonlinear_arith)
        requires
            w > 0,
            j >= 0,
            j == w * (j / w) + j % w,
            0 <= j % w < w,
    ;
}

/// A raster canvas owning its pixels, row-major, top row first.
pub struct Canvas {
    width: usize,
    height: usize,
    pixels: Vec<Rgb>,
}

impl View for Canvas {
    type V = CanvasView;

    closed spec fn view(&self) -> CanvasView {
        CanvasView {
            width: self.width as nat,
            height: self.height as nat,
            pixels: self.pixels@,
        }
    }
}

impl Canvas {
    /// A fresh canvas of the given dimensions, every pixel set to `fill`.
    pub fn new(width: usize, height: usize, fill: Rgb) -> (r: Canvas)
        requires
            width * height <= usize::MAX,
        ensures
            r@.wf(),
            r@.width == width,
            r@.height == height,
            forall|j: int| 0 <= j < r@.pixels.len() ==> r@.pixels[j] == fill,
    {
        let total = width * height;
        let mut pixels: Vec<Rgb> = Vec::new();
        let mut i: usize = 0;
        while i < total
            invariant
                i <= total,
                pixels@.len() == i,
                forall|j: int| 0 <= j < i ==> pixels@[j] == fill,
            decreases total - i,
        {
            pixels.push(fill);
            i = i + 1;
        }
        Canvas { width, height, pixels }
    }

    /// The canvas width in pixels.
    pub fn width(&self) -> (r: usize)
        ensures
            r == self@.width,
    {
        self.width
    }

    /// The canvas height in pixels.
    pub fn height(&self) -> (r: usize)
        ensures
            r == self@.height,
    {
        self.height
    }

    /// The number of pixels the canvas holds.
    pub fn pixel_count(&self) -> (r: usize)
        ensures
            r == self@.pixels.len(),
    {
        self.pixels.len()
    }

    /// The color at `(x, y)`.
    pub fn pixel(&self, x: usize, y: usize) -> (r: Rgb)
        requires
            self@.wf(),
            self@.in_bounds(x as int, y as int),
        ensures
            r == self@.pix(x as int, y as int),
    {
        let _n: usize = self.pixels.len();
        proof {
            lemma_flat_index(self@, x as int, y as int);
        }
        self.pixels[y * self.width + x]
    }

    /// Paint `color` over one horizontal segment of a row, clipped to the
    /// canvas: pixels `(x, y)` through `(x + len - 1, y)`.
    pub fn fill_row(&mut self, x: usize, y: usize, len: usize, color: Rgb)
        requires
            old(self)@.wf(),
        ensures
            final(self)@ =~= rect_fill(old(self)@, x as int, y as int, len as int, 1, color),
    {
        self.fill_rect(x, y, len, 1, color)
    }

    /// Paint `color` over the rectangle with origin `(x, y)`, width `w` and
    /// height `h`, clipped to the canvas.
    pub fn fill_rect(&mut self, x: usize, y: usize, w: usize, h: usize, color: Rgb)
        requires
            old(self)@.wf(),
        ensures
            final(self)@ =~= rect_fill(old(self)@, x as int, y as int, w as int, h as int, color),
    {
        let ghost cv0 = self@;
        if x >= self.width || y >= self.height {
            proof {
                assert forall|j: int| 0 <= j < cv0.pixels.len() implies !rect_hits(
                    cv0,
                    x as int,
                    y as int,
                    w as int,
                    h as int,
                    j,
                ) by {
                    lemma_index_coords(cv0, j);
                }
            }
            return ;
        }
        // Clip the rectangle to the canvas; within the clipped extent every
        // coordinate addresses a real pixel.
        let x_end = if w >= self.width - x { self.width } else { x + w };
        let y_end = if h >= self.height - y { self.height } else { y + h };
        let mut row = y;
        while row < y_end
            invariant
                self@.width == cv0.width,
                self@.height == cv0.height,
                self@.pixels.len() == cv0.pixels.len(),
                cv0.wf(),
                y <= row <= y_end,
                x < cv0.width,
                y < cv0.height,
                x_end <= cv0.width,
                y_end <= cv0.height,
                x_end - x <= w,
                y_end - y <= h,
                ((w as int) >= cv0.width - x ==> x_end == cv0.width),
                ((w as int) < cv0.width - x ==> x_end == x + w),
                ((h as int) >= cv0.height - y ==> y_end == cv0.height),
                ((h as int) < cv0.height - y ==> y_end == y + h),
                forall|j: int|
                    0 <= j < cv0.pixels.len() ==> self@.pixels[j] == (if rect_hits(
                        cv0,
                        x as int,
                        y as int,
                        w as int,
                        (row - y) as int,
                        j,
                    ) {
                        color
                    } else {
                        cv0.pixels[j]
                    }),
            decreases y_end - row,
        {
            let mut col = x;
            while col < x_end
                invariant
                    self@.width == cv0.width,
                    self@.height == cv0.height,
                    self@.pixels.len() == cv0.pixels.len(),
                    cv0.wf(),
                    x <= col <= x_end,
                    x < cv0.width,
                    x_end <= cv0.width,
                    y <= row < y_end,
                    y_end <= cv0.height,
                    x_end - x <= w,
                    ((w as int) >= cv0.width - x ==> x_end == cv0.width),
                    ((w as int) < cv0.width - x ==> x_end == x + w),
                    forall|j: int|
                        0 <= j < cv0.pixels.len() ==> self@.pixels[j] == (if rect_hits(
                            cv0,
                            x as int,
                            y as int,
                            w as int,
                            (row - y) as int,
                            j,
                        ) || (cv0.row_of(j) == row && x <= cv0.col_of(j) < col) {
                            color
                        } else {
                            cv0.pixels[j]
                        }),
                decreases x_end - col,
            {
                let _n: usize = self.pixels.len();
                proof {
                    lemma_flat_index(cv0, col as int, row as int);
                }
                let j = row * self.width + col;
                self.pixels.set(j, color);
                col = col + 1;
                proof {
                    assert forall|t: int| 0 <= t < cv0.pixels.len() implies self@.pixels[t] == (
                    if rect_hits(cv0, x as int, y as int, w as int, (row - y) as int, t) || (
                    cv0.row_of(t) == row && x <= cv0.col_of(t) < col) {
                        color
                    } else {
                        cv0.pixels[t]
                    }) by {
                        // A pixel with this row and the just-painted column is
                        // the very index that was set.
                        lemma_index_coords(cv0, t);
                    }
                }
            }
            row = row + 1;
            proof {
                assert forall|j: int| 0 <= j < cv0.pixels.len() implies self@.pixels[j] == (
                if rect_hits(cv0, x as int, y as int, w as int, (row - y) as int, j) {
                    color
                } else {
                    cv0.pixels[j]
                }) by {
                    // A column inside the requested width but beyond the
                    // clipped right edge can only lie past the canvas edge.
                    lemma_index_coords(cv0, j);
                }
            }
        }
        proof {
            assert forall|j: int| 0 <= j < cv0.pixels.len() implies self@.pixels[j] == (
            if rect_hits(cv0, x as int, y as int, w as int, h as int, j) {
                color
            } else {
                cv0.pixels[j]
            }) by {
                // A row inside the requested height but beyond the clipped
                // bottom edge can only lie past the canvas edge.
                lemma_index_coords(cv0, j);
            }
        }
    }

    /// The pixel grid as bytes in blue, green, red, alpha order, the form
    /// the canvas is stored in before encoding; alpha is always opaque.
    pub fn data_bgra(&self) -> (r: Vec<u8>)
        ensures
            r@.len() == 4 * self@.pixels.len(),
            forall|i: int|
                0 <= i < self@.pixels.len() ==> r@[4 * i] == self@.pixels[i].b && r@[4 * i + 1]
                    == self@.pixels[i].g && r@[4 * i + 2] == self@.pixels[i].r && r@[4 * i + 3]
                    == 255,
    {
        let mut out: Vec<u8> = Vec::new();
        let mut i: usize = 0;
        let n = self.pixels.len();
        while i < n
            invariant
                i <= n,
                n == self@.pixels.len(),
                out@.len() == 4 * i,
                forall|k: int|
                    0 <= k < i ==> out@[4 * k] == self@.pixels[k].b && out@[4 * k + 1]
                        == self@.pixels[k].g && out@[4 * k + 2] == self@.pixels[k].r && out@[4 * k
                        + 3] == 255,
            decreases n - i,
        {
            let ghost out0 = out@;
            let p = self.pixels[i];
            out.push(p.b);
            out.push(p.g);
            out.push(p.r);
            out.push(255);
            proof {
                assert forall|k: int| 0 <= k < i implies #[trigger] out@[4 * k] == out0[4 * k] && out@[4 * k
                    + 1] == out0[4 * k + 1] && out@[4 * k + 2] == out0[4 * k + 2] && out@[4 * k + 3]
                    == out0[4 * k + 3] by {
                    assert(4 * k + 3 < out0.len());
                }
                assert(out@[4 * (i as int)] == self@.pixels[i as int].b);
                assert(out@[4 * (i as int) + 1] == self@.pixels[i as int].g);
                assert(out@[4 * (i as int) + 2] == self@.pixels[i as int].r);
                assert(out@[4 * (i as int) + 3] == 255);
            }
            i = i + 1;
        }
        out
    }
}

/// Permute a blue-green-red-alpha byte buffer into red-green-blue-alpha
/// order, four bytes per pixel, for an encoder that expects the latter.
pub fn bgra_to_rgba(data: &Vec<u8>) -> (r: Vec<u8>)
    requires
        data@.len() % 4 == 0,
    ensures
        r@.len() == data@.len(),
        forall|k: int|
            0 <= 4 * k + 3 < data@.len() ==> #[trigger] r@[4 * k] == data@[4 * k + 2] && r@[4 * k + 1]
                == data@[4 * k + 1] && r@[4 * k + 2] == data@[4 * k] && r@[4 * k + 3] == data@[4 * k
                + 3],
{
    let mut out: Vec<u8> = Vec::new();
    let n = data.len();
    let groups = n / 4;
    proof {
        lemma_fundamental_div_mod(n as int, 4);
    }
    let mut k: usize = 0;
    while k < groups
        invariant
            n == data@.len(),
            n == 4 * groups,
            k <= groups,
            out@.len() == 4 * k,
            forall|t: int|
                0 <= t < k ==> #[trigger] out@[4 * t] == data@[4 * t + 2] && out@[4 * t + 1]
                    == data@[4 * t + 1] && out@[4 * t + 2] == data@[4 * t] && out@[4 * t + 3]
                    == data@[4 * t + 3],
        decreases groups - k,
    {
        let ghost out0 = out@;
        let base = 4 * k;
        out.push(data[base + 2]);
        out.push(data[base + 1]);
        out.push(data[base]);
        out.push(data[base + 3]);
        proof {
            assert forall|t: int| 0 <= t < k implies #[trigger] out@[4 * t] == out0[4 * t] && out@[4 * t + 1]
                == out0[4 * t + 1] && out@[4 * t + 2] == out0[4 * t + 2] && out@[4 * t + 3]
                == out0[4 * t + 3] by {
                assert(4 * t + 3 < out0.len());
            }
            assert(out@[4 * (k as int)] == data@[4 * (k as int) + 2]);
            assert(out@[4 * (k as int) + 1] == data@[4 * (k as int) + 1]);
            assert(out@[4 * (k as int) + 2] == data@[4 * (k as int)]);
            assert(out@[4 * (k as int) + 3] == data@[4 * (k as int) + 3]);
        }
        k = k + 1;
    }
    out
}

} // verus!
