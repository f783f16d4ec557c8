//! The compositor: paints a decoded icon's run-length stream onto a canvas
//! region, wrapping rows inside the icon's bounding rectangle, and layers
//! the categories of a catalog entry into one square icon.

use vstd::prelude::*;

verus! {

use crate::canvas::{
    Canvas,
    CanvasView,
    Rgb,
    lemma_flat_index,
    lemma_index_coords,
    rect_fill,
    rect_hits,
};
use crate::error::RenderError;
use crate::nouns::{Bounds, Color, DecodedImage, Rect};
use vstd::arithmetic::div_mod::{lemma_fundamental_div_mod, lemma_fundamental_div_mod_converse};

/// The smaller of two integers.
pub open spec fn min_int(a: int, b: int) -> int {
    if a <= b {
        a
    } else {
        b
    }
}

/// An integer clamped to what a `usize` can hold, the result of a
/// saturating addition.
pub open spec fn sat_usize(v: int) -> int {
    min_int(v, usize::MAX as int)
}

/// Saturating addition on `usize`.
fn sat_add(a: usize, b: usize) -> (r: usize)
    ensures
        r as int == sat_usize(a + b),
{
    if a <= usize::MAX - b {
        a + b
    } else {
        usize::MAX
    }
}

/// The pixel area of a bounding rectangle.
pub open spec fn icon_area(b: Bounds) -> int {
    b.spec_width() * b.spec_height()
}

/// Total length of the first `k` runs: the linear position where run `k`
/// starts inside the rectangle's row-major order.
pub open spec fn run_start(runs: Seq<Rect>, k: int) -> int
    decreases k,
{
    if k <= 0 {
        0
    } else {
        run_start(runs, k - 1) + runs[k - 1].length
    }
}

/// Total length of all runs.
pub open spec fn total_run_length(runs: Seq<Rect>) -> int {
    run_start(runs, runs.len() as int)
}

/// The linear position inside the icon's rectangle that canvas index `j`
/// corresponds to, given the placement offset; meaningful when the column
/// offset lies inside the rectangle.
pub open spec fn seg_hits(
    cv: CanvasView,
    b: Bounds,
    ox: int,
    oy: int,
    lo: int,
    hi: int,
    j: int,
) -> bool {
    let w = b.spec_width();
    let lx = cv.col_of(j) - (ox + b.left);
    let ly = cv.row_of(j) - (oy + b.top);
    let p = ly * w + lx;
    0 <= lx < w && 0 <= ly && lo <= p < hi && p < icon_area(b)
}

/// The canvas after the linear positions `lo` through `hi - 1` of the icon
/// placement are painted with `color`; positions at or past the rectangle's
/// area paint nothing, and so does anything falling outside the canvas.
pub open spec fn seg_fill(
    cv: CanvasView,
    b: Bounds,
    ox: int,
    oy: int,
    lo: int,
    hi: int,
    color: Rgb,
) -> CanvasView {
    CanvasView {
        pixels: Seq::new(
            cv.pixels.len(),
            |j: int|
                if seg_hits(cv, b, ox, oy, lo, hi, j) {
                    color
                } else {
                    cv.pixels[j]
                },
        ),
        ..cv
    }
}

/// One run applied to the canvas: a transparent palette entry advances the
/// position without painting, an opaque one paints its positions.
pub open spec fn apply_run(
    cv: CanvasView,
    b: Bounds,
    ox: int,
    oy: int,
    start: int,
    run: Rect,
    entry: Color,
) -> CanvasView {
    match entry.0 {
        Some(rgb) => seg_fill(cv, b, ox, oy, start, start + run.length, rgb),
        None => cv,
    }
}

/// The canvas after the first `k` runs of the icon are applied in order.
pub open spec fn paint_prefix(
    cv: CanvasView,
    img: DecodedImage,
    palette: Seq<Color>,
    ox: int,
    oy: int,
    k: int,
) -> CanvasView
    decreases k,
{
    if k <= 0 {
        cv
    } else {
        let prev = paint_prefix(cv, img, palette, ox, oy, k - 1);
        apply_run(
            prev,
            img.bounds,
            ox,
            oy,
            run_start(img.rects@, k - 1),
            img.rects@[k - 1],
            palette[img.rects@[k - 1].color_index as int],
        )
    }
}

/// The canvas after the whole icon is painted.
pub open spec fn paint_icon(
    cv: CanvasView,
    img: DecodedImage,
    palette: Seq<Color>,
    ox: int,
    oy: int,
) -> CanvasView {
    paint_prefix(cv, img, palette, ox, oy, img.rects@.len() as int)
}

/// Every run of the icon names an existing palette entry.
pub open spec fn runs_valid(img: DecodedImage, palette: Seq<Color>) -> bool {
    forall|k: int|
        0 <= k < img.rects@.len() ==> (#[trigger] img.rects@[k]).color_index < palette.len()
}

/// The first `k` runs name existing palette entries.
pub open spec fn valid_upto(runs: Seq<Rect>, palette: Seq<Color>, k: int) -> bool {
    forall|t: int| 0 <= t < k ==> (#[trigger] runs[t]).color_index < palette.len()
}

/// Painting never changes the canvas dimensions or pixel count.
pub proof fn lemma_paint_prefix_dims(
    cv: CanvasView,
    img: DecodedImage,
    palette: Seq<Color>,
    ox: int,
    oy: int,
    k: int,
)
    ensures
        paint_prefix(cv, img, palette, ox, oy, k).width == cv.width,
        paint_prefix(cv, img, palette, ox, oy, k).height == cv.height,
        paint_prefix(cv, img, palette, ox, oy, k).pixels.len() == cv.pixels.len(),
    decreases k,
{
    if k > 0 {
        lemma_paint_prefix_dims(cv, img, palette, ox, oy, k - 1);
    }
}

/// Painting an empty range of positions changes nothing.
proof fn lemma_seg_fill_empty(cv: CanvasView, b: Bounds, ox: int, oy: int, lo: int, hi: int, color: Rgb)
    requires
        hi <= lo,
    ensures
        seg_fill(cv, b, ox, oy, lo, hi, color) =~= cv,
{
}

/// Painting `lo..mid` and then `mid..hi` equals painting `lo..hi` at once.
proof fn lemma_seg_fill_compose(
    cv: CanvasView,
    b: Bounds,
    ox: int,
    oy: int,
    lo: int,
    mid: int,
    hi: int,
    color: Rgb,
)
    requires
        lo <= mid <= hi,
    ensures
        seg_fill(seg_fill(cv, b, ox, oy, lo, mid, color), b, ox, oy, mid, hi, color) =~= seg_fill(
            cv,
            b,
            ox,
            oy,
            lo,
            hi,
            color,
        ),
{
}

/// Positions at or past the rectangle's area paint nothing, so extending a
/// range that already reaches the area changes nothing.
proof fn lemma_seg_fill_clamp(
    cv: CanvasView,
    b: Bounds,
    ox: int,
    oy: int,
    lo: int,
    hi1: int,
    hi2: int,
    color: Rgb,
)
    requires
        icon_area(b) <= hi1 <= hi2,
    ensures
        seg_fill(cv, b, ox, oy, lo, hi1, color) =~= seg_fill(cv, b, ox, oy, lo, hi2, color),
{
}

/// Run starts grow with the run index.
pub proof fn lemma_run_start_monotonic(runs: Seq<Rect>, k1: int, k2: int)
    requires
        0 <= k1 <= k2,
    ensures
        run_start(runs, k1) <= run_start(runs, k2),
    decreases k2 - k1,
{
    if k1 < k2 {
        lemma_run_start_monotonic(runs, k1, k2 - 1);
    }
}

/// One row segment painted by the canvas primitive is exactly one stretch
/// of linear positions of the icon placement.
proof fn lemma_row_is_segment(
    cv: CanvasView,
    b: Bounds,
    ox: int,
    oy: int,
    p0: int,
    dl: int,
    color: Rgb,
    cx: int,
    cy: int,
)
    requires
        cv.wf(),
        cv.pixels.len() <= usize::MAX,
        b.wf(),
        0 <= ox,
        0 <= oy,
        0 <= p0 < icon_area(b),
        0 < dl,
        dl <= b.spec_width() - (p0 % b.spec_width()),
        cx == sat_usize(ox + b.left + (p0 % b.spec_width())),
        cy == sat_usize(oy + b.top + (p0 / b.spec_width())),
    ensures
        rect_fill(cv, cx, cy, dl, 1, color) =~= seg_fill(cv, b, ox, oy, p0, p0 + dl, color),
{
    let w = b.spec_width();
    let h = b.spec_height();
    assert(w > 0 && h > 0) by (nonlinear_arith)
        requires
            0 <= p0 < w * h,
            w == b.spec_width(),
            h == b.spec_height(),
            w >= 0,
            h >= 0,
    ;
    lemma_fundamental_div_mod(p0, w);
    vstd::arithmetic::div_mod::lemma_mod_bound(p0, w);
    let x0 = p0 % w;
    let y0 = p0 / w;
    assert(0 <= y0 && y0 < h) by (nonlinear_arith)
        requires
            w > 0,
            h > 0,
            0 <= p0 < w * h,
            p0 == w * y0 + x0,
            0 <= x0 < w,
    ;
    assert((y0 + 1) * w <= h * w) by (nonlinear_arith)
        requires
            y0 + 1 <= h,
            w > 0,
    ;
    assert(h * w == w * h) by (nonlinear_arith);
    assert((y0 + 1) * w == y0 * w + w) by (nonlinear_arith);
    let tx = ox + b.left + x0;
    let ty = oy + b.top + y0;
    assert forall|j: int| 0 <= j < cv.pixels.len() implies (rect_hits(cv, cx, cy, dl, 1, j)
        <==> seg_hits(cv, b, ox, oy, p0, p0 + dl, j)) by {
        lemma_index_coords(cv, j);
        let col = cv.col_of(j);
        let row = cv.row_of(j);
        // The canvas has at least one pixel, so both its dimensions are
        // bounded by its pixel count and fit in a usize.
        assert(cv.width >= 1 && cv.height >= 1 && cv.width <= cv.pixels.len() && cv.height
            <= cv.pixels.len()) by (nonlinear_arith)
            requires
                cv.pixels.len() == cv.width * cv.height,
                0 <= j < cv.pixels.len(),
        ;
        if tx <= usize::MAX && ty <= usize::MAX {
            // No saturation: the segment row maps one-to-one.
            let lx = col - (ox + b.left);
            let ly = row - (oy + b.top);
            if rect_hits(cv, cx, cy, dl, 1, j) {
                assert(row == ty && tx <= col < tx + dl);
                assert(lx == x0 + (col - tx) && ly == y0);
                lemma_fundamental_div_mod_converse(ly * w + lx, w, ly, lx);
                assert(ly * w + lx == y0 * w + (x0 + (col - tx))) by (nonlinear_arith)
                    requires
                        ly == y0,
                        lx == x0 + (col - tx),
                ;
                assert(y0 * w + x0 == p0) by (nonlinear_arith)
                    requires
                        p0 == w * y0 + x0,
                ;
                assert(seg_hits(cv, b, ox, oy, p0, p0 + dl, j));
            }
            if seg_hits(cv, b, ox, oy, p0, p0 + dl, j) {
                let p = ly * w + lx;
                assert(p0 <= p < p0 + dl);
                // Within one row: the positions p0 .. p0 + dl all lie in row
                // y0, so ly == y0 and lx runs from x0.
                assert(y0 * w <= p < (y0 + 1) * w) by (nonlinear_arith)
                    requires
                        p0 == w * y0 + x0,
                        0 <= x0,
                        x0 + dl <= w,
                        p0 <= p < p0 + dl,
                        w > 0,
                ;
                assert(ly == y0 && y0 * w + lx == p) by (nonlinear_arith)
                    requires
                        p == ly * w + lx,
                        0 <= lx < w,
                        y0 * w <= p < (y0 + 1) * w,
                        w > 0,
                ;
                assert(lx >= x0 && lx < x0 + dl) by (nonlinear_arith)
                    requires
                        y0 * w + lx == p,
                        p0 == w * y0 + x0,
                        p0 <= p < p0 + dl,
                ;
                assert(rect_hits(cv, cx, cy, dl, 1, j));
            }
        } else {
            // Saturated: the target row or column lies past anything a
            // canvas can address, so neither side paints this pixel.
            if rect_hits(cv, cx, cy, dl, 1, j) {
                if tx > usize::MAX {
                    assert(cx == usize::MAX as int);
                    assert(col < cv.width <= usize::MAX);
                    assert(false);
                } else {
                    assert(cy == usize::MAX as int);
                    assert(row < cv.height <= usize::MAX);
                    assert(false);
                }
            }
            if seg_hits(cv, b, ox, oy, p0, p0 + dl, j) {
                let lx = col - (ox + b.left);
                let ly = row - (oy + b.top);
                let p = ly * w + lx;
                assert(y0 * w <= p < (y0 + 1) * w) by (nonlinear_arith)
                    requires
                        p0 == w * y0 + x0,
                        0 <= x0,
                        x0 + dl <= w,
                        p0 <= p < p0 + dl,
                        w > 0,
                ;
                assert(ly == y0 && y0 * w + lx == p) by (nonlinear_arith)
                    requires
                        p == ly * w + lx,
                        0 <= lx < w,
                        y0 * w <= p < (y0 + 1) * w,
                        w > 0,
                ;
                assert(lx >= x0) by (nonlinear_arith)
                    requires
                        y0 * w + lx == p,
                        p0 == w * y0 + x0,
                        p0 <= p,
                ;
                if tx > usize::MAX {
                    assert(col == ox + b.left + lx >= tx);
                    assert(col < cv.width <= usize::MAX);
                    assert(false);
                } else {
                    assert(row == oy + b.top + y0 == ty);
                    assert(row < cv.height <= usize::MAX);
                    assert(false);
                }
            }
        }
    }
}

impl DecodedImage {
    /// Paint this icon onto `canvas` with its bounding rectangle translated
    /// by `(ox, oy)`. Runs walk the rectangle row-major; a run naming a
    /// transparent palette entry advances without painting, and any part of
    /// the stream past the rectangle's area is ignored. A run naming a
    /// palette index past the palette is a hard error, raised in stream
    /// order, with the runs before it already painted.
    pub fn draw_part(
        &self,
        canvas: &mut Canvas,
        palette: &Vec<Color>,
        ox: usize,
        oy: usize,
    ) -> (r: Result<(), RenderError>)
        requires
            old(canvas)@.wf(),
            self.wf(),
        ensures
            final(canvas)@.wf(),
            final(canvas)@.width == old(canvas)@.width,
            final(canvas)@.height == old(canvas)@.height,
            (r is Ok) <==> runs_valid(*self, palette@),
            r is Ok ==> final(canvas)@ == paint_icon(
                old(canvas)@,
                *self,
                palette@,
                ox as int,
                oy as int,
            ),
            r is Err ==> r == Err::<(), RenderError>(RenderError::PaletteIndexOutOfBounds) && (
            exists|k: int|
                0 <= k < self.rects@.len() && valid_upto(self.rects@, palette@, k) && !((
                #[trigger] self.rects@[k]).color_index < palette@.len()) && final(canvas)@
                    == paint_prefix(old(canvas)@, *self, palette@, ox as int, oy as int, k)),
    {
        let ghost cv0 = canvas@;
        let _n: usize = canvas.pixel_count();
        let w = self.bounds.width() as u32;
        let h = self.bounds.height() as u32;
        proof {
            assert((w as int) * (h as int) <= 65025) by (nonlinear_arith)
                requires
                    w <= 255,
                    h <= 255,
            ;
        }
        let area = w * h;
        let nruns = self.rects.len();
        let mut position: u32 = 0;
        let mut k: usize = 0;
        while k < nruns
            invariant
                cv0 == old(canvas)@,
                canvas@.wf(),
                cv0.wf(),
                canvas@.width == cv0.width,
                canvas@.height == cv0.height,
                canvas@.pixels.len() == cv0.pixels.len(),
                cv0.pixels.len() <= usize::MAX,
                self.wf(),
                w == self.bounds.spec_width(),
                h == self.bounds.spec_height(),
                area == icon_area(self.bounds),
                nruns == self.rects@.len(),
                k <= nruns,
                valid_upto(self.rects@, palette@, k as int),
                position as int == min_int(run_start(self.rects@, k as int), area as int),
                canvas@ == paint_prefix(cv0, *self, palette@, ox as int, oy as int, k as int),
            decreases nruns - k,
        {
            let ghost prev = canvas@;
            let ghost run_lo = run_start(self.rects@, k as int);
            let rect = self.rects[k];
            if rect.color_index as usize >= palette.len() {
                proof {
                    assert(valid_upto(self.rects@, palette@, k as int) && !((self.rects@[
                    k as int]).color_index < palette@.len()) && canvas@ == paint_prefix(
                        cv0,
                        *self,
                        palette@,
                        ox as int,
                        oy as int,
                        k as int,
                    ));
                }
                return Err(RenderError::PaletteIndexOutOfBounds);
            }
            let entry = palette[rect.color_index as usize];
            let len32 = rect.length as u32;
            match entry.0 {
                None => {
                    position = if len32 <= area - position {
                        position + len32
                    } else {
                        area
                    };
                },
                Some(rgb) => {
                    let mut remaining = len32;
                    proof {
                        lemma_seg_fill_empty(
                            prev,
                            self.bounds,
                            ox as int,
                            oy as int,
                            run_lo,
                            run_lo,
                            rgb,
                        );
                    }
                    while remaining > 0 && position < area
                        invariant
                            canvas@.wf(),
                            prev.wf(),
                            canvas@.width == prev.width,
                            canvas@.height == prev.height,
                            canvas@.pixels.len() == prev.pixels.len(),
                            prev.pixels.len() <= usize::MAX,
                            self.wf(),
                            w == self.bounds.spec_width(),
                            h == self.bounds.spec_height(),
                            area == icon_area(self.bounds),
                            remaining <= len32,
                            len32 == rect.length,
                            position as int == min_int(run_lo + (len32 - remaining), area as int),
                            canvas@ == seg_fill(
                                prev,
                                self.bounds,
                                ox as int,
                                oy as int,
                                run_lo,
                                run_lo + (len32 - remaining),
                                rgb,
                            ),
                        decreases remaining,
                    {
                        let ghost mid = canvas@;
                        let ghost done = (len32 - remaining) as int;
                        proof {
                            assert(w >= 1 && h >= 1) by (nonlinear_arith)
                                requires
                                    (position as int) < (area as int),
                                    area as int == (w as int) * (h as int),
                            ;
                        }
                        let x = position % w;
                        let y = position / w;
                        proof {
                            lemma_fundamental_div_mod(position as int, w as int);
                            vstd::arithmetic::div_mod::lemma_mod_bound(
                                position as int,
                                w as int,
                            );
                            assert((y as int) < (h as int)) by (nonlinear_arith)
                                requires
                                    position as int == (w as int) * (y as int) + (x as int),
                                    0 <= (x as int) < (w as int),
                                    (position as int) < area as int,
                                    area as int == (w as int) * (h as int),
                                    w as int > 0,
                                    h as int > 0,
                            ;
                            assert(((y as int) + 1) * (w as int) <= area as int) by (nonlinear_arith)
                                requires
                                    (y as int) < h as int,
                                    area as int == (w as int) * (h as int),
                                    w as int > 0,
                            ;
                        }
                        let dist = w - x;
                        let dl = if dist < remaining {
                            dist
                        } else {
                            remaining
                        };
                        proof {
                            assert(position as int + dl <= ((y as int) + 1) * (w as int))
                                by (nonlinear_arith)
                                requires
                                    position as int == (w as int) * (y as int) + (x as int),
                                    dl as int <= (w as int) - (x as int),
                            ;
                        }
                        let cx = sat_add(ox, self.bounds.left as usize + x as usize);
                        let cy = sat_add(oy, self.bounds.top as usize + y as usize);
                        canvas.fill_row(cx, cy, dl as usize, rgb);
                        proof {
                            assert(run_lo + done == position as int);
                            lemma_row_is_segment(
                                mid,
                                self.bounds,
                                ox as int,
                                oy as int,
                                position as int,
                                dl as int,
                                rgb,
                                cx as int,
                                cy as int,
                            );
                            assert(canvas@ =~= seg_fill(
                                mid,
                                self.bounds,
                                ox as int,
                                oy as int,
                                position as int,
                                position as int + dl,
                                rgb,
                            ));
                            lemma_seg_fill_compose(
                                prev,
                                self.bounds,
                                ox as int,
                                oy as int,
                                run_lo,
                                position as int,
                                position as int + dl,
                                rgb,
                            );
                        }
                        position = position + dl;
                        remaining = remaining - dl;
                    }
                    // Either the run is exhausted, or it ran past the
                    // rectangle's area and the rest paints nothing.
                    proof {
                        if remaining > 0 {
                            lemma_seg_fill_clamp(
                                prev,
                                self.bounds,
                                ox as int,
                                oy as int,
                                run_lo,
                                run_lo + (len32 - remaining),
                                run_lo + len32,
                                rgb,
                            );
                        }
                    }
                    position = if remaining > 0 {
                        area
                    } else {
                        position
                    };
                },
            }
            k = k + 1;
            proof {
                assert(canvas@ == paint_prefix(
                    cv0,
                    *self,
                    palette@,
                    ox as int,
                    oy as int,
                    k as int,
                ));
            }
        }
        Ok(())
    }
}

/// The index of the first run naming a palette entry past the palette;
/// meaningful when such a run exists.
pub open spec fn first_invalid_run(runs: Seq<Rect>, palette: Seq<Color>) -> int {
    choose|k: int|
        0 <= k < runs.len() && valid_upto(runs, palette, k) && !((#[trigger] runs[k]).color_index
            < palette.len())
}

/// The canvas after an icon draw, whether it completed or stopped at the
/// first run with an invalid palette index, leaving earlier runs painted.
pub open spec fn icon_outcome(
    cv: CanvasView,
    img: DecodedImage,
    palette: Seq<Color>,
    ox: int,
    oy: int,
) -> CanvasView {
    if runs_valid(img, palette) {
        paint_icon(cv, img, palette, ox, oy)
    } else {
        paint_prefix(cv, img, palette, ox, oy, first_invalid_run(img.rects@, palette))
    }
}

/// There is at most one first invalid run.
proof fn lemma_first_invalid_unique(runs: Seq<Rect>, palette: Seq<Color>, k1: int, k2: int)
    requires
        0 <= k1 < runs.len(),
        valid_upto(runs, palette, k1),
        !(runs[k1].color_index < palette.len()),
        0 <= k2 < runs.len(),
        valid_upto(runs, palette, k2),
        !(runs[k2].color_index < palette.len()),
    ensures
        k1 == k2,
{
    if k1 < k2 {
        assert(runs[k1].color_index < palette.len());
    }
    if k2 < k1 {
        assert(runs[k2].color_index < palette.len());
    }
}

/// A draw that stopped at run `k`, the first one with an invalid palette
/// index, left exactly the runs before `k` painted.
pub proof fn lemma_icon_outcome_stopped(
    cv: CanvasView,
    img: DecodedImage,
    palette: Seq<Color>,
    ox: int,
    oy: int,
    k: int,
)
    requires
        0 <= k < img.rects@.len(),
        valid_upto(img.rects@, palette, k),
        !(img.rects@[k].color_index < palette.len()),
    ensures
        !runs_valid(img, palette),
        icon_outcome(cv, img, palette, ox, oy) == paint_prefix(cv, img, palette, ox, oy, k),
{
    assert(!runs_valid(img, palette)) by {
        if runs_valid(img, palette) {
            assert(img.rects@[k].color_index < palette.len());
        }
    }
    let c = first_invalid_run(img.rects@, palette);
    assert(0 <= c < img.rects@.len() && valid_upto(img.rects@, palette, c) && !(img.rects@[
    c].color_index < palette.len())) by {
        assert(0 <= k < img.rects@.len() && valid_upto(img.rects@, palette, k) && !((
        img.rects@[k]).color_index < palette.len()));
    }
    lemma_first_invalid_unique(img.rects@, palette, c, k);
}

/// An icon whose runs all name transparent palette entries paints nothing.
proof fn lemma_transparent_prefix(
    cv: CanvasView,
    img: DecodedImage,
    palette: Seq<Color>,
    ox: int,
    oy: int,
    k: int,
)
    requires
        forall|t: int|
            0 <= t < img.rects@.len() ==> palette[(#[trigger] img.rects@[t]).color_index as int].0
                is None,
        k <= img.rects@.len(),
    ensures
        paint_prefix(cv, img, palette, ox, oy, k) == cv,
    decreases k,
{
    if k > 0 {
        lemma_transparent_prefix(cv, img, palette, ox, oy, k - 1);
    }
}

/// Transparent palette entries never produce a draw: an icon whose runs all
/// name transparent entries leaves every pixel of the canvas as it was.
pub proof fn lemma_transparent_icon_draws_nothing(
    cv: CanvasView,
    img: DecodedImage,
    palette: Seq<Color>,
    ox: int,
    oy: int,
)
    requires
        forall|t: int|
            0 <= t < img.rects@.len() ==> palette[(#[trigger] img.rects@[t]).color_index as int].0
                is None,
    ensures
        paint_icon(cv, img, palette, ox, oy) == cv,
{
    lemma_transparent_prefix(cv, img, palette, ox, oy, img.rects@.len() as int);
}

/// No prefix of an icon's runs touches a pixel outside the icon's
/// translated bounding rectangle.
proof fn lemma_prefix_stays_inside_bounds(
    cv: CanvasView,
    img: DecodedImage,
    palette: Seq<Color>,
    ox: int,
    oy: int,
    x: int,
    y: int,
    k: int,
)
    requires
        cv.wf(),
        cv.in_bounds(x, y),
        !(ox + img.bounds.left <= x < ox + img.bounds.right && oy + img.bounds.top <= y < oy
            + img.bounds.bottom),
        img.wf(),
    ensures
        paint_prefix(cv, img, palette, ox, oy, k).pix(x, y) == cv.pix(x, y),
    decreases k,
{
    if k > 0 {
        lemma_prefix_stays_inside_bounds(cv, img, palette, ox, oy, x, y, k - 1);
        let prev = paint_prefix(cv, img, palette, ox, oy, k - 1);
        lemma_paint_prefix_dims(cv, img, palette, ox, oy, k - 1);
        lemma_flat_index(cv, x, y);
        let j = y * (cv.width as int) + x;
        let b = img.bounds;
        let w = b.spec_width();
        let h = b.spec_height();
        let entry = palette[img.rects@[k - 1].color_index as int];
        if entry.0 is Some {
            let lo = run_start(img.rects@, k - 1);
            let hi = lo + img.rects@[k - 1].length;
            assert(!seg_hits(prev, b, ox, oy, lo, hi, j)) by {
                if seg_hits(prev, b, ox, oy, lo, hi, j) {
                    let lx = prev.col_of(j) - (ox + b.left);
                    let ly = prev.row_of(j) - (oy + b.top);
                    let p = ly * w + lx;
                    assert(prev.col_of(j) == x && prev.row_of(j) == y);
                    // Inside the rectangle after all: the hit demands a
                    // column inside the width and a row inside the height.
                    assert(ly < h) by (nonlinear_arith)
                        requires
                            p == ly * w + lx,
                            0 <= lx < w,
                            0 <= ly,
                            p < w * h,
                    ;
                    assert(ox + b.left <= x < ox + b.left + w);
                    assert(oy + b.top <= y < oy + b.top + h);
                    assert(false);
                }
            }
        }
    }
}

/// Compositing never writes outside the icon's bounding rectangle
/// translated by the placement offset: every pixel outside
/// `[ox + left, ox + right) x [oy + top, oy + bottom)` keeps its color.
pub proof fn lemma_paint_stays_inside_bounds(
    cv: CanvasView,
    img: DecodedImage,
    palette: Seq<Color>,
    ox: int,
    oy: int,
    x: int,
    y: int,
)
    requires
        cv.wf(),
        cv.in_bounds(x, y),
        !(ox + img.bounds.left <= x < ox + img.bounds.right && oy + img.bounds.top <= y < oy
            + img.bounds.bottom),
        img.wf(),
    ensures
        paint_icon(cv, img, palette, ox, oy).pix(x, y) == cv.pix(x, y),
{
    lemma_prefix_stays_inside_bounds(cv, img, palette, ox, oy, x, y, img.rects@.len() as int);
}

/// The index of the run that covers linear position `p`; meaningful when
/// `p` lies below the total run length.
pub open spec fn covering_run(runs: Seq<Rect>, p: int) -> int {
    choose|k: int|
        0 <= k < runs.len() && #[trigger] run_start(runs, k) <= p < run_start(runs, k)
            + runs[k].length
}

/// Some run covers every position below the total run length.
proof fn lemma_covering_exists(runs: Seq<Rect>, p: int, m: int)
    requires
        0 <= m <= runs.len(),
        0 <= p < run_start(runs, m),
    ensures
        exists|k: int|
            0 <= k < m && #[trigger] run_start(runs, k) <= p < run_start(runs, k)
                + runs[k].length,
    decreases m,
{
    if p >= run_start(runs, m - 1) {
        assert(run_start(runs, m - 1) <= p < run_start(runs, m - 1) + runs[m - 1].length);
    } else {
        lemma_covering_exists(runs, p, m - 1);
    }
}

/// At most one run covers a position.
proof fn lemma_covering_unique(runs: Seq<Rect>, p: int, k1: int, k2: int)
    requires
        0 <= k1 < runs.len(),
        run_start(runs, k1) <= p < run_start(runs, k1) + runs[k1].length,
        0 <= k2 < runs.len(),
        run_start(runs, k2) <= p < run_start(runs, k2) + runs[k2].length,
    ensures
        k1 == k2,
{
    if k1 < k2 {
        lemma_run_start_monotonic(runs, k1 + 1, k2);
    }
    if k2 < k1 {
        lemma_run_start_monotonic(runs, k2 + 1, k1);
    }
}

/// Whether the icon placement puts an opaque pixel at canvas coordinates
/// `(x, y)`: the coordinates lie in the rectangle, their linear position is
/// inside both the rectangle's area and the run stream, and the covering
/// run names an opaque palette entry.
pub open spec fn covered_opaque(
    img: DecodedImage,
    palette: Seq<Color>,
    ox: int,
    oy: int,
    x: int,
    y: int,
) -> bool {
    let w = img.bounds.spec_width();
    let lx = x - (ox + img.bounds.left);
    let ly = y - (oy + img.bounds.top);
    let p = ly * w + lx;
    &&& 0 <= lx < w
    &&& 0 <= ly
    &&& p < icon_area(img.bounds)
    &&& p < total_run_length(img.rects@)
    &&& palette[img.rects@[covering_run(img.rects@, p)].color_index as int].0 is Some
}

/// The color the icon placement puts at canvas coordinates `(x, y)`;
/// meaningful when `covered_opaque` holds there.
pub open spec fn covered_color(
    img: DecodedImage,
    palette: Seq<Color>,
    ox: int,
    oy: int,
    x: int,
    y: int,
) -> Rgb {
    let w = img.bounds.spec_width();
    let lx = x - (ox + img.bounds.left);
    let ly = y - (oy + img.bounds.top);
    let p = ly * w + lx;
    palette[img.rects@[covering_run(img.rects@, p)].color_index as int].0->Some_0
}

/// Once the covering run has painted a pixel, no later run of the same
/// icon touches it again.
proof fn lemma_prefix_after_covering(
    cv: CanvasView,
    img: DecodedImage,
    palette: Seq<Color>,
    ox: int,
    oy: int,
    x: int,
    y: int,
    k: int,
)
    requires
        cv.wf(),
        cv.in_bounds(x, y),
        covered_opaque(img, palette, ox, oy, x, y),
        covering_run(
            img.rects@,
            (y - (oy + img.bounds.top)) * img.bounds.spec_width() + (x - (ox + img.bounds.left)),
        ) < k <= img.rects@.len(),
    ensures
        paint_prefix(cv, img, palette, ox, oy, k).pix(x, y) == covered_color(
            img,
            palette,
            ox,
            oy,
            x,
            y,
        ),
    decreases k,
{
    let runs = img.rects@;
    let b = img.bounds;
    let w = b.spec_width();
    let lx = x - (ox + b.left);
    let ly = y - (oy + b.top);
    let p = ly * w + lx;
    lemma_covering_exists(runs, p, runs.len() as int);
    let kc = covering_run(runs, p);
    assert(0 <= kc < runs.len() && run_start(runs, kc) <= p < run_start(runs, kc)
        + runs[kc].length);
    lemma_flat_index(cv, x, y);
    let j = y * (cv.width as int) + x;
    lemma_paint_prefix_dims(cv, img, palette, ox, oy, k - 1);
    let prev = paint_prefix(cv, img, palette, ox, oy, k - 1);
    if k == kc + 1 {
        // This very step paints the pixel with the covering run's color.
        let lo = run_start(runs, kc);
        let hi = lo + runs[kc].length;
        assert(seg_hits(prev, b, ox, oy, lo, hi, j));
    } else {
        lemma_prefix_after_covering(cv, img, palette, ox, oy, x, y, k - 1);
        let entry = palette[runs[k - 1].color_index as int];
        if entry.0 is Some {
            let lo = run_start(runs, k - 1);
            let hi = lo + runs[k - 1].length;
            assert(!seg_hits(prev, b, ox, oy, lo, hi, j)) by {
                if seg_hits(prev, b, ox, oy, lo, hi, j) {
                    // The hit position is p itself, so run k - 1 would cover
                    // p as well; but run starts only grow, and the covering
                    // run already reaches past p.
                    assert(prev.col_of(j) == x && prev.row_of(j) == y);
                    lemma_run_start_monotonic(runs, kc + 1, k - 1);
                    assert(false);
                }
            }
        }
    }
}

/// A pixel the icon covers with an opaque run shows that run's color after
/// the icon is painted, whatever the canvas held before.
pub proof fn lemma_opaque_pixel_shows_icon_color(
    cv: CanvasView,
    img: DecodedImage,
    palette: Seq<Color>,
    ox: int,
    oy: int,
    x: int,
    y: int,
)
    requires
        cv.wf(),
        cv.in_bounds(x, y),
        covered_opaque(img, palette, ox, oy, x, y),
    ensures
        paint_icon(cv, img, palette, ox, oy).pix(x, y) == covered_color(
            img,
            palette,
            ox,
            oy,
            x,
            y,
        ),
{
    let runs = img.rects@;
    let w = img.bounds.spec_width();
    let lx = x - (ox + img.bounds.left);
    let ly = y - (oy + img.bounds.top);
    let p = ly * w + lx;
    lemma_covering_exists(runs, p, runs.len() as int);
    lemma_prefix_after_covering(cv, img, palette, ox, oy, x, y, runs.len() as int);
}

/// The layering law: painting a lower layer and then an upper layer shows
/// the upper layer's color wherever the upper layer is opaque, whatever
/// the lower layer painted there.
pub proof fn lemma_later_layer_occludes(
    cv: CanvasView,
    lower: DecodedImage,
    upper: DecodedImage,
    palette: Seq<Color>,
    ox: int,
    oy: int,
    x: int,
    y: int,
)
    requires
        cv.wf(),
        cv.in_bounds(x, y),
        covered_opaque(upper, palette, ox, oy, x, y),
    ensures
        paint_icon(paint_icon(cv, lower, palette, ox, oy), upper, palette, ox, oy).pix(x, y)
            == covered_color(upper, palette, ox, oy, x, y),
{
    lemma_paint_prefix_dims(cv, lower, palette, ox, oy, lower.rects@.len() as int);
    let mid = paint_icon(cv, lower, palette, ox, oy);
    lemma_opaque_pixel_shows_icon_color(mid, upper, palette, ox, oy, x, y);
}

/// An icon draw, complete or stopped, never changes the canvas dimensions
/// or pixel count.
pub proof fn lemma_icon_outcome_dims(
    cv: CanvasView,
    img: DecodedImage,
    palette: Seq<Color>,
    ox: int,
    oy: int,
)
    ensures
        icon_outcome(cv, img, palette, ox, oy).width == cv.width,
        icon_outcome(cv, img, palette, ox, oy).height == cv.height,
        icon_outcome(cv, img, palette, ox, oy).pixels.len() == cv.pixels.len(),
{
    lemma_paint_prefix_dims(cv, img, palette, ox, oy, img.rects@.len() as int);
    lemma_paint_prefix_dims(cv, img, palette, ox, oy, first_invalid_run(img.rects@, palette));
}

use crate::nouns::{ImageDataContainer, NounSeed};

impl ImageDataContainer {
    /// Every icon of every category carries an ordered bounding rectangle.
    pub open spec fn wf(self) -> bool {
        &&& forall|i: int|
            0 <= i < self.images.bodies@.len() ==> (#[trigger] self.images.bodies@[i]).data.wf()
        &&& forall|i: int|
            0 <= i < self.images.heads@.len() ==> (#[trigger] self.images.heads@[i]).data.wf()
        &&& forall|i: int|
            0 <= i < self.images.accessories@.len() ==> (
            #[trigger] self.images.accessories@[i]).data.wf()
        &&& forall|i: int|
            0 <= i < self.images.glasses@.len() ==> (#[trigger] self.images.glasses@[i]).data.wf()
    }

    /// The seed's background index selects an existing background color.
    pub open spec fn background_ok(self, seed: NounSeed) -> bool {
        (seed.background as int) < self.bgcolors@.len()
    }

    /// The seed's body index selects an existing body icon.
    pub open spec fn body_ok(self, seed: NounSeed) -> bool {
        (seed.body as int) < self.images.bodies@.len()
    }

    /// The seed's head index selects an existing head icon.
    pub open spec fn head_ok(self, seed: NounSeed) -> bool {
        (seed.head as int) < self.images.heads@.len()
    }

    /// The seed's accessory index selects an existing accessory icon.
    pub open spec fn accessory_ok(self, seed: NounSeed) -> bool {
        (seed.accessory as int) < self.images.accessories@.len()
    }

    /// The seed's glasses index selects an existing glasses icon.
    pub open spec fn glasses_ok(self, seed: NounSeed) -> bool {
        (seed.glasses as int) < self.images.glasses@.len()
    }

    /// The body icon the seed selects.
    pub open spec fn body_icon(self, seed: NounSeed) -> DecodedImage {
        self.images.bodies@[seed.body as int].data
    }

    /// The head icon the seed selects.
    pub open spec fn head_icon(self, seed: NounSeed) -> DecodedImage {
        self.images.heads@[seed.head as int].data
    }

    /// The accessory icon the seed selects.
    pub open spec fn accessory_icon(self, seed: NounSeed) -> DecodedImage {
        self.images.accessories@[seed.accessory as int].data
    }

    /// The glasses icon the seed selects.
    pub open spec fn glasses_icon(self, seed: NounSeed) -> DecodedImage {
        self.images.glasses@[seed.glasses as int].data
    }

    /// The canvas after the background stage: an opaque background entry
    /// fills the icon square, a transparent one leaves the canvas alone.
    pub open spec fn after_background(self, seed: NounSeed, cv: CanvasView) -> CanvasView {
        match self.bgcolors@[seed.background as int].0 {
            Some(rgb) => rect_fill(cv, 0, 0, 32, 32, rgb),
            None => cv,
        }
    }

    /// The canvas after the body layer.
    pub open spec fn after_body(self, seed: NounSeed, cv: CanvasView) -> CanvasView {
        icon_outcome(self.after_background(seed, cv), self.body_icon(seed), self.palette@, 0, 0)
    }

    /// The canvas after the head layer, which draws over the body.
    pub open spec fn after_head(self, seed: NounSeed, cv: CanvasView) -> CanvasView {
        icon_outcome(self.after_body(seed, cv), self.head_icon(seed), self.palette@, 0, 0)
    }

    /// The canvas after the accessory layer.
    pub open spec fn after_accessory(self, seed: NounSeed, cv: CanvasView) -> CanvasView {
        icon_outcome(self.after_head(seed, cv), self.accessory_icon(seed), self.palette@, 0, 0)
    }

    /// The canvas after the glasses layer, the topmost.
    pub open spec fn after_glasses(self, seed: NounSeed, cv: CanvasView) -> CanvasView {
        icon_outcome(self.after_accessory(seed, cv), self.glasses_icon(seed), self.palette@, 0, 0)
    }

    /// Every seed field selects an existing entry of its category.
    pub open spec fn seed_in_range(self, seed: NounSeed) -> bool {
        self.background_ok(seed) && self.body_ok(seed) && self.head_ok(seed) && self.accessory_ok(
            seed,
        ) && self.glasses_ok(seed)
    }

    /// Whether a full render of `seed` succeeds: every index in range and
    /// every run of every selected icon naming a palette entry.
    pub open spec fn render_ok(self, seed: NounSeed) -> bool {
        &&& self.seed_in_range(seed)
        &&& runs_valid(self.body_icon(seed), self.palette@)
        &&& runs_valid(self.head_icon(seed), self.palette@)
        &&& runs_valid(self.accessory_icon(seed), self.palette@)
        &&& runs_valid(self.glasses_icon(seed), self.palette@)
    }

    /// The render pipeline's layering law, at the head stage: wherever the
    /// head icon puts an opaque pixel, the canvas after the head layer
    /// shows the head's color there, whatever the background and body
    /// stages painted — the head occludes the body.
    pub proof fn lemma_head_occludes_body(
        self,
        seed: NounSeed,
        cv: CanvasView,
        x: int,
        y: int,
    )
        requires
            cv.wf(),
            cv.in_bounds(x, y),
            runs_valid(self.head_icon(seed), self.palette@),
            covered_opaque(self.head_icon(seed), self.palette@, 0, 0, x, y),
        ensures
            self.after_head(seed, cv).pix(x, y) == covered_color(
                self.head_icon(seed),
                self.palette@,
                0,
                0,
                x,
                y,
            ),
    {
        let c1 = self.after_background(seed, cv);
        assert(c1.wf() && c1.width == cv.width && c1.height == cv.height);
        let c2 = self.after_body(seed, cv);
        lemma_icon_outcome_dims(c1, self.body_icon(seed), self.palette@, 0, 0);
        lemma_opaque_pixel_shows_icon_color(c2, self.head_icon(seed), self.palette@, 0, 0, x, y);
    }

    /// Compose the icon a seed selects onto the top-left square of the
    /// canvas: background fill first, then the body, head, accessory and
    /// glasses layers in that order, later layers drawing over earlier
    /// ones. Each seed index is checked before its stage runs; a failing
    /// check aborts the remaining stages and keeps the draws already made.
    pub fn draw_noun(&self, canvas: &mut Canvas, seed: &NounSeed) -> (r: Result<(), RenderError>)
        requires
            old(canvas)@.wf(),
            self.wf(),
        ensures
            final(canvas)@.wf(),
            final(canvas)@.width == old(canvas)@.width,
            final(canvas)@.height == old(canvas)@.height,
            (r is Ok) <==> self.render_ok(*seed),
            !self.background_ok(*seed) ==> r == Err::<(), RenderError>(
                RenderError::SeedIndexOutOfBounds,
            ) && final(canvas)@ == old(canvas)@,
            self.background_ok(*seed) && !self.body_ok(*seed) ==> r == Err::<(), RenderError>(
                RenderError::SeedIndexOutOfBounds,
            ) && final(canvas)@ == self.after_background(*seed, old(canvas)@),
            self.background_ok(*seed) && self.body_ok(*seed) && !runs_valid(
                self.body_icon(*seed),
                self.palette@,
            ) ==> r == Err::<(), RenderError>(RenderError::PaletteIndexOutOfBounds) && final(canvas)@ == self.after_body(*seed, old(canvas)@),
            self.background_ok(*seed) && self.body_ok(*seed) && runs_valid(
                self.body_icon(*seed),
                self.palette@,
            ) && !self.head_ok(*seed) ==> r == Err::<(), RenderError>(
                RenderError::SeedIndexOutOfBounds,
            ) && final(canvas)@ == self.after_body(*seed, old(canvas)@),
            self.background_ok(*seed) && self.body_ok(*seed) && runs_valid(
                self.body_icon(*seed),
                self.palette@,
            ) && self.head_ok(*seed) && !runs_valid(self.head_icon(*seed), self.palette@) ==> r
                == Err::<(), RenderError>(RenderError::PaletteIndexOutOfBounds) && final(canvas)@
                == self.after_head(*seed, old(canvas)@),
            self.background_ok(*seed) && self.body_ok(*seed) && runs_valid(
                self.body_icon(*seed),
                self.palette@,
            ) && self.head_ok(*seed) && runs_valid(self.head_icon(*seed), self.palette@)
                && !self.accessory_ok(*seed) ==> r == Err::<(), RenderError>(
                RenderError::SeedIndexOutOfBounds,
            ) && final(canvas)@ == self.after_head(*seed, old(canvas)@),
            self.background_ok(*seed) && self.body_ok(*seed) && runs_valid(
                self.body_icon(*seed),
                self.palette@,
            ) && self.head_ok(*seed) && runs_valid(self.head_icon(*seed), self.palette@)
                && self.accessory_ok(*seed) && !runs_valid(self.accessory_icon(*seed), self.palette@)
                ==> r == Err::<(), RenderError>(RenderError::PaletteIndexOutOfBounds) && final(canvas)@ == self.after_accessory(*seed, old(canvas)@),
            self.background_ok(*seed) && self.body_ok(*seed) && runs_valid(
                self.body_icon(*seed),
                self.palette@,
            ) && self.head_ok(*seed) && runs_valid(self.head_icon(*seed), self.palette@)
                && self.accessory_ok(*seed) && runs_valid(self.accessory_icon(*seed), self.palette@)
                && !self.glasses_ok(*seed) ==> r == Err::<(), RenderError>(
                RenderError::SeedIndexOutOfBounds,
            ) && final(canvas)@ == self.after_accessory(*seed, old(canvas)@),
            self.background_ok(*seed) && self.body_ok(*seed) && runs_valid(
                self.body_icon(*seed),
                self.palette@,
            ) && self.head_ok(*seed) && runs_valid(self.head_icon(*seed), self.palette@)
                && self.accessory_ok(*seed) && runs_valid(self.accessory_icon(*seed), self.palette@)
                && self.glasses_ok(*seed) && !runs_valid(self.glasses_icon(*seed), self.palette@)
                ==> r == Err::<(), RenderError>(RenderError::PaletteIndexOutOfBounds) && final(canvas)@ == self.after_glasses(*seed, old(canvas)@),
            self.render_ok(*seed) ==> r is Ok && final(canvas)@ == self.after_glasses(
                *seed,
                old(canvas)@,
            ),
    {
        let ghost cv0 = canvas@;
        if seed.background as usize >= self.bgcolors.len() {
            return Err(RenderError::SeedIndexOutOfBounds);
        }
        match self.bgcolors[seed.background as usize].0 {
            Some(rgb) => {
                canvas.fill_rect(0, 0, 32, 32, rgb);
            },
            None => {},
        }
        proof {
            assert(canvas@ == self.after_background(*seed, cv0));
        }
        if seed.body as usize >= self.images.bodies.len() {
            return Err(RenderError::SeedIndexOutOfBounds);
        }
        let ghost cv1 = canvas@;
        match self.images.bodies[seed.body as usize].data.draw_part(canvas, &self.palette, 0, 0) {
            Ok(_) => {},
            Err(e) => {
                proof {
                    let k = choose|k: int|
                        0 <= k < self.body_icon(*seed).rects@.len() && valid_upto(
                            self.body_icon(*seed).rects@,
                            self.palette@,
                            k,
                        ) && !((#[trigger] self.body_icon(*seed).rects@[k]).color_index
                            < self.palette@.len()) && canvas@ == paint_prefix(
                            cv1,
                            self.body_icon(*seed),
                            self.palette@,
                            0,
                            0,
                            k,
                        );
                    lemma_icon_outcome_stopped(cv1, self.body_icon(*seed), self.palette@, 0, 0, k);
                }
                return Err(e);
            },
        }
        if seed.head as usize >= self.images.heads.len() {
            return Err(RenderError::SeedIndexOutOfBounds);
        }
        let ghost cv2 = canvas@;
        match self.images.heads[seed.head as usize].data.draw_part(canvas, &self.palette, 0, 0) {
            Ok(_) => {},
            Err(e) => {
                proof {
                    let k = choose|k: int|
                        0 <= k < self.head_icon(*seed).rects@.len() && valid_upto(
                            self.head_icon(*seed).rects@,
                            self.palette@,
                            k,
                        ) && !((#[trigger] self.head_icon(*seed).rects@[k]).color_index
                            < self.palette@.len()) && canvas@ == paint_prefix(
                            cv2,
                            self.head_icon(*seed),
                            self.palette@,
                            0,
                            0,
                            k,
                        );
                    lemma_icon_outcome_stopped(cv2, self.head_icon(*seed), self.palette@, 0, 0, k);
                }
                return Err(e);
            },
        }
        if seed.accessory as usize >= self.images.accessories.len() {
            return Err(RenderError::SeedIndexOutOfBounds);
        }
        let ghost cv3 = canvas@;
        match self.images.accessories[seed.accessory as usize].data.draw_part(
            canvas,
            &self.palette,
            0,
            0,
        ) {
            Ok(_) => {},
            Err(e) => {
                proof {
                    let k = choose|k: int|
                        0 <= k < self.accessory_icon(*seed).rects@.len() && valid_upto(
                            self.accessory_icon(*seed).rects@,
                            self.palette@,
                            k,
                        ) && !((#[trigger] self.accessory_icon(*seed).rects@[k]).color_index
                            < self.palette@.len()) && canvas@ == paint_prefix(
                            cv3,
                            self.accessory_icon(*seed),
                            self.palette@,
                            0,
                            0,
                            k,
                        );
                    lemma_icon_outcome_stopped(
                        cv3,
                        self.accessory_icon(*seed),
                        self.palette@,
                        0,
                        0,
                        k,
                    );
                }
                return Err(e);
            },
        }
        if seed.glasses as usize >= self.images.glasses.len() {
            return Err(RenderError::SeedIndexOutOfBounds);
        }
        let ghost cv4 = canvas@;
        match self.images.glasses[seed.glasses as usize].data.draw_part(
            canvas,
            &self.palette,
            0,
            0,
        ) {
            Ok(_) => {},
            Err(e) => {
                proof {
                    let k = choose|k: int|
                        0 <= k < self.glasses_icon(*seed).rects@.len() && valid_upto(
                            self.glasses_icon(*seed).rects@,
                            self.palette@,
                            k,
                        ) && !((#[trigger] self.glasses_icon(*seed).rects@[k]).color_index
                            < self.palette@.len()) && canvas@ == paint_prefix(
                            cv4,
                            self.glasses_icon(*seed),
                            self.palette@,
                            0,
                            0,
                            k,
                        );
                    lemma_icon_outcome_stopped(
                        cv4,
                        self.glasses_icon(*seed),
                        self.palette@,
                        0,
                        0,
                        k,
                    );
                }
                return Err(e);
            },
        }
        Ok(())
    }
}

} // verus!
