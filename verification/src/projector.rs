//! Projection of prime-valued spiral cells onto a square pixel canvas.
//!
//! Square mode re-centers the grid on the canvas and scales it down with
//! truncating integer division, exactly as the rendering arithmetic demands
//! (the intermediate value can go negative before the division). Circular
//! mode computes its floating-point rotation outside the library and hands
//! the resulting integer coordinates to `clip_pixel` for the boundary rule.
//! Every emitted event lies strictly inside `[0, image_width)` on both axes;
//! a coordinate outside the canvas produces no event.

use vstd::prelude::*;

use crate::ulam_spiral::{lemma_grid_index, UlamSpiral};
use crate::utils::{is_prime, is_prime_spec};

verus! {

/// One mark to draw: the pixel coordinates of a prime-valued cell, flagged
/// as set. The dot radius is a rasterization parameter, not part of the
/// event.
#[derive(Clone, Copy, PartialEq, Eq, Structural, Debug)]
pub struct PixelEvent {
    pub x: usize,
    pub y: usize,
    pub mark: bool,
}

/// Division rounding toward zero, for a positive divisor.
pub open spec fn trunc_div(num: int, den: int) -> int {
    if num >= 0 {
        num / den
    } else {
        -((-num) / den)
    }
}

/// The horizontal pixel of linear cell `i` in square mode: the grid column
/// re-centered onto the scaled canvas, then divided down by the scale.
pub open spec fn square_pixel_x(i: int, n: int, iw: int, sc: int) -> int {
    trunc_div(iw * sc / 2 - n / 2 + i % n, sc)
}

/// The vertical pixel of linear cell `i` in square mode.
pub open spec fn square_pixel_y(i: int, n: int, iw: int, sc: int) -> int {
    trunc_div(iw * sc / 2 - n / 2 + i / n, sc)
}

/// The event cell `i` with value `v` emits in square mode: a mark at the
/// projected pixel when `v` is prime and the pixel lies on the canvas,
/// nothing otherwise.
pub open spec fn square_event(v: usize, i: int, n: int, iw: int, sc: int) -> Option<PixelEvent> {
    let px = square_pixel_x(i, n, iw, sc);
    let py = square_pixel_y(i, n, iw, sc);
    if is_prime_spec(v as int) && 0 <= px < iw && 0 <= py < iw {
        Some(PixelEvent { x: px as usize, y: py as usize, mark: true })
    } else {
        None
    }
}

/// The events of the first `m` cells of grid `g`, in cell order.
pub open spec fn project_square_spec(g: Seq<usize>, n: int, iw: int, sc: int, m: int) -> Seq<
    PixelEvent,
>
    decreases m,
{
    if m <= 0 {
        Seq::empty()
    } else {
        let rest = project_square_spec(g, n, iw, sc, m - 1);
        match square_event(g[m - 1], m - 1, n, iw, sc) {
            Some(e) => rest.push(e),
            None => rest,
        }
    }
}

/// Truncating division of a signed dividend by a positive divisor.
fn trunc_div_exec(num: i64, den: usize) -> (q: i64)
    requires
        den >= 1,
        num > i64::MIN,
    ensures
        q == trunc_div(num as int, den as int),
{
    let d: u64 = den as u64;
    if num >= 0 {
        let u: u64 = num as u64;
        let q: u64 = u / d;
        q as i64
    } else {
        let u: u64 = (-num) as u64;
        let q: u64 = u / d;
        -(q as i64)
    }
}

/// The boundary rule shared by both layout modes: a computed coordinate
/// pair produces a mark exactly when both components lie in
/// `[0, image_width)`; anything off the canvas is discarded.
pub fn clip_pixel(x: i64, y: i64, image_width: usize) -> (r: Option<PixelEvent>)
    ensures
        r == clip_pixel_spec(x as int, y as int, image_width as int),
{
    if x >= 0 && y >= 0 && (x as u64) < (image_width as u64) && (y as u64) < (image_width
        as u64) {
        Some(PixelEvent { x: x as usize, y: y as usize, mark: true })
    } else {
        None
    }
}

/// A mark at `(x, y)` when both coordinates lie on the canvas.
pub open spec fn clip_pixel_spec(x: int, y: int, iw: int) -> Option<PixelEvent> {
    if 0 <= x < iw && 0 <= y < iw {
        Some(PixelEvent { x: x as usize, y: y as usize, mark: true })
    } else {
        None
    }
}

impl UlamSpiral {
    /// Projects the grid in square mode: one event per prime-valued cell
    /// whose re-centered, scaled-down pixel lands on the
    /// `image_width x image_width` canvas. Events come in cell order; every
    /// event lies strictly inside the canvas.
    pub fn project_square(&self, image_width: usize, scale: usize) -> (r: Vec<PixelEvent>)
        requires
            self.wf(),
            scale >= 1,
            image_width * scale <= usize::MAX,
            image_width * scale / 2 + self.spec_width() <= i64::MAX,
        ensures
            r@ == project_square_spec(
                self@,
                self.spec_width(),
                image_width as int,
                scale as int,
                self@.len() as int,
            ),
            forall|t: int|
                0 <= t < r@.len() ==> (#[trigger] r@[t]).x < image_width && r@[t].y < image_width
                    && r@[t].mark,
    {
        let n = self.width();
        let len = self.elems().len();
        proof {
            assert(n as int <= i64::MAX) by (nonlinear_arith)
                requires
                    n * n <= usize::MAX,
                    usize::MAX <= u64::MAX,
            ;
        }
        let half_us: usize = image_width * scale / 2;
        let half: i64 = half_us as i64;
        let off: i64 = half - (n / 2) as i64;
        let mut r: Vec<PixelEvent> = Vec::new();
        let mut i: usize = 0;
        while i < len
            invariant
                self.wf(),
                n == self.spec_width(),
                len == self@.len(),
                scale >= 1,
                half == image_width * scale / 2,
                half + n <= i64::MAX,
                off == half - n as int / 2,
                i <= len,
                r@ == project_square_spec(
                    self@,
                    n as int,
                    image_width as int,
                    scale as int,
                    i as int,
                ),
                forall|t: int|
                    0 <= t < r@.len() ==> (#[trigger] r@[t]).x < image_width && r@[t].y
                        < image_width && r@[t].mark,
            decreases len - i,
        {
            proof {
                if n == 0 {
                    assert(self@.len() == 0);
                }
                lemma_grid_index(i as int, n as int);
            }
            let v: usize = self.elems()[i];
            let cx: usize = i % n;
            let cy: usize = i / n;
            let px: i64 = trunc_div_exec(off + cx as i64, scale);
            let py: i64 = trunc_div_exec(off + cy as i64, scale);
            let prime = is_prime(v);
            if prime && px >= 0 && py >= 0 && (px as u64) < (image_width as u64) && (py as u64)
                < (image_width as u64) {
                r.push(PixelEvent { x: px as usize, y: py as usize, mark: true });
            }
            proof {
                assert(px == square_pixel_x(i as int, n as int, image_width as int, scale as int));
                assert(py == square_pixel_y(i as int, n as int, image_width as int, scale as int));
            }
            i = i + 1;
        }
        r
    }
}

/// The square projection is a function of its arguments alone: two
/// projections of the same grid with the same parameters yield the same
/// event sequence. Rendering the events twice therefore paints the same
/// image.
pub proof fn lemma_project_square_deterministic(
    r1: Seq<PixelEvent>,
    r2: Seq<PixelEvent>,
    g: Seq<usize>,
    n: int,
    iw: int,
    sc: int,
    m: int,
)
    requires
        r1 == project_square_spec(g, n, iw, sc, m),
        r2 == project_square_spec(g, n, iw, sc, m),
    ensures
        r1 == r2,
{
}

/// Boundary rule for square mode: every event of the projection lies
/// strictly inside `[0, image_width)` on both axes. A cell whose computed
/// pixel falls outside the canvas emits nothing, by `square_event`.
pub proof fn lemma_project_square_bounded(g: Seq<usize>, n: int, iw: int, sc: int, m: int)
    requires
        0 <= iw <= usize::MAX,
    ensures
        forall|t: int|
            0 <= t < project_square_spec(g, n, iw, sc, m).len() ==> (#[trigger] project_square_spec(
                g,
                n,
                iw,
                sc,
                m,
            )[t]).x < iw && project_square_spec(g, n, iw, sc, m)[t].y < iw,
    decreases m,
{
    if m > 0 {
        lemma_project_square_bounded(g, n, iw, sc, m - 1);
        let prev = project_square_spec(g, n, iw, sc, m - 1);
        let cur = project_square_spec(g, n, iw, sc, m);
        assert forall|t: int| 0 <= t < cur.len() implies (#[trigger] cur[t]).x < iw && cur[t].y
            < iw by {
            if square_event(g[m - 1], m - 1, n, iw, sc) is Some && t == cur.len() - 1 {
                assert(cur[t] == square_event(g[m - 1], m - 1, n, iw, sc)->Some_0);
            } else {
                assert(cur[t] == prev[t]);
            }
        }
    }
}

/// Square mode with `scale == 1` and a canvas as wide as the grid is the
/// identity on cell coordinates: cell `i` projects to exactly
/// `(i % n, i / n)`, and an event is emitted precisely when the cell's
/// value is prime.
pub proof fn lemma_square_identity_projection(g: Seq<usize>, n: int, i: int)
    requires
        n >= 1,
        0 <= i < n * n,
        n <= usize::MAX,
    ensures
        square_pixel_x(i, n, n, 1) == i % n,
        square_pixel_y(i, n, n, 1) == i / n,
        square_event(g[i], i, n, n, 1) == if is_prime_spec(g[i] as int) {
            Some(PixelEvent { x: (i % n) as usize, y: (i / n) as usize, mark: true })
        } else {
            None::<PixelEvent>
        },
{
    lemma_grid_index(i, n);
}

} // verus!
