//! The mathematics of the spiral walk.
//!
//! The walk assigns 1 to the center cell and then, turning counter-clockwise
//! through Right, Up, Left, Down, lays out 2, 3, ... ring by ring. For a cell
//! at offset `(dx, dy)` from the center (`dy` grows downward), the value it
//! receives has a closed form: `spiral_value`. The lemmas here show that this
//! assignment is a bijection between the cells of each centered square and an
//! initial segment of the integers, which is what the builder's contract and
//! the completeness of the grid rest on.

use vstd::prelude::*;

verus! {

/// Chebyshev distance of the cell offset `(dx, dy)` from the center: the
/// index of the square ring the cell lies on.
pub open spec fn chebyshev(dx: int, dy: int) -> int {
    let ax = if dx < 0 { -dx } else { dx };
    let ay = if dy < 0 { -dy } else { dy };
    if ax >= ay {
        ax
    } else {
        ay
    }
}

/// The value the spiral walk writes into the cell at offset `(dx, dy)` from
/// the center. Ring `r` holds the values `((2r-1)^2, (2r+1)^2]`; within a
/// ring the walk climbs the right column, crosses the top row leftward,
/// descends the left column and crosses the bottom row rightward.
pub open spec fn spiral_value(dx: int, dy: int) -> int {
    let r = chebyshev(dx, dy);
    if r == 0 {
        1
    } else if dx == r && dy < r {
        4 * r * r - 4 * r + 2 + (r - 1 - dy)
    } else if dy == -r {
        4 * r * r - 2 * r + 2 + (r - 1 - dx)
    } else if dx == -r {
        4 * r * r + r + 1 + dy
    } else {
        4 * r * r + 3 * r + 1 + dx
    }
}

/// The cell the walk visits immediately after the cell at `(dx, dy)`.
pub open spec fn next_cell(dx: int, dy: int) -> (int, int) {
    let r = chebyshev(dx, dy);
    if r == 0 {
        (1, 0)
    } else if dx == r && dy < r {
        if dy > -r {
            (dx, dy - 1)
        } else {
            (dx - 1, dy)
        }
    } else if dy == -r {
        if dx > -r {
            (dx - 1, dy)
        } else {
            (dx, dy + 1)
        }
    } else if dx == -r {
        if dy < r {
            (dx, dy + 1)
        } else {
            (dx + 1, dy)
        }
    } else {
        (dx + 1, dy)
    }
}

/// Squaring is monotone on the non-negative integers.
pub proof fn lemma_sq_le(a: int, b: int)
    by (nonlinear_arith)
    requires
        0 <= a <= b,
    ensures
        a * a <= b * b,
{
}

/// Every cell of ring `r >= 1` holds a value in `((2r-1)^2, (2r+1)^2]`.
pub proof fn lemma_spiral_value_range(dx: int, dy: int)
    requires
        chebyshev(dx, dy) >= 1,
    ensures
        (2 * chebyshev(dx, dy) - 1) * (2 * chebyshev(dx, dy) - 1) < spiral_value(dx, dy),
        spiral_value(dx, dy) <= (2 * chebyshev(dx, dy) + 1) * (2 * chebyshev(dx, dy) + 1),
{
    let r = chebyshev(dx, dy);
    assert((2 * r - 1) * (2 * r - 1) == 4 * r * r - 4 * r + 1) by (nonlinear_arith);
    assert((2 * r + 1) * (2 * r + 1) == 4 * r * r + 4 * r + 1) by (nonlinear_arith);
}

/// Every cell within Chebyshev distance `k` of the center holds a value in
/// `[1, (2k+1)^2]`.
pub proof fn lemma_cell_value_bound(dx: int, dy: int, k: int)
    requires
        0 <= chebyshev(dx, dy) <= k,
    ensures
        1 <= spiral_value(dx, dy) <= (2 * k + 1) * (2 * k + 1),
{
    let r = chebyshev(dx, dy);
    if r == 0 {
        lemma_sq_le(1, 2 * k + 1);
    } else {
        lemma_spiral_value_range(dx, dy);
        lemma_sq_le(1, 2 * r - 1);
        lemma_sq_le(2 * r + 1, 2 * k + 1);
    }
}

/// A cell whose value is at most `(2k+1)^2` lies within Chebyshev distance
/// `k` of the center.
pub proof fn lemma_value_bounds_cell(dx: int, dy: int, k: int)
    requires
        k >= 0,
        spiral_value(dx, dy) <= (2 * k + 1) * (2 * k + 1),
    ensures
        -k <= dx <= k,
        -k <= dy <= k,
{
    let r = chebyshev(dx, dy);
    if r >= 1 {
        lemma_spiral_value_range(dx, dy);
        if r > k {
            lemma_sq_le(2 * k + 1, 2 * r - 1);
            assert(false);
        }
    }
}

/// No two distinct cells receive the same value.
pub proof fn lemma_spiral_value_injective(dx1: int, dy1: int, dx2: int, dy2: int)
    requires
        spiral_value(dx1, dy1) == spiral_value(dx2, dy2),
    ensures
        dx1 == dx2,
        dy1 == dy2,
{
    let r1 = chebyshev(dx1, dy1);
    let r2 = chebyshev(dx2, dy2);
    if r1 >= 1 {
        lemma_spiral_value_range(dx1, dy1);
        lemma_sq_le(1, 2 * r1 - 1);
    }
    if r2 >= 1 {
        lemma_spiral_value_range(dx2, dy2);
        lemma_sq_le(1, 2 * r2 - 1);
    }
    if r1 < r2 {
        lemma_sq_le(2 * r1 + 1, 2 * r2 - 1);
        assert(false);
    }
    if r2 < r1 {
        lemma_sq_le(2 * r2 + 1, 2 * r1 - 1);
        assert(false);
    }
}

/// The successor cell holds the successor value; it lies at most one ring
/// further out, and moves outward only from the closing corner of a ring,
/// whose value is the ring's maximum, `(2r+1)^2`.
pub proof fn lemma_next_cell(dx: int, dy: int)
    ensures
        spiral_value(next_cell(dx, dy).0, next_cell(dx, dy).1) == spiral_value(dx, dy) + 1,
        chebyshev(next_cell(dx, dy).0, next_cell(dx, dy).1) <= chebyshev(dx, dy) + 1,
        chebyshev(next_cell(dx, dy).0, next_cell(dx, dy).1) > chebyshev(dx, dy) ==> spiral_value(
            dx,
            dy,
        ) == (2 * chebyshev(dx, dy) + 1) * (2 * chebyshev(dx, dy) + 1),
{
    let r = chebyshev(dx, dy);
    assert(4 * (r + 1) * (r + 1) - 4 * (r + 1) + 2 == 4 * r * r + 4 * r + 2) by (nonlinear_arith);
    assert((2 * r + 1) * (2 * r + 1) == 4 * r * r + 4 * r + 1) by (nonlinear_arith);
}

/// Every value in `[1, (2k+1)^2]` is assigned to some cell within Chebyshev
/// distance `k` of the center.
pub proof fn lemma_spiral_covers(v: int, k: int)
    requires
        k >= 0,
        1 <= v <= (2 * k + 1) * (2 * k + 1),
    ensures
        exists|dx: int, dy: int| chebyshev(dx, dy) <= k && #[trigger] spiral_value(dx, dy) == v,
    decreases v,
{
    if v == 1 {
        assert(chebyshev(0, 0) <= k && spiral_value(0, 0) == 1);
    } else {
        lemma_spiral_covers(v - 1, k);
        let (dx, dy): (int, int) = choose|dx: int, dy: int|
            chebyshev(dx, dy) <= k && #[trigger] spiral_value(dx, dy) == v - 1;
        lemma_next_cell(dx, dy);
        let nx = next_cell(dx, dy).0;
        let ny = next_cell(dx, dy).1;
        if chebyshev(nx, ny) > k {
            assert(chebyshev(dx, dy) == k);
            assert(v - 1 == (2 * k + 1) * (2 * k + 1));
            assert(false);
        }
        assert(chebyshev(nx, ny) <= k && spiral_value(nx, ny) == v);
    }
}

/// The value written by the `j`-th move of a segment of the walk, at the
/// cell that move reaches. Segment `seg` of step `s` starts at position
/// `s*(s-1) + 2 + seg*s` of the value sequence; odd steps run Right then Up,
/// even steps Left then Down.
pub proof fn lemma_walk_cell(s: int, seg: int, j: int, dx: int, dy: int)
    requires
        s >= 1,
        0 <= seg <= 1,
        0 <= j < s,
        s % 2 == 1 && seg == 0 ==> dx == (j + 1) - (s - 1) / 2 && dy == (s - 1) / 2,
        s % 2 == 1 && seg == 1 ==> dx == (s + 1) / 2 && dy == (s - 1) / 2 - (j + 1),
        s % 2 == 0 && seg == 0 ==> dx == s / 2 - (j + 1) && dy == -(s / 2),
        s % 2 == 0 && seg == 1 ==> dx == -(s / 2) && dy == -(s / 2) + (j + 1),
    ensures
        spiral_value(dx, dy) == s * (s - 1) + 2 + seg * s + j,
{
    if s % 2 == 1 {
        let m = (s - 1) / 2;
        assert(s == 2 * m + 1);
        assert(s * (s - 1) == 4 * m * m + 2 * m) by (nonlinear_arith)
            requires
                s == 2 * m + 1,
        ;
        assert(4 * (m + 1) * (m + 1) - 4 * (m + 1) + 2 == 4 * m * m + 4 * m + 2)
            by (nonlinear_arith);
        if seg == 0 {
            if j < 2 * m {
                assert(chebyshev(dx, dy) == m);
                assert(spiral_value(dx, dy) == 4 * m * m + 2 * m + 2 + j);
            } else {
                assert(j == 2 * m);
                assert(chebyshev(dx, dy) == m + 1);
                assert(spiral_value(dx, dy) == 4 * m * m + 4 * m + 2);
            }
        } else {
            assert(chebyshev(dx, dy) == m + 1);
            assert(spiral_value(dx, dy) == 4 * m * m + 4 * m + 3 + j);
        }
    } else {
        let m = s / 2;
        assert(s == 2 * m && m >= 1);
        assert(s * (s - 1) == 4 * m * m - 2 * m) by (nonlinear_arith)
            requires
                s == 2 * m,
        ;
        if seg == 0 {
            assert(chebyshev(dx, dy) == m);
            assert(spiral_value(dx, dy) == 4 * m * m - 2 * m + 2 + j);
        } else {
            assert(chebyshev(dx, dy) == m);
            assert(spiral_value(dx, dy) == 4 * m * m + 2 + j);
        }
    }
}

} // verus!
