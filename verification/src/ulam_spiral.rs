//! The spiral builder: populates a square grid with 1..size^2 by walking an
//! outward counter-clockwise spiral from the center, and states exactly which
//! value lands in which cell.

use vstd::arithmetic::div_mod::{
    lemma_fundamental_div_mod, lemma_fundamental_div_mod_converse, lemma_div_pos_is_pos,
    lemma_mod_pos_bound, lemma_multiply_divide_lt,
};
use vstd::arithmetic::mul::lemma_mul_is_commutative;
use vstd::prelude::*;

use crate::directions::Directions;
use crate::spiral::{
    chebyshev, lemma_cell_value_bound, lemma_spiral_covers, lemma_spiral_value_injective,
    lemma_value_bounds_cell, lemma_walk_cell, spiral_value,
};
use crate::square_matrix::{lemma_row_major_index_in_range, SquareMatrix};

verus! {

/// The geometric layout a spiral will be projected with.
#[derive(Clone, Copy, PartialEq, Eq, Structural, Debug)]
pub enum UlamSpiralFormat {
    Square,
    Circle,
}

/// The one fatal input error: a size that is zero, even, or too large for
/// the walk's counter to fit the machine's word.
#[derive(Clone, Copy, PartialEq, Eq, Structural, Debug)]
pub enum SpiralError {
    InvalidSize,
}

/// A size the builder accepts: positive, odd, and small enough that every
/// counter up to `size * size + 1` fits in a `usize`.
pub open spec fn valid_size(last: usize) -> bool {
    last % 2 == 1 && last * last < usize::MAX
}

/// The value the spiral assigns to linear cell `q` of a width-`n` grid.
pub open spec fn spiral_cell(q: int, n: int) -> int {
    spiral_value(q % n - n / 2, q / n - n / 2)
}

/// `g` is the complete spiral layout of a width-`n` grid.
pub open spec fn spiral_grid(g: Seq<usize>, n: int) -> bool {
    &&& g.len() == n * n
    &&& forall|q: int| 0 <= q < g.len() ==> #[trigger] g[q] == spiral_cell(q, n)
}

/// `g` is the spiral layout restricted to the values below `bound`: a cell
/// already visited by the walk holds its value, every other cell still
/// holds zero.
pub open spec fn partial_spiral_grid(g: Seq<usize>, n: int, bound: int) -> bool {
    &&& g.len() == n * n
    &&& forall|q: int|
        0 <= q < g.len() ==> #[trigger] g[q] == if spiral_cell(q, n) < bound {
            spiral_cell(q, n)
        } else {
            0
        }
}

/// Facts about the row and column of linear index `q` in a width-`n` grid.
pub proof fn lemma_grid_index(q: int, n: int)
    requires
        n >= 1,
        0 <= q < n * n,
    ensures
        0 <= q % n < n,
        0 <= q / n < n,
        q == (q / n) * n + q % n,
{
    lemma_mod_pos_bound(q, n);
    lemma_div_pos_is_pos(q, n);
    lemma_multiply_divide_lt(q, n, n);
    lemma_fundamental_div_mod(q, n);
    lemma_mul_is_commutative(n, q / n);
}

/// Writing value `v` into its spiral cell advances a partial layout by one.
proof fn lemma_grid_write(g: Seq<usize>, n: int, v: usize, x: int, y: int)
    requires
        n >= 1,
        n % 2 == 1,
        partial_spiral_grid(g, n, v as int),
        0 <= x < n,
        0 <= y < n,
        spiral_value(x - n / 2, y - n / 2) == v as int,
    ensures
        partial_spiral_grid(g.update(y * n + x, v), n, v as int + 1),
{
    let k = n / 2;
    lemma_row_major_index_in_range(x, y, n);
    let idx = y * n + x;
    lemma_fundamental_div_mod_converse(idx, n, y, x);
    let g1 = g.update(idx, v);
    assert forall|q: int| 0 <= q < g1.len() implies #[trigger] g1[q] == if spiral_cell(q, n) < v
        as int + 1 {
        spiral_cell(q, n)
    } else {
        0
    } by {
        lemma_grid_index(q, n);
        let dx = q % n - k;
        let dy = q / n - k;
        if q == idx {
            assert(spiral_cell(q, n) == v as int);
        } else {
            assert(g1[q] == g[q]);
            if spiral_value(dx, dy) == v as int {
                lemma_spiral_value_injective(dx, dy, x - k, y - k);
                assert(q == (q / n) * n + q % n);
                assert(false);
            }
        }
    }
}

/// A complete spiral grid of odd width `n` holds every value of
/// `[1, n * n]` somewhere.
pub proof fn lemma_spiral_grid_covers(g: Seq<usize>, n: int, v: int)
    requires
        spiral_grid(g, n),
        n >= 1,
        n % 2 == 1,
        1 <= v <= n * n,
    ensures
        exists|q: int| 0 <= q < g.len() && #[trigger] g[q] == v,
{
    let k = n / 2;
    assert(n == 2 * k + 1);
    assert((2 * k + 1) * (2 * k + 1) == n * n);
    lemma_spiral_covers(v, k);
    let (dx, dy): (int, int) = choose|dx: int, dy: int|
        chebyshev(dx, dy) <= k && #[trigger] spiral_value(dx, dy) == v;
    let x = dx + k;
    let y = dy + k;
    lemma_row_major_index_in_range(x, y, n);
    let q = y * n + x;
    lemma_fundamental_div_mod_converse(q, n, y, x);
    assert(g[q] == v);
}

/// No value appears at two distinct cells of a complete spiral grid.
pub proof fn lemma_spiral_grid_distinct(g: Seq<usize>, n: int, q1: int, q2: int)
    requires
        spiral_grid(g, n),
        n >= 1,
        0 <= q1 < g.len(),
        0 <= q2 < g.len(),
        g[q1] == g[q2],
    ensures
        q1 == q2,
{
    lemma_grid_index(q1, n);
    lemma_grid_index(q2, n);
    lemma_spiral_value_injective(
        q1 % n - n / 2,
        q1 / n - n / 2,
        q2 % n - n / 2,
        q2 / n - n / 2,
    );
    assert(q1 == (q1 / n) * n + q1 % n);
    assert(q2 == (q2 / n) * n + q2 % n);
}

/// An Ulam spiral: the populated grid together with the layout chosen for
/// rendering.
pub struct UlamSpiral {
    matrix: SquareMatrix,
    format: UlamSpiralFormat,
}

impl View for UlamSpiral {
    type V = Seq<usize>;

    /// The spiral viewed as its row-major grid buffer.
    closed spec fn view(&self) -> Seq<usize> {
        self.matrix@
    }
}

impl UlamSpiral {
    /// The grid's side length.
    pub closed spec fn spec_width(&self) -> int {
        self.matrix.spec_width()
    }

    /// The layout chosen at construction.
    pub closed spec fn spec_format(&self) -> UlamSpiralFormat {
        self.format
    }

    /// Well-formedness: the grid buffer holds exactly `width * width` cells.
    pub open spec fn wf(&self) -> bool {
        self@.len() == self.spec_width() * self.spec_width()
    }

    /// Builds the spiral of side `last`: value 1 at the center, then 2, 3,
    /// ... laid out by the counter-clockwise walk. Any size that is zero,
    /// even, or too large to count to `last * last + 1` in a `usize` is
    /// rejected as `InvalidSize`.
    pub fn new(last: usize, format: UlamSpiralFormat) -> (result: Result<UlamSpiral, SpiralError>)
        ensures
            match result {
                Ok(s) => valid_size(last) && s.wf() && s.spec_width() == last
                    && s.spec_format() == format && spiral_grid(s@, last as int),
                Err(e) => !valid_size(last) && e == SpiralError::InvalidSize,
            },
    {
        if last % 2 == 0 {
            return Err(SpiralError::InvalidSize);
        }
        let n2 = match last.checked_mul(last) {
            Some(v) => v,
            None => {
                return Err(SpiralError::InvalidSize);
            },
        };
        if n2 == usize::MAX {
            return Err(SpiralError::InvalidSize);
        }
        let ghost n: int = last as int;
        let ghost k: int = n / 2;
        assert(n == 2 * k + 1);
        assert(n * n == (2 * k + 1) * (2 * k + 1));

        assert(last * last >= 1) by (nonlinear_arith)
            requires
                last >= 1,
        ;
        let mut matrix = SquareMatrix::new(last);
        let c = last / 2;
        proof {
            assert forall|q: int| 0 <= q < matrix@.len() implies #[trigger] matrix@[q]
                == if spiral_cell(q, n) < 1 {
                spiral_cell(q, n)
            } else {
                0
            } by {
                lemma_grid_index(q, n);
                lemma_cell_value_bound(q % n - k, q / n - k, k);
            }
            assert(spiral_value(0, 0) == 1);
            lemma_grid_write(matrix@, n, 1, c as int, c as int);
        }
        matrix.set(c, c, 1);

        let mut x = c;
        let mut y = c;
        let mut dir = Directions::Right;
        let mut step: usize = 1;
        let mut seg: usize = 0;
        let mut j: usize = 0;
        let mut i: usize = 2;
        while i <= n2
            invariant
                n == last as int,
                k == n / 2,
                n % 2 == 1,
                n >= 1,
                n2 == n * n,
                n2 < usize::MAX,
                matrix.wf(),
                matrix.spec_width() == n,
                partial_spiral_grid(matrix@, n, i as int),
                1 <= step,
                seg <= 1,
                j < step,
                i == step * (step - 1) + 2 + seg * step + j,
                2 <= i <= n2 + 1,
                step % 2 == 1 && seg == 0 ==> dir == Directions::Right && x as int == k - (step
                    - 1) / 2 + j && y as int == k + (step - 1) / 2,
                step % 2 == 1 && seg == 1 ==> dir == Directions::Up && x as int == k + (step
                    + 1) / 2 && y as int == k + (step - 1) / 2 - j,
                step % 2 == 0 && seg == 0 ==> dir == Directions::Left && x as int == k + step / 2
                    - j && y as int == k - step / 2,
                step % 2 == 0 && seg == 1 ==> dir == Directions::Down && x as int == k - step / 2
                    && y as int == k - step / 2 + j,
                x < last,
                y < last,
            decreases n2 + 1 - i,
        {
            let ghost olddx: int = x as int - k;
            let ghost olddy: int = y as int - k;
            let ghost (ndx, ndy): (int, int) = match dir {
                Directions::Right => (olddx + 1, olddy),
                Directions::Up => (olddx, olddy - 1),
                Directions::Left => (olddx - 1, olddy),
                Directions::Down => (olddx, olddy + 1),
            };
            proof {
                lemma_walk_cell(step as int, seg as int, j as int, ndx, ndy);
                assert(spiral_value(ndx, ndy) == i as int);
                lemma_value_bounds_cell(ndx, ndy, k);
            }
            match dir {
                Directions::Right => {
                    x = x + 1;
                },
                Directions::Up => {
                    y = y - 1;
                },
                Directions::Left => {
                    x = x - 1;
                },
                Directions::Down => {
                    y = y + 1;
                },
            }
            proof {
                lemma_grid_write(matrix@, n, i, x as int, y as int);
            }
            matrix.set(x, y, i);
            i = i + 1;
            j = j + 1;
            if j == step {
                j = 0;
                dir = dir.rotate_counter_clockwise();
                seg = seg + 1;
                if seg == 2 {
                    seg = 0;
                    proof {
                        assert(step < last) by (nonlinear_arith)
                            requires
                                step >= 1,
                                last >= 1,
                                step * (step - 1) + 2 + step + (step - 1) <= last * last,
                        ;
                        assert((step + 1) * (step + 1 - 1) == step * (step - 1) + 2 * step)
                            by (nonlinear_arith);
                    }
                    step = step + 1;
                }
            }
        }
        assert(i == n2 + 1);
        proof {
            assert forall|q: int| 0 <= q < matrix@.len() implies #[trigger] matrix@[q]
                == spiral_cell(q, n) by {
                lemma_grid_index(q, n);
                lemma_cell_value_bound(q % n - k, q / n - k, k);
            }
        }
        Ok(UlamSpiral { matrix, format })
    }

    /// The grid linearized row-major.
    pub fn elems(&self) -> (r: &Vec<usize>)
        ensures
            r@ == self@,
    {
        self.matrix.elems()
    }

    /// The grid's side length.
    pub fn width(&self) -> (r: usize)
        ensures
            r == self.spec_width(),
    {
        self.matrix.width()
    }

    /// The layout chosen at construction.
    pub fn format(&self) -> (r: UlamSpiralFormat)
        ensures
            r == self.spec_format(),
    {
        self.format
    }
}

} // verus!
