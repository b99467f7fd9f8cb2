//! An owned square grid of unsigned integers over a linear row-major buffer.
//!
//! The invariant ties the buffer length to the square of the stored width;
//! cell `(x, y)` lives at linear index `y * width + x`.

use vstd::prelude::*;

verus! {

/// A `width x width` grid of `usize` values backed by a row-major `Vec`.
pub struct SquareMatrix {
    elems: Vec<usize>,
    width: usize,
}

impl View for SquareMatrix {
    type V = Seq<usize>;

    /// The grid viewed as its row-major buffer.
    closed spec fn view(&self) -> Seq<usize> {
        self.elems@
    }
}

impl SquareMatrix {
    /// The grid's side length.
    pub closed spec fn spec_width(&self) -> int {
        self.width as int
    }

    /// Well-formedness: the buffer holds exactly `width * width` cells.
    pub open spec fn wf(&self) -> bool {
        self@.len() == self.spec_width() * self.spec_width()
    }

    /// Creates a `size x size` grid with every cell zero.
    pub fn new(size: usize) -> (m: Self)
        requires
            size * size <= usize::MAX,
        ensures
            m.wf(),
            m.spec_width() == size,
            m@.len() == size * size,
            forall|i: int| 0 <= i < m@.len() ==> m@[i] == 0,
    {
        let n2 = size * size;
        let mut elems: Vec<usize> = Vec::new();
        while elems.len() < n2
            invariant
                elems.len() <= n2,
                forall|i: int| 0 <= i < elems.len() ==> elems@[i] == 0,
            decreases n2 - elems.len(),
        {
            elems.push(0);
        }
        SquareMatrix { elems, width: size }
    }

    /// The row-major buffer of cell values.
    pub fn elems(&self) -> (r: &Vec<usize>)
        ensures
            r@ == self@,
    {
        &self.elems
    }

    /// The number of cells, `width * width`.
    pub fn len(&self) -> (r: usize)
        ensures
            r == self@.len(),
    {
        self.elems.len()
    }

    /// The grid's side length.
    pub fn width(&self) -> (r: usize)
        ensures
            r == self.spec_width(),
    {
        self.width
    }

    /// Reads the cell at column `x`, row `y`.
    pub fn get(&self, x: usize, y: usize) -> (r: usize)
        requires
            self.wf(),
            x < self.spec_width(),
            y < self.spec_width(),
        ensures
            r == self@[y * self.spec_width() + x],
    {
        // Reading the exec length bounds `width * width` by `usize::MAX`.
        let n: usize = self.elems.len();
        proof {
            lemma_row_major_index_in_range(x as int, y as int, self.spec_width());
        }
        let idx = y * self.width + x;
        self.elems[idx]
    }

    /// Writes `v` into the cell at column `x`, row `y`.
    pub fn set(&mut self, x: usize, y: usize, v: usize)
        requires
            old(self).wf(),
            x < old(self).spec_width(),
            y < old(self).spec_width(),
        ensures
            final(self).wf(),
            final(self).spec_width() == old(self).spec_width(),
            final(self)@ == old(self)@.update(y * old(self).spec_width() + x, v),
    {
        // Reading the exec length bounds `width * width` by `usize::MAX`.
        let n: usize = self.elems.len();
        proof {
            lemma_row_major_index_in_range(x as int, y as int, self.spec_width());
        }
        let idx = y * self.width + x;
        self.elems[idx] = v;
    }
}

/// The row-major index of an in-range cell lies within the buffer.
pub proof fn lemma_row_major_index_in_range(x: int, y: int, w: int)
    by (nonlinear_arith)
    requires
        0 <= x < w,
        0 <= y < w,
    ensures
        0 <= y * w + x < w * w,
{
}

} // verus!
