use vstd::prelude::*;
use vstd::slice::slice_subrange;
use vstd::std_specs::iter::IteratorSpec;
use crate::parallel::par_update;

verus! {

/// Offset of cell `(x, y)` in a row-major field with `cols` columns.
pub open spec fn flat_offset(cols: int, x: int, y: int) -> int {
    y * cols + x
}

/// Every row of a `cols` by `rows` field lies inside the field.
pub proof fn lemma_row_in_range(cols: int, rows: int, y: int)
    requires
        0 <= cols,
        0 <= y < rows,
    ensures
        0 <= flat_offset(cols, 0, y),
        flat_offset(cols, 0, y) + cols <= cols * rows,
{
    assert(0 <= y * cols) by (nonlinear_arith)
        requires
            0 <= y,
            0 <= cols,
    ;
    assert(y * cols + cols <= cols * rows) by (nonlinear_arith)
        requires
            0 <= y < rows,
            0 <= cols,
    ;
}

/// Every cell of a `cols` by `rows` field has its offset inside the field.
pub proof fn lemma_offset_in_range(cols: int, rows: int, x: int, y: int)
    requires
        0 <= x < cols,
        0 <= y < rows,
    ensures
        0 <= flat_offset(cols, x, y) < cols * rows,
{
    lemma_row_in_range(cols, rows, y);
}

/// Two distinct cells of a field never share an offset.
pub proof fn lemma_offset_injective(cols: int, x1: int, y1: int, x2: int, y2: int)
    requires
        0 <= x1 < cols,
        0 <= x2 < cols,
        0 <= y1,
        0 <= y2,
        flat_offset(cols, x1, y1) == flat_offset(cols, x2, y2),
    ensures
        x1 == x2,
        y1 == y2,
{
    if y1 < y2 {
        assert(y1 * cols + cols <= y2 * cols) by (nonlinear_arith)
            requires
                y1 < y2,
                0 <= cols,
        ;
    } else if y2 < y1 {
        assert(y2 * cols + cols <= y1 * cols) by (nonlinear_arith)
            requires
                y2 < y1,
                0 <= cols,
        ;
    }
}

/// A dense two-dimensional field of `x` columns and `y` rows, stored row by
/// row with the column index running fastest.
pub struct Gitter<T> {
    x: usize,
    y: usize,
    gitter: Vec<T>,
}

impl<T> Gitter<T> {
    /// Number of columns.
    pub closed spec fn cols(&self) -> nat {
        self.x as nat
    }

    /// Number of rows.
    pub closed spec fn rows(&self) -> nat {
        self.y as nat
    }

    /// All cells, row after row.
    pub closed spec fn cells(&self) -> Seq<T> {
        self.gitter@
    }

    /// The storage holds exactly one value per cell.
    pub open spec fn wf(&self) -> bool {
        self.cells().len() == self.cols() * self.rows()
    }

    /// The value of cell `(x, y)`.
    pub open spec fn at(&self, x: int, y: int) -> T {
        self.cells()[flat_offset(self.cols() as int, x, y)]
    }

    /// `(x, y)` addresses a cell of this field.
    pub open spec fn valid(&self, x: int, y: int) -> bool {
        0 <= x < self.cols() && 0 <= y < self.rows()
    }

    pub fn get_rows(&self) -> (r: usize)
        ensures
            r == self.rows(),
    {
        self.y
    }

    pub fn get_cols(&self) -> (r: usize)
        ensures
            r == self.cols(),
    {
        self.x
    }

    /// The cells of row `row`, from column 0 to the last column.
    pub fn get_row(&self, row: usize) -> (r: &[T])
        requires
            self.wf(),
            row < self.rows(),
        ensures
            r@ == self.cells().subrange(
                flat_offset(self.cols() as int, 0, row as int),
                flat_offset(self.cols() as int, 0, row as int) + self.cols(),
            ),
            r@.len() == self.cols(),
            forall|i: int| 0 <= i < self.cols() ==> #[trigger] r@[i] == self.at(i, row as int),
    {
        proof {
            lemma_row_in_range(self.x as int, self.y as int, row as int);
        }
        let _len = self.gitter.len();
        let start = row * self.x;
        slice_subrange(self.gitter.as_slice(), start, start + self.x)
    }

    /// All cells, row after row.
    pub fn as_slice(&self) -> (r: &[T])
        ensures
            r@ == self.cells(),
    {
        self.gitter.as_slice()
    }

    /// An iterator over all cells, row after row.
    pub fn iter(&self) -> (r: std::slice::Iter<'_, T>)
        ensures
            r.remaining() == self.cells().as_ref(),
    {
        let s = self.gitter.as_slice();
        proof {
            vstd::std_specs::slice::axiom_spec_slice_iter(s);
        }
        s.iter()
    }

    /// Builds a field from its cells given row after row; `None` where their
    /// number is not `x * y`.
    pub fn from_vec(x: usize, y: usize, cells: Vec<T>) -> (r: Option<Gitter<T>>)
        ensures
            r.is_some() <==> cells@.len() == x * y,
            r matches Some(g) ==> g.wf() && g.cols() == x && g.rows() == y && g.cells()
                == cells@,
    {
        let len = cells.len();
        match x.checked_mul(y) {
            Some(n) => {
                if n == len {
                    Some(Gitter { x, y, gitter: cells })
                } else {
                    None
                }
            },
            None => None,
        }
    }

    /// Gives the cells up, row after row.
    pub fn into_vec(self) -> (r: Vec<T>)
        ensures
            r@ == self.cells(),
    {
        self.gitter
    }
}

impl<T: Copy> Gitter<T> {
    /// A field of `x` columns and `y` rows whose every cell holds `fill`.
    pub fn new(x: usize, y: usize, fill: T) -> (r: Gitter<T>)
        requires
            x * y <= usize::MAX,
        ensures
            r.wf(),
            r.cols() == x,
            r.rows() == y,
            forall|i: int| 0 <= i < x * y ==> #[trigger] r.cells()[i] == fill,
    {
        let n: usize = x * y;
        let mut gitter: Vec<T> = Vec::new();
        let mut k: usize = 0;
        while k < n
            invariant
                k <= n,
                gitter@.len() == k,
                forall|i: int| 0 <= i < k ==> #[trigger] gitter@[i] == fill,
            decreases n - k,
        {
            gitter.push(fill);
            k = k + 1;
        }
        Gitter { x, y, gitter }
    }

    /// Replaces every cell with what `f` gives for it; the cells are
    /// independent and are done in parallel, in no fixed order.
    pub fn par_iter_mut<F: Fn(T) -> T + Sync>(&mut self, f: &F)
        where
            T: Send + Sync,
        requires
            forall|t: T| f.requires((t,)),
        ensures
            final(self).cols() == old(self).cols(),
            final(self).rows() == old(self).rows(),
            final(self).cells().len() == old(self).cells().len(),
            forall|i: int|
                0 <= i < old(self).cells().len() ==> f.ensures(
                    (old(self).cells()[i],),
                    #[trigger] final(self).cells()[i],
                ),
    {
        par_update(&mut self.gitter, f);
    }

    /// The value of cell `(x, y)`.
    pub fn get(&self, x: usize, y: usize) -> (r: T)
        requires
            self.wf(),
            self.valid(x as int, y as int),
        ensures
            r == self.at(x as int, y as int),
    {
        proof {
            lemma_offset_in_range(self.x as int, self.y as int, x as int, y as int);
        }
        let _len = self.gitter.len();
        self.gitter[y * self.x + x]
    }

    /// Writes `v` into cell `(x, y)` and leaves every other cell as it was.
    pub fn set(&mut self, x: usize, y: usize, v: T)
        requires
            old(self).wf(),
            old(self).valid(x as int, y as int),
        ensures
            final(self).wf(),
            final(self).cols() == old(self).cols(),
            final(self).rows() == old(self).rows(),
            final(self).cells() == old(self).cells().update(
                flat_offset(old(self).cols() as int, x as int, y as int),
                v,
            ),
            final(self).at(x as int, y as int) == v,
            forall|a: int, b: int|
                old(self).valid(a, b) && (a != x || b != y) ==> #[trigger] final(self).at(a, b)
                    == old(self).at(a, b),
    {
        proof {
            lemma_offset_in_range(self.x as int, self.y as int, x as int, y as int);
        }
        let _len = self.gitter.len();
        let k = y * self.x + x;
        self.gitter.set(k, v);
        proof {
            assert forall|a: int, b: int|
                old(self).valid(a, b) && (a != x || b != y) implies #[trigger] self.at(a, b)
                == old(self).at(a, b) by {
                lemma_offset_in_range(self.x as int, self.y as int, a, b);
                if flat_offset(self.x as int, a, b) == flat_offset(self.x as int, x as int, y as int) {
                    lemma_offset_injective(self.x as int, a, b, x as int, y as int);
                }
            }
        }
    }
}

} // verus!
