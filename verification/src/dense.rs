//! Dense matrices, stored row by row.
use vstd::prelude::*;

use crate::error::DatasetError;
use crate::selection::{check_ids, ids_in_bounds, is_first_out_of_bounds};

verus! {

/// A matrix of `nrows` rows with `ncols` entries each.
///
/// The entries are held in one vector, row after row. A matrix may have
/// rows without columns, and columns without rows.
#[derive(PartialEq, Eq, Debug)]
pub struct DenseMatrix<T> {
    rows: usize,
    cols: usize,
    data: Vec<T>,
}

/// The entries of the first `n` rows, row after row.
pub open spec fn concat_rows<T>(rows: Seq<Seq<T>>, n: nat) -> Seq<T>
    decreases n,
{
    if n == 0 {
        Seq::empty()
    } else {
        concat_rows(rows, (n - 1) as nat) + rows[n - 1]
    }
}

proof fn lemma_row_bounds(i: int, rows: int, cols: int)
    requires
        0 <= i < rows,
        0 <= cols,
    ensures
        0 <= i * cols,
        i * cols + cols <= rows * cols,
        (i + 1) * cols == i * cols + cols,
{
    assert(0 <= i * cols) by (nonlinear_arith)
        requires
            0 <= i,
            0 <= cols,
    ;
    assert(i * cols + cols <= rows * cols) by (nonlinear_arith)
        requires
            0 <= i < rows,
            0 <= cols,
    ;
    assert((i + 1) * cols == i * cols + cols) by (nonlinear_arith);
}

/// Rows of `cols` entries each, laid out row after row, are found again
/// stretch by stretch.
pub(crate) proof fn lemma_concat_rows<T>(rows: Seq<Seq<T>>, cols: nat, n: nat)
    requires
        n <= rows.len(),
        forall|j: int| 0 <= j < n ==> (#[trigger] rows[j]).len() == cols,
    ensures
        concat_rows(rows, n).len() == n * cols,
        forall|j: int|
            0 <= j < n ==> #[trigger] concat_rows(rows, n).subrange(j * cols, j * cols + cols)
                == rows[j],
    decreases n,
{
    if n == 0 {
        assert(0 * cols == 0) by (nonlinear_arith);
    } else {
        let m = (n - 1) as nat;
        lemma_concat_rows(rows, cols, m);
        let before = concat_rows(rows, m);
        let all = concat_rows(rows, n);
        lemma_row_bounds(m as int, n as int, cols as int);
        assert(all == before + rows[n - 1]);
        assert forall|j: int| 0 <= j < n implies #[trigger] all.subrange(j * cols, j * cols + cols)
            == rows[j] by {
            lemma_row_bounds(j, n as int, cols as int);
            if j < m {
                lemma_row_bounds(j, m as int, cols as int);
                assert(all.subrange(j * cols, j * cols + cols) =~= before.subrange(
                    j * cols,
                    j * cols + cols,
                ));
            } else {
                assert(all.subrange(j * cols, j * cols + cols) =~= rows[j]);
            }
        }
    }
}

impl<T> DenseMatrix<T> {
    /// The number of rows.
    pub closed spec fn spec_nrows(&self) -> nat {
        self.rows as nat
    }

    /// The number of columns.
    pub closed spec fn spec_ncols(&self) -> nat {
        self.cols as nat
    }

    /// The entries, row after row.
    pub closed spec fn flat(&self) -> Seq<T> {
        self.data@
    }

    /// There is one entry for each row and column.
    #[verifier::type_invariant]
    pub open spec fn well_formed(&self) -> bool {
        self.flat().len() == self.spec_nrows() * self.spec_ncols()
    }

    /// The entries of row `i`.
    pub open spec fn row(&self, i: int) -> Seq<T> {
        self.flat().subrange(i * self.spec_ncols(), i * self.spec_ncols() + self.spec_ncols())
    }

    /// Makes a matrix of the given shape from its entries, row after row.
    ///
    /// Fails if the number of entries is not that of the shape.
    pub fn from_shape_vec(rows: usize, cols: usize, data: Vec<T>) -> (r: Result<
        DenseMatrix<T>,
        DatasetError,
    >)
        ensures
            match r {
                Ok(m) => {
                    &&& data@.len() == rows * cols
                    &&& m.well_formed()
                    &&& m.spec_nrows() == rows
                    &&& m.spec_ncols() == cols
                    &&& m.flat() == data@
                },
                Err(e) => {
                    &&& data@.len() != rows * cols
                    &&& e == (DatasetError::ShapeMismatch { rows, cols, len: data@.len() as usize })
                },
            },
    {
        let len: usize = data.len();
        match rows.checked_mul(cols) {
            Some(expected) => {
                if expected == len {
                    Ok(DenseMatrix { rows, cols, data })
                } else {
                    Err(DatasetError::ShapeMismatch { rows, cols, len })
                }
            },
            None => Err(DatasetError::ShapeMismatch { rows, cols, len }),
        }
    }

    /// Makes a matrix from stored entries, row after row, and the number of
    /// entries in a row. The number of rows is what the entries give.
    ///
    /// Fails if rows have no entries, or if the last row is not complete; the
    /// error names the number of complete rows.
    pub fn from_raw(data: Vec<T>, cols: usize) -> (r: Result<DenseMatrix<T>, DatasetError>)
        ensures
            match r {
                Ok(m) => {
                    &&& cols > 0
                    &&& data@.len() % (cols as nat) == 0
                    &&& m.well_formed()
                    &&& m.spec_nrows() == data@.len() / (cols as nat)
                    &&& m.spec_ncols() == cols
                    &&& m.flat() == data@
                },
                Err(e) => {
                    &&& cols == 0 || data@.len() % (cols as nat) != 0
                    &&& e == (DatasetError::ShapeMismatch {
                        rows: if cols == 0 {
                            0
                        } else {
                            (data@.len() / (cols as nat)) as usize
                        },
                        cols,
                        len: data@.len() as usize,
                    })
                },
            },
    {
        let len: usize = data.len();
        if cols == 0 {
            return Err(DatasetError::ShapeMismatch { rows: 0, cols, len });
        }
        let rows: usize = len / cols;
        if len % cols != 0 {
            return Err(DatasetError::ShapeMismatch { rows, cols, len });
        }
        proof {
            vstd::arithmetic::div_mod::lemma_fundamental_div_mod(len as int, cols as int);
            assert(rows * cols == cols * rows) by (nonlinear_arith);
        }
        Ok(DenseMatrix { rows, cols, data })
    }

    /// Makes a matrix of the given shape from entries that fit it.
    pub(crate) fn from_flat(rows: usize, cols: usize, data: Vec<T>) -> (r: DenseMatrix<T>)
        requires
            data@.len() == rows * cols,
        ensures
            r.well_formed(),
            r.spec_nrows() == rows,
            r.spec_ncols() == cols,
            r.flat() == data@,
    {
        DenseMatrix { rows, cols, data }
    }

    /// Makes a matrix from rows that all have `cols` entries.
    ///
    /// Fails at the first row that has another number of entries.
    pub fn from_rows(cols: usize, rows: &[Vec<T>]) -> (r: Result<DenseMatrix<T>, DatasetError>) where
        T: Copy,

        ensures
            match r {
                Ok(m) => {
                    &&& forall|i: int| 0 <= i < rows@.len() ==> (#[trigger] rows@[i])@.len() == cols
                    &&& m.well_formed()
                    &&& m.spec_nrows() == rows@.len()
                    &&& m.spec_ncols() == cols
                    &&& m@ == Seq::new(rows@.len(), |i: int| rows@[i]@)
                },
                Err(e) => exists|i: int|
                    {
                        &&& 0 <= i < rows@.len()
                        &&& (#[trigger] rows@[i])@.len() != cols
                        &&& forall|j: int| 0 <= j < i ==> (#[trigger] rows@[j])@.len() == cols
                        &&& e == (DatasetError::ShapeMismatch {
                            rows: i as usize,
                            cols,
                            len: rows@[i]@.len() as usize,
                        })
                    },
            },
    {
        let ghost given = Seq::new(rows@.len(), |i: int| rows@[i]@);
        let mut data: Vec<T> = Vec::new();
        let mut i: usize = 0;
        while i < rows.len()
            invariant
                i <= rows@.len(),
                given == Seq::new(rows@.len(), |i: int| rows@[i]@),
                forall|j: int| 0 <= j < i ==> (#[trigger] rows@[j])@.len() == cols,
                data@ == concat_rows(given, i as nat),
            decreases rows@.len() - i,
        {
            let row: &Vec<T> = &rows[i];
            if row.len() != cols {
                return Err(DatasetError::ShapeMismatch { rows: i, cols, len: row.len() });
            }
            let ghost before = data@;
            let mut c: usize = 0;
            while c < cols
                invariant
                    c <= cols,
                    row@.len() == cols,
                    data@ == before + row@.take(c as int),
                decreases cols - c,
            {
                data.push(row[c]);
                assert(row@.take(c + 1) =~= row@.take(c as int).push(row@[c as int]));
                c += 1;
            }
            assert(row@.take(cols as int) =~= row@);
            assert(given[i as int] == row@);
            i += 1;
        }
        proof {
            assert forall|j: int| 0 <= j < given.len() implies (#[trigger] given[j]).len()
                == cols by {
                assert(rows@[j]@.len() == cols);
            }
            lemma_concat_rows(given, cols as nat, rows@.len() as nat);
        }
        let m = DenseMatrix { rows: rows.len(), cols, data };
        assert(m@ =~= given);
        Ok(m)
    }

    /// Returns the number of rows.
    pub fn nrows(&self) -> (r: usize)
        ensures
            r == self.spec_nrows(),
    {
        self.rows
    }

    /// Returns the number of columns.
    pub fn ncols(&self) -> (r: usize)
        ensures
            r == self.spec_ncols(),
    {
        self.cols
    }

    /// Returns the entries, row after row.
    pub fn as_slice(&self) -> (r: &[T])
        ensures
            r@ == self.flat(),
            self.well_formed(),
    {
        proof {
            use_type_invariant(self);
        }
        self.data.as_slice()
    }

    /// Returns row `i` of a matrix that has one.
    pub(crate) fn row_at(&self, i: usize) -> (r: &[T])
        requires
            i < self.spec_nrows(),
        ensures
            self.well_formed(),
            r@ == self@[i as int],
    {
        proof {
            use_type_invariant(self);
            lemma_row_bounds(i as int, self.rows as int, self.cols as int);
            assert(self.data.len() == (self.rows as int) * (self.cols as int));
        }
        let start: usize = i * self.cols;
        vstd::slice::slice_subrange(self.data.as_slice(), start, start + self.cols)
    }

    /// Returns row `i`, if the matrix has one.
    pub fn get_row(&self, i: usize) -> (r: Option<&[T]>)
        ensures
            self.well_formed(),
            match r {
                Some(entries) => i < self.spec_nrows() && entries@ == self@[i as int],
                None => i >= self.spec_nrows(),
            },
    {
        proof {
            use_type_invariant(self);
        }
        if i < self.rows {
            Some(self.row_at(i))
        } else {
            None
        }
    }

    /// Returns the entry in row `i` and column `j`, if the matrix has one there.
    pub fn get(&self, i: usize, j: usize) -> (r: Option<&T>)
        ensures
            self.well_formed(),
            match r {
                Some(entry) => i < self.spec_nrows() && j < self.spec_ncols() && *entry
                    == self@[i as int][j as int],
                None => i >= self.spec_nrows() || j >= self.spec_ncols(),
            },
    {
        proof {
            use_type_invariant(self);
        }
        if i < self.rows && j < self.cols {
            proof {
                lemma_row_bounds(i as int, self.rows as int, self.cols as int);
                assert(self.data.len() == (self.rows as int) * (self.cols as int));
            }
            Some(&self.data[i * self.cols + j])
        } else {
            None
        }
    }
}

impl<T> Default for DenseMatrix<T> {
    /// The matrix without rows and columns.
    fn default() -> (r: DenseMatrix<T>)
        ensures
            r.well_formed(),
            r.spec_nrows() == 0,
            r.spec_ncols() == 0,
            r.flat() == Seq::<T>::empty(),
    {
        DenseMatrix { rows: 0, cols: 0, data: Vec::new() }
    }
}

impl<T> View for DenseMatrix<T> {
    type V = Seq<Seq<T>>;

    /// The rows of the matrix.
    open spec fn view(&self) -> Seq<Seq<T>> {
        Seq::new(self.spec_nrows(), |i: int| self.row(i))
    }
}

impl<T: Copy> Clone for DenseMatrix<T> {
    /// A matrix of the same shape with the same entries.
    fn clone(&self) -> (r: Self)
        ensures
            r.well_formed(),
            r.spec_nrows() == self.spec_nrows(),
            r.spec_ncols() == self.spec_ncols(),
            r.flat() == self.flat(),
    {
        proof {
            use_type_invariant(self);
        }
        let mut data: Vec<T> = Vec::new();
        let mut i: usize = 0;
        while i < self.data.len()
            invariant
                i <= self.data@.len(),
                data@ == self.data@.take(i as int),
            decreases self.data@.len() - i,
        {
            data.push(self.data[i]);
            assert(self.data@.take(i + 1) =~= self.data@.take(i as int).push(self.data@[i as int]));
            i += 1;
        }
        assert(self.data@.take(i as int) =~= self.data@);
        DenseMatrix { rows: self.rows, cols: self.cols, data }
    }
}

impl<T: Copy> DenseMatrix<T> {
    /// Gathers the requested rows, which the caller has checked.
    pub(crate) fn select_checked(&self, ids: &[usize]) -> (r: DenseMatrix<T>)
        requires
            ids_in_bounds(ids@, self.spec_nrows()),
        ensures
            r.well_formed(),
            r.spec_nrows() == ids@.len(),
            r.spec_ncols() == self.spec_ncols(),
            r@ == Seq::new(ids@.len(), |j: int| self@[ids@[j] as int]),
    {
        proof {
            use_type_invariant(self);
        }
        let cols: usize = self.cols;
        let ghost picked = Seq::new(ids@.len(), |j: int| self.row(ids@[j] as int));
        let mut out: Vec<T> = Vec::new();
        let mut j: usize = 0;
        while j < ids.len()
            invariant
                j <= ids@.len(),
                cols == self.cols,
                self.well_formed(),
                ids_in_bounds(ids@, self.spec_nrows()),
                picked == Seq::new(ids@.len(), |j: int| self.row(ids@[j] as int)),
                out@ == concat_rows(picked, j as nat),
            decreases ids@.len() - j,
        {
            let id: usize = ids[j];
            proof {
                lemma_row_bounds(id as int, self.rows as int, cols as int);
                assert(self.data.len() == (self.rows as int) * (cols as int));
            }
            let start: usize = id * cols;
            let ghost before = out@;
            let mut c: usize = 0;
            while c < cols
                invariant
                    c <= cols,
                    cols == self.cols,
                    start == id * cols,
                    start + cols <= self.data.len(),
                    out@ == before + self.data@.subrange(start as int, start + c),
                decreases cols - c,
            {
                out.push(self.data[start + c]);
                assert(self.data@.subrange(start as int, start + c + 1) =~= self.data@.subrange(
                    start as int,
                    start + c,
                ).push(self.data@[start + c]));
                c += 1;
            }
            assert(picked[j as int] == self.data@.subrange(start as int, start + cols));
            j += 1;
        }
        proof {
            assert forall|x: int| 0 <= x < ids@.len() implies (#[trigger] picked[x]).len()
                == cols by {
                lemma_row_bounds(ids@[x] as int, self.rows as int, cols as int);
            }
            lemma_concat_rows(picked, cols as nat, ids@.len() as nat);
        }
        let r = DenseMatrix { rows: ids.len(), cols, data: out };
        assert(r@ =~= Seq::new(ids@.len(), |j: int| self@[ids@[j] as int]));
        r
    }

    /// Gathers the requested rows into a new matrix.
    ///
    /// A row may be asked for several times and in any order. A request for a
    /// row that the matrix does not have is rejected.
    pub fn select(&self, ids: &[usize]) -> (r: Result<DenseMatrix<T>, DatasetError>)
        ensures
            match r {
                Ok(m) => {
                    &&& ids_in_bounds(ids@, self.spec_nrows())
                    &&& m.well_formed()
                    &&& m.spec_nrows() == ids@.len()
                    &&& m.spec_ncols() == self.spec_ncols()
                    &&& m@ == Seq::new(ids@.len(), |j: int| self@[ids@[j] as int])
                },
                Err(e) => e matches DatasetError::IndexOutOfBounds { id, rows }
                    && rows == self.spec_nrows() && is_first_out_of_bounds(
                    ids@,
                    self.spec_nrows(),
                    id,
                ),
            },
    {
        match check_ids(ids, self.rows) {
            Ok(_) => Ok(self.select_checked(ids)),
            Err(e) => Err(e),
        }
    }
}

/// The rows and the number of columns say all there is to a matrix: two well
/// formed matrices with the same rows and columns hold the same entries.
pub proof fn lemma_dense_rows_determine<T>(a: DenseMatrix<T>, b: DenseMatrix<T>)
    requires
        a.well_formed(),
        b.well_formed(),
        a@ == b@,
        a.spec_ncols() == b.spec_ncols(),
    ensures
        a.spec_nrows() == b.spec_nrows(),
        a.flat() == b.flat(),
{
    let rows = a.spec_nrows() as int;
    let cols = a.spec_ncols() as int;
    assert(a@.len() == rows);
    assert(b@.len() == b.spec_nrows());
    assert(a.flat().len() == b.flat().len());
    assert forall|t: int| 0 <= t < a.flat().len() implies a.flat()[t] == b.flat()[t] by {
        if cols == 0 {
            assert(rows * cols == 0) by (nonlinear_arith)
                requires
                    cols == 0,
            ;
        } else {
            let i = t / cols;
            let c = t % cols;
            vstd::arithmetic::div_mod::lemma_fundamental_div_mod(t, cols);
            vstd::arithmetic::div_mod::lemma_mod_bound(t, cols);
            vstd::arithmetic::div_mod::lemma_div_pos_is_pos(t, cols);
            assert(t < cols * rows) by (nonlinear_arith)
                requires
                    t < rows * cols,
            ;
            vstd::arithmetic::div_mod::lemma_multiply_divide_lt(t, cols, rows);
            assert(cols * i == i * cols) by (nonlinear_arith);
            lemma_row_bounds(i, rows, cols);
            assert(a@[i] == a.row(i));
            assert(b@[i] == b.row(i));
            assert(a.row(i)[c] == a.flat()[i * cols + c]);
            assert(b.row(i)[c] == b.flat()[i * cols + c]);
        }
    }
    assert(a.flat() =~= b.flat());
}

} // verus!
