//! Sparse matrices in compressed-sparse-row layout.
use vstd::prelude::*;

use crate::error::DatasetError;
use crate::selection::{check_ids, ids_in_bounds, is_first_out_of_bounds};

verus! {

/// The row pointers of `rows` rows over `nnz` entries: they start at zero,
/// never decrease and end at `nnz`.
pub open spec fn is_row_pointers(rows: nat, indptr: Seq<usize>, nnz: nat) -> bool {
    &&& indptr.len() == rows + 1
    &&& indptr[0] == 0
    &&& indptr[rows as int] == nnz
    &&& forall|i: int, j: int| 0 <= i <= j <= rows ==> indptr[i] <= indptr[j]
}

/// The columns at the positions from `begin` up to `end` are less than `cols`
/// and strictly increasing.
pub open spec fn is_sorted_run(indices: Seq<usize>, begin: int, end: int, cols: nat) -> bool {
    &&& forall|p: int| begin <= p < end ==> indices[p] < cols
    &&& forall|p: int, q: int| begin <= p < q < end ==> indices[p] < indices[q]
}

/// The three arrays describe a matrix of `rows` rows and `cols` columns in
/// compressed-sparse-row layout.
///
/// Row `i` owns the positions from `indptr[i]` up to `indptr[i + 1]`; at each
/// of them `indices` names a column. The columns of a row are in range and
/// strictly increasing.
pub open spec fn is_csr(rows: nat, cols: nat, indptr: Seq<usize>, indices: Seq<usize>, nnz: nat) -> bool {
    &&& is_row_pointers(rows, indptr, nnz)
    &&& indices.len() == nnz
    &&& forall|i: int|
        0 <= i < rows ==> #[trigger] is_sorted_run(
            indices,
            indptr[i] as int,
            indptr[i + 1] as int,
            cols,
        )
}

/// The entries of row `i`, each a column with its value, in stored order.
pub open spec fn csr_row<T>(indptr: Seq<usize>, indices: Seq<usize>, data: Seq<T>, i: int) -> Seq<
    (usize, T),
> {
    Seq::new(
        (indptr[i + 1] - indptr[i]) as nat,
        |p: int| (indices[indptr[i] + p], data[indptr[i] + p]),
    )
}

/// Whether the array holds the row pointers of `rows` rows over `nnz` entries.
fn check_row_pointers(rows: usize, indptr: &Vec<usize>, nnz: usize) -> (r: bool)
    ensures
        r == is_row_pointers(rows as nat, indptr@, nnz as nat),
{
    if indptr.len() == 0 || indptr.len() - 1 != rows {
        return false;
    }
    if indptr[0] != 0 || indptr[rows] != nnz {
        return false;
    }
    let mut i: usize = 0;
    while i < rows
        invariant
            i <= rows,
            indptr@.len() == rows + 1,
            forall|x: int, y: int| 0 <= x <= y <= i ==> indptr@[x] <= indptr@[y],
        decreases rows - i,
    {
        if indptr[i] > indptr[i + 1] {
            return false;
        }
        i += 1;
    }
    true
}

/// Whether the columns from `begin` up to `end` are in range and strictly
/// increasing.
fn check_run(indices: &Vec<usize>, begin: usize, end: usize, cols: usize) -> (r: bool)
    requires
        begin <= end <= indices@.len(),
    ensures
        r == is_sorted_run(indices@, begin as int, end as int, cols as nat),
{
    let mut p: usize = begin;
    while p < end
        invariant
            begin <= p <= end <= indices@.len(),
            is_sorted_run(indices@, begin as int, p as int, cols as nat),
        decreases end - p,
    {
        if indices[p] >= cols {
            return false;
        }
        if p > begin && indices[p - 1] >= indices[p] {
            return false;
        }
        p += 1;
    }
    true
}

/// A sparse matrix in compressed-sparse-row layout.
#[derive(PartialEq, Eq, Debug)]
pub struct SparseMatrix<T> {
    rows: usize,
    cols: usize,
    indptr: Vec<usize>,
    indices: Vec<usize>,
    data: Vec<T>,
}

impl<T> SparseMatrix<T> {
    /// The number of rows.
    pub closed spec fn spec_nrows(&self) -> nat {
        self.rows as nat
    }

    /// The number of columns.
    pub closed spec fn spec_ncols(&self) -> nat {
        self.cols as nat
    }

    /// The row pointers.
    pub closed spec fn spec_indptr(&self) -> Seq<usize> {
        self.indptr@
    }

    /// The column of each entry.
    pub closed spec fn spec_indices(&self) -> Seq<usize> {
        self.indices@
    }

    /// The value of each entry.
    pub closed spec fn spec_data(&self) -> Seq<T> {
        self.data@
    }

    /// The arrays are a compressed-sparse-row layout of the shape.
    #[verifier::type_invariant]
    pub open spec fn well_formed(&self) -> bool {
        is_csr(
            self.spec_nrows(),
            self.spec_ncols(),
            self.spec_indptr(),
            self.spec_indices(),
            self.spec_data().len(),
        )
    }

    /// The entries of row `i`, each a column with its value, in stored order.
    pub open spec fn row(&self, i: int) -> Seq<(usize, T)> {
        csr_row(self.spec_indptr(), self.spec_indices(), self.spec_data(), i)
    }

    /// Makes a matrix of the given shape from its three arrays.
    ///
    /// Fails if the arrays are not a compressed-sparse-row layout of that shape.
    pub fn new(
        rows: usize,
        cols: usize,
        indptr: Vec<usize>,
        indices: Vec<usize>,
        data: Vec<T>,
    ) -> (r: Result<SparseMatrix<T>, DatasetError>)
        ensures
            match r {
                Ok(m) => {
                    &&& is_csr(rows as nat, cols as nat, indptr@, indices@, data@.len())
                    &&& m.well_formed()
                    &&& m.spec_nrows() == rows
                    &&& m.spec_ncols() == cols
                    &&& m.spec_indptr() == indptr@
                    &&& m.spec_indices() == indices@
                    &&& m.spec_data() == data@
                },
                Err(e) => {
                    &&& !is_csr(rows as nat, cols as nat, indptr@, indices@, data@.len())
                    &&& e == DatasetError::MalformedSparse
                },
            },
    {
        let nnz: usize = indices.len();
        if data.len() != nnz || !check_row_pointers(rows, &indptr, nnz) {
            return Err(DatasetError::MalformedSparse);
        }
        let mut i: usize = 0;
        while i < rows
            invariant
                i <= rows,
                indices@.len() == nnz,
                is_row_pointers(rows as nat, indptr@, nnz as nat),
                forall|x: int|
                    0 <= x < i ==> #[trigger] is_sorted_run(
                        indices@,
                        indptr@[x] as int,
                        indptr@[x + 1] as int,
                        cols as nat,
                    ),
            decreases rows - i,
        {
            if !check_run(&indices, indptr[i], indptr[i + 1], cols) {
                return Err(DatasetError::MalformedSparse);
            }
            i += 1;
        }
        Ok(SparseMatrix { rows, cols, indptr, indices, data })
    }

    /// Returns the number of rows.
    pub fn nrows(&self) -> (r: usize)
        ensures
            r == self.spec_nrows(),
    {
        self.rows
    }

    /// Returns the number of columns.
    pub fn ncols(&self) -> (r: usize)
        ensures
            r == self.spec_ncols(),
    {
        self.cols
    }

    /// Returns the number of stored entries.
    pub fn nnz(&self) -> (r: usize)
        ensures
            r == self.spec_data().len(),
            self.well_formed(),
    {
        proof {
            use_type_invariant(self);
        }
        self.data.len()
    }

    /// Returns the row pointers.
    pub fn indptr(&self) -> (r: &[usize])
        ensures
            r@ == self.spec_indptr(),
            self.well_formed(),
    {
        proof {
            use_type_invariant(self);
        }
        self.indptr.as_slice()
    }

    /// Returns the column of each stored entry.
    pub fn indices(&self) -> (r: &[usize])
        ensures
            r@ == self.spec_indices(),
            self.well_formed(),
    {
        proof {
            use_type_invariant(self);
        }
        self.indices.as_slice()
    }

    /// Returns the value of each stored entry.
    pub fn data(&self) -> (r: &[T])
        ensures
            r@ == self.spec_data(),
            self.well_formed(),
    {
        proof {
            use_type_invariant(self);
        }
        self.data.as_slice()
    }
}

impl<T> View for SparseMatrix<T> {
    type V = Seq<Seq<(usize, T)>>;

    /// The rows of the matrix, each the sequence of its stored entries.
    open spec fn view(&self) -> Seq<Seq<(usize, T)>> {
        Seq::new(self.spec_nrows(), |i: int| self.row(i))
    }
}

impl<T: Copy> Clone for SparseMatrix<T> {
    /// A matrix of the same shape with the same entries.
    fn clone(&self) -> (r: Self)
        ensures
            r.well_formed(),
            r.spec_nrows() == self.spec_nrows(),
            r.spec_ncols() == self.spec_ncols(),
            r.spec_indptr() == self.spec_indptr(),
            r.spec_indices() == self.spec_indices(),
            r.spec_data() == self.spec_data(),
    {
        proof {
            use_type_invariant(self);
        }
        let indptr = copy_of(&self.indptr);
        let indices = copy_of(&self.indices);
        let data = copy_of(&self.data);
        SparseMatrix { rows: self.rows, cols: self.cols, indptr, indices, data }
    }
}

/// A vector with the same items.
fn copy_of<E: Copy>(items: &Vec<E>) -> (r: Vec<E>)
    ensures
        r@ == items@,
{
    let mut out: Vec<E> = Vec::new();
    let mut i: usize = 0;
    while i < items.len()
        invariant
            i <= items@.len(),
            out@ == items@.take(i as int),
        decreases items@.len() - i,
    {
        out.push(items[i]);
        assert(items@.take(i + 1) =~= items@.take(i as int).push(items@[i as int]));
        i += 1;
    }
    assert(items@.take(i as int) =~= items@);
    out
}

impl<T: Copy> SparseMatrix<T> {
    /// Gathers the requested rows, which the caller has checked.
    pub(crate) fn select_checked(&self, ids: &[usize]) -> (r: SparseMatrix<T>)
        requires
            ids_in_bounds(ids@, self.spec_nrows()),
        ensures
            r.well_formed(),
            r.spec_nrows() == ids@.len(),
            r.spec_ncols() == self.spec_ncols(),
            r@ == Seq::new(ids@.len(), |j: int| self@[ids@[j] as int]),
    {
        proof {
            use_type_invariant(self);
        }
        let mut indptr: Vec<usize> = Vec::new();
        let mut indices: Vec<usize> = Vec::new();
        let mut data: Vec<T> = Vec::new();
        indptr.push(0);
        let mut j: usize = 0;
        while j < ids.len()
            invariant
                j <= ids@.len(),
                self.well_formed(),
                ids_in_bounds(ids@, self.spec_nrows()),
                indptr@.len() == j + 1,
                indptr@[0] == 0,
                indptr@[j as int] == indices@.len(),
                data@.len() == indices@.len(),
                forall|x: int, y: int| 0 <= x <= y <= j ==> indptr@[x] <= indptr@[y],
                forall|x: int|
                    0 <= x < j ==> #[trigger] csr_row(indptr@, indices@, data@, x) == self.row(
                        ids@[x] as int,
                    ),
            decreases ids@.len() - j,
        {
            let id: usize = ids[j];
            let begin: usize = self.indptr[id];
            let end: usize = self.indptr[id + 1];
            let ghost base = indices@.len() as int;
            let ghost old_indptr = indptr@;
            let ghost old_indices = indices@;
            let ghost old_data = data@;
            assert(begin <= end <= self.indices@.len()) by {
                assert(self.indptr@[id as int] <= self.indptr@[id + 1]);
                assert(self.indptr@[id + 1] <= self.indptr@[self.rows as int]);
            }
            let mut p: usize = begin;
            while p < end
                invariant
                    begin <= p <= end <= self.indices@.len(),
                    self.data@.len() == self.indices@.len(),
                    0 <= base,
                    indices@.len() == base + (p - begin),
                    data@.len() == indices@.len(),
                    indices@.take(base) == old_indices,
                    data@.take(base) == old_data,
                    forall|t: int|
                        base <= t < indices@.len() ==> #[trigger] indices@[t]
                            == self.indices@[begin + (t - base)],
                    forall|t: int|
                        base <= t < data@.len() ==> #[trigger] data@[t] == self.data@[begin + (t
                            - base)],
                decreases end - p,
            {
                let ghost before_indices = indices@;
                let ghost before_data = data@;
                indices.push(self.indices[p]);
                data.push(self.data[p]);
                assert(indices@.take(base) =~= before_indices.take(base));
                assert(data@.take(base) =~= before_data.take(base));
                p += 1;
            }
            indptr.push(indices.len());
            proof {
                assert(indptr@.take(j + 1) =~= old_indptr);
                assert forall|x: int| 0 <= x < j + 1 implies #[trigger] csr_row(
                    indptr@,
                    indices@,
                    data@,
                    x,
                ) == self.row(ids@[x] as int) by {
                    if x < j {
                        assert(indptr@[x] == old_indptr[x]);
                        assert(indptr@[x + 1] == old_indptr[x + 1]);
                        assert(old_indptr[x + 1] <= old_indptr[j as int]);
                        assert forall|t: int| 0 <= t < old_indptr[x + 1] implies indices@[t]
                            == old_indices[t] && data@[t] == old_data[t] by {
                            assert(indices@.take(base)[t] == old_indices[t]);
                            assert(data@.take(base)[t] == old_data[t]);
                        }
                        assert(csr_row(indptr@, indices@, data@, x) =~= csr_row(
                            old_indptr,
                            old_indices,
                            old_data,
                            x,
                        ));
                    } else {
                        assert(csr_row(indptr@, indices@, data@, x) =~= self.row(id as int));
                    }
                }
            }
            j += 1;
        }
        proof {
            lemma_rows_are_runs(self, ids@, indptr@, indices@, data@);
        }
        let r = SparseMatrix { rows: ids.len(), cols: self.cols, indptr, indices, data };
        assert(r@ =~= Seq::new(ids@.len(), |j: int| self@[ids@[j] as int]));
        r
    }

    /// Gathers the requested rows into a new matrix.
    ///
    /// Row `j` of the result holds the entries of the row that request `j`
    /// names, in the same order. A row may be asked for several times and in
    /// any order; each request gets entries of its own. A request for a row
    /// that the matrix does not have is rejected.
    pub fn select(&self, ids: &[usize]) -> (r: Result<SparseMatrix<T>, DatasetError>)
        ensures
            match r {
                Ok(m) => {
                    &&& ids_in_bounds(ids@, self.spec_nrows())
                    &&& m.well_formed()
                    &&& m.spec_nrows() == ids@.len()
                    &&& m.spec_ncols() == self.spec_ncols()
                    &&& m@ == Seq::new(ids@.len(), |j: int| self@[ids@[j] as int])
                },
                Err(e) => e matches DatasetError::IndexOutOfBounds { id, rows }
                    && rows == self.spec_nrows() && is_first_out_of_bounds(
                    ids@,
                    self.spec_nrows(),
                    id,
                ),
            },
    {
        match check_ids(ids, self.rows) {
            Ok(_) => Ok(self.select_checked(ids)),
            Err(e) => Err(e),
        }
    }
}

/// Rows that are copies of rows of a well-formed matrix have their columns in
/// range and strictly increasing.
proof fn lemma_rows_are_runs<T>(
    source: &SparseMatrix<T>,
    ids: Seq<usize>,
    indptr: Seq<usize>,
    indices: Seq<usize>,
    data: Seq<T>,
)
    requires
        source.well_formed(),
        ids_in_bounds(ids, source.spec_nrows()),
        indptr.len() == ids.len() + 1,
        indptr[ids.len() as int] == indices.len(),
        data.len() == indices.len(),
        forall|x: int, y: int| 0 <= x <= y <= ids.len() ==> indptr[x] <= indptr[y],
        forall|x: int|
            0 <= x < ids.len() ==> #[trigger] csr_row(indptr, indices, data, x) == source.row(
                ids[x] as int,
            ),
    ensures
        forall|x: int|
            0 <= x < ids.len() ==> #[trigger] is_sorted_run(
                indices,
                indptr[x] as int,
                indptr[x + 1] as int,
                source.spec_ncols(),
            ),
{
    assert forall|x: int| 0 <= x < ids.len() implies #[trigger] is_sorted_run(
        indices,
        indptr[x] as int,
        indptr[x + 1] as int,
        source.spec_ncols(),
    ) by {
        let id = ids[x] as int;
        let mine = csr_row(indptr, indices, data, x);
        let theirs = source.row(id);
        let begin = source.spec_indptr()[id] as int;
        let end = source.spec_indptr()[id + 1] as int;
        assert(mine == theirs);
        assert(indptr[x] <= indptr[x + 1]);
        assert(indptr[x + 1] <= indptr[ids.len() as int]);
        assert(source.spec_indptr()[id] <= source.spec_indptr()[id + 1]);
        assert(mine.len() == indptr[x + 1] - indptr[x]);
        assert(theirs.len() == end - begin);
        assert(is_sorted_run(source.spec_indices(), begin, end, source.spec_ncols()));
        assert forall|p: int| indptr[x] <= p < indptr[x + 1] implies indices[p]
            == source.spec_indices()[begin + (p - indptr[x])] by {
            assert(mine[p - indptr[x]] == theirs[p - indptr[x]]);
        }
    }
}

/// Every position of an entry lies in a row: the result is a row whose
/// stretch of positions holds `p`.
proof fn lemma_row_of(indptr: Seq<usize>, rows: int, p: int) -> (i: int)
    requires
        0 <= rows < indptr.len(),
        indptr[0] == 0,
        0 <= p < indptr[rows],
        forall|x: int, y: int| 0 <= x <= y <= rows ==> indptr[x] <= indptr[y],
    ensures
        0 <= i < rows,
        indptr[i] <= p < indptr[i + 1],
    decreases rows,
{
    if indptr[rows - 1] <= p {
        rows - 1
    } else {
        lemma_row_of(indptr, rows - 1, p)
    }
}

/// Matrices with the same rows have the same row pointers.
proof fn lemma_same_row_pointers<T>(a: SparseMatrix<T>, b: SparseMatrix<T>, i: int)
    requires
        a.well_formed(),
        b.well_formed(),
        a@ == b@,
        0 <= i <= a.spec_nrows(),
    ensures
        a.spec_indptr()[i] == b.spec_indptr()[i],
    decreases i,
{
    assert(a@.len() == a.spec_nrows());
    assert(b@.len() == b.spec_nrows());
    if i > 0 {
        lemma_same_row_pointers(a, b, i - 1);
        assert(a@[i - 1] == a.row(i - 1));
        assert(b@[i - 1] == b.row(i - 1));
        assert(a.row(i - 1).len() == b.row(i - 1).len());
        assert(a.spec_indptr()[i - 1] <= a.spec_indptr()[i]);
        assert(b.spec_indptr()[i - 1] <= b.spec_indptr()[i]);
    }
}

/// Matrices with the same rows and the same row pointers have the same entry
/// at each position.
proof fn lemma_same_entry<T>(a: SparseMatrix<T>, b: SparseMatrix<T>, p: int)
    requires
        a.well_formed(),
        b.well_formed(),
        a@ == b@,
        a.spec_indptr() == b.spec_indptr(),
        0 <= p < a.spec_indices().len(),
    ensures
        a.spec_indices()[p] == b.spec_indices()[p],
        a.spec_data()[p] == b.spec_data()[p],
{
    let rows = a.spec_nrows() as int;
    assert(a@.len() == rows);
    assert(b@.len() == b.spec_nrows());
    let i = lemma_row_of(a.spec_indptr(), rows, p);
    let at = p - a.spec_indptr()[i];
    assert(a@[i] == a.row(i));
    assert(b@[i] == b.row(i));
    assert(a.row(i)[at] == (a.spec_indices()[p], a.spec_data()[p]));
    assert(b.row(i)[at] == (b.spec_indices()[p], b.spec_data()[p]));
}

/// The rows and the number of columns say all there is to a matrix: two well
/// formed matrices with the same rows and columns hold the same three arrays.
pub proof fn lemma_sparse_rows_determine<T>(a: SparseMatrix<T>, b: SparseMatrix<T>)
    requires
        a.well_formed(),
        b.well_formed(),
        a@ == b@,
        a.spec_ncols() == b.spec_ncols(),
    ensures
        a.spec_nrows() == b.spec_nrows(),
        a.spec_indptr() == b.spec_indptr(),
        a.spec_indices() == b.spec_indices(),
        a.spec_data() == b.spec_data(),
{
    let rows = a.spec_nrows() as int;
    assert(a@.len() == rows);
    assert(b@.len() == b.spec_nrows());
    assert forall|i: int| 0 <= i < a.spec_indptr().len() implies a.spec_indptr()[i]
        == b.spec_indptr()[i] by {
        lemma_same_row_pointers(a, b, i);
    }
    assert(a.spec_indptr() =~= b.spec_indptr());
    assert forall|p: int| 0 <= p < a.spec_indptr()[rows] implies #[trigger] a.spec_indices()[p]
        == b.spec_indices()[p] by {
        lemma_same_entry(a, b, p);
    }
    assert forall|p: int| 0 <= p < a.spec_indptr()[rows] implies #[trigger] a.spec_data()[p]
        == b.spec_data()[p] by {
        lemma_same_entry(a, b, p);
    }
    assert(a.spec_indices() =~= b.spec_indices());
    assert(a.spec_data() =~= b.spec_data());
}

} // verus!
