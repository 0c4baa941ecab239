//! Sets of points with a dense part, a sparse part, or both.
use vstd::prelude::*;

use crate::dense::{lemma_dense_rows_determine, DenseMatrix};
use crate::error::DatasetError;
use crate::selection::{check_ids, identity_ids, ids_in_bounds, is_first_out_of_bounds};
use crate::sparse::{lemma_sparse_rows_determine, SparseMatrix};

verus! {

/// What a point set holds: the rows of its dense part and of its sparse part,
/// where it has them, and the number of columns of each.
///
/// A sparse row is the sequence of its stored entries, each a column with its
/// value. A part that is absent has no columns.
pub struct PointSetView<T> {
    pub dense: Option<Seq<Seq<T>>>,
    pub dense_cols: nat,
    pub sparse: Option<Seq<Seq<(usize, T)>>>,
    pub sparse_cols: nat,
}

impl<T> PointSetView<T> {
    /// The number of points: the number of rows of a part that is present.
    pub open spec fn num_points(self) -> nat {
        match self.dense {
            Some(rows) => rows.len(),
            None => match self.sparse {
                Some(rows) => rows.len(),
                None => 0,
            },
        }
    }

    /// Point `i`: its dense row and its sparse entries, each where the set
    /// has that part.
    pub open spec fn point(self, i: int) -> (Option<Seq<T>>, Option<Seq<(usize, T)>>) {
        (
            match self.dense {
                Some(rows) => Some(rows[i]),
                None => None,
            },
            match self.sparse {
                Some(rows) => Some(rows[i]),
                None => None,
            },
        )
    }

    /// At least one part is present, and two parts have the same number of rows.
    pub open spec fn is_consistent(self) -> bool {
        &&& self.dense.is_some() || self.sparse.is_some()
        &&& self.dense.is_some() && self.sparse.is_some() ==> self.dense.unwrap().len()
            == self.sparse.unwrap().len()
    }

    /// The points named by `ids`, in the order of the request: row `j` of each
    /// part is row `ids[j]` of that part here. The columns are unchanged.
    pub open spec fn select(self, ids: Seq<usize>) -> PointSetView<T> {
        PointSetView {
            dense: match self.dense {
                Some(rows) => Some(Seq::new(ids.len(), |j: int| rows[ids[j] as int])),
                None => None,
            },
            dense_cols: self.dense_cols,
            sparse: match self.sparse {
                Some(rows) => Some(Seq::new(ids.len(), |j: int| rows[ids[j] as int])),
                None => None,
            },
            sparse_cols: self.sparse_cols,
        }
    }
}

/// A set of points (dense, sparse, or both) represented as matrices in which
/// each row corresponds to a single vector. Where both parts are present,
/// row `i` of each describes the same point.
#[derive(PartialEq, Eq, Debug)]
pub struct PointSet<T> {
    dense: Option<DenseMatrix<T>>,
    sparse: Option<SparseMatrix<T>>,
}

impl<T> PointSet<T> {
    /// The dense part.
    pub closed spec fn spec_dense(&self) -> Option<DenseMatrix<T>> {
        self.dense
    }

    /// The sparse part.
    pub closed spec fn spec_sparse(&self) -> Option<SparseMatrix<T>> {
        self.sparse
    }

    /// Each part is well formed, at least one is present, and two parts have
    /// the same number of rows.
    #[verifier::type_invariant]
    pub open spec fn well_formed(&self) -> bool {
        &&& self.spec_dense().is_some() || self.spec_sparse().is_some()
        &&& self.spec_dense().is_some() ==> self.spec_dense().unwrap().well_formed()
        &&& self.spec_sparse().is_some() ==> self.spec_sparse().unwrap().well_formed()
        &&& self.spec_dense().is_some() && self.spec_sparse().is_some()
            ==> self.spec_dense().unwrap().spec_nrows() == self.spec_sparse().unwrap().spec_nrows()
    }

    /// Creates a point set.
    ///
    /// Fails if both `dense` and `sparse` are absent, or if both are given
    /// and differ in their number of rows.
    pub fn new(dense: Option<DenseMatrix<T>>, sparse: Option<SparseMatrix<T>>) -> (r: Result<
        PointSet<T>,
        DatasetError,
    >)
        ensures
            match r {
                Ok(points) => {
                    &&& points.well_formed()
                    &&& points.spec_dense() == dense
                    &&& points.spec_sparse() == sparse
                },
                Err(e) => match (dense, sparse) {
                    (None, None) => e == DatasetError::EmptyPointSet,
                    (Some(d), Some(s)) => d.spec_nrows() != s.spec_nrows() && e == (
                    DatasetError::RowCountMismatch {
                        dense: d.spec_nrows() as usize,
                        sparse: s.spec_nrows() as usize,
                    }),
                    _ => false,
                },
            },
    {
        match (&dense, &sparse) {
            (None, None) => {
                return Err(DatasetError::EmptyPointSet);
            },
            (Some(d), Some(s)) => {
                proof {
                    use_type_invariant(d);
                    use_type_invariant(s);
                }
                if d.nrows() != s.nrows() {
                    return Err(
                        DatasetError::RowCountMismatch { dense: d.nrows(), sparse: s.nrows() },
                    );
                }
            },
            (Some(d), None) => {
                proof {
                    use_type_invariant(d);
                }
            },
            (None, Some(s)) => {
                proof {
                    use_type_invariant(s);
                }
            },
        }
        Ok(PointSet { dense, sparse })
    }

    /// Returns the number of points in the point set.
    pub fn num_points(&self) -> (r: usize)
        ensures
            r == self@.num_points(),
            self.well_formed(),
    {
        proof {
            use_type_invariant(self);
        }
        match &self.dense {
            Some(dense) => dense.nrows(),
            None => match &self.sparse {
                Some(sparse) => sparse.nrows(),
                None => 0,
            },
        }
    }

    /// Returns the number of dense dimensions.
    pub fn num_dense_dimensions(&self) -> (r: usize)
        ensures
            r == self@.dense_cols,
    {
        match &self.dense {
            Some(dense) => dense.ncols(),
            None => 0,
        }
    }

    /// Returns the number of sparse dimensions.
    pub fn num_sparse_dimensions(&self) -> (r: usize)
        ensures
            r == self@.sparse_cols,
    {
        match &self.sparse {
            Some(sparse) => sparse.ncols(),
            None => 0,
        }
    }

    /// Returns the total number of dimensions, which must fit the machine's word.
    pub fn num_dimensions(&self) -> (r: usize)
        requires
            self@.dense_cols + self@.sparse_cols <= usize::MAX,
        ensures
            r == self@.dense_cols + self@.sparse_cols,
    {
        self.num_sparse_dimensions() + self.num_dense_dimensions()
    }

    /// Returns the dense sub-vectors.
    pub fn get_dense(&self) -> (r: Option<&DenseMatrix<T>>)
        ensures
            self.well_formed(),
            match r {
                Some(dense) => self.spec_dense() == Some(*dense) && dense.well_formed(),
                None => self.spec_dense().is_none(),
            },
    {
        proof {
            use_type_invariant(self);
        }
        match &self.dense {
            Some(dense) => Some(dense),
            None => None,
        }
    }

    /// Returns the sparse sub-vectors.
    pub fn get_sparse(&self) -> (r: Option<&SparseMatrix<T>>)
        ensures
            self.well_formed(),
            match r {
                Some(sparse) => self.spec_sparse() == Some(*sparse) && sparse.well_formed(),
                None => self.spec_sparse().is_none(),
            },
    {
        proof {
            use_type_invariant(self);
        }
        match &self.sparse {
            Some(sparse) => Some(sparse),
            None => None,
        }
    }
}

impl<T: Copy> Clone for PointSet<T> {
    /// A point set with the same points.
    fn clone(&self) -> (r: Self)
        ensures
            r.well_formed(),
            r@ == self@,
    {
        proof {
            use_type_invariant(self);
        }
        let dense = match &self.dense {
            Some(dense) => Some(dense.clone()),
            None => None,
        };
        let sparse = match &self.sparse {
            Some(sparse) => Some(sparse.clone()),
            None => None,
        };
        let r = PointSet { dense, sparse };
        proof {
            if self.dense.is_some() {
                assert(r@.dense.unwrap() =~= self@.dense.unwrap());
            }
            if self.sparse.is_some() {
                assert(r@.sparse.unwrap() =~= self@.sparse.unwrap());
            }
        }
        r
    }
}

impl<T: Copy> PointSet<T> {
    /// Selects a subset of points with the given ids.
    ///
    /// Point `j` of the result is point `ids[j]` of this set: its dense row
    /// and its sparse entries, in their stored order. Ids may repeat and come
    /// in any order; an empty request gives a set without points. The number
    /// of columns of each part is kept. An id that names no point is rejected.
    pub fn select(&self, ids: &[usize]) -> (r: Result<PointSet<T>, DatasetError>)
        ensures
            match r {
                Ok(points) => {
                    &&& ids_in_bounds(ids@, self@.num_points())
                    &&& points.well_formed()
                    &&& points@ == self@.select(ids@)
                },
                Err(e) => e matches DatasetError::IndexOutOfBounds { id, rows }
                    && rows == self@.num_points() && is_first_out_of_bounds(
                    ids@,
                    self@.num_points(),
                    id,
                ),
            },
    {
        proof {
            use_type_invariant(self);
        }
        match check_ids(ids, self.num_points()) {
            Err(e) => Err(e),
            Ok(_) => {
                let dense = match &self.dense {
                    Some(dense) => Some(dense.select_checked(ids)),
                    None => None,
                };
                let sparse = match &self.sparse {
                    Some(sparse) => Some(sparse.select_checked(ids)),
                    None => None,
                };
                let points = PointSet { dense, sparse };
                proof {
                    let want = self@.select(ids@);
                    assert(points@.dense_cols == want.dense_cols);
                    assert(points@.sparse_cols == want.sparse_cols);
                    if self.dense.is_some() {
                        assert(points@.dense.unwrap() =~= want.dense.unwrap());
                    }
                    if self.sparse.is_some() {
                        assert(points@.sparse.unwrap() =~= want.sparse.unwrap());
                    }
                    assert(points@.dense == want.dense);
                    assert(points@.sparse == want.sparse);
                }
                Ok(points)
            },
        }
    }
}

impl<T> View for PointSet<T> {
    type V = PointSetView<T>;

    open spec fn view(&self) -> PointSetView<T> {
        PointSetView {
            dense: match self.spec_dense() {
                Some(d) => Some(d@),
                None => None,
            },
            dense_cols: match self.spec_dense() {
                Some(d) => d.spec_ncols(),
                None => 0,
            },
            sparse: match self.spec_sparse() {
                Some(s) => Some(s@),
                None => None,
            },
            sparse_cols: match self.spec_sparse() {
                Some(s) => s.spec_ncols(),
                None => 0,
            },
        }
    }
}

/// The view of a well-formed point set is consistent.
pub proof fn lemma_view_is_consistent<T>(points: PointSet<T>)
    requires
        points.well_formed(),
    ensures
        points@.is_consistent(),
{
}

/// The view says all there is to a point set: two well-formed point sets with
/// the same view have the same parts, with the same shape and the same stored
/// entries.
pub proof fn lemma_view_determines<T>(a: PointSet<T>, b: PointSet<T>)
    requires
        a.well_formed(),
        b.well_formed(),
        a@ == b@,
    ensures
        a.spec_dense().is_some() == b.spec_dense().is_some(),
        a.spec_sparse().is_some() == b.spec_sparse().is_some(),
        a.spec_dense().is_some() ==> {
            &&& a.spec_dense().unwrap().spec_nrows() == b.spec_dense().unwrap().spec_nrows()
            &&& a.spec_dense().unwrap().spec_ncols() == b.spec_dense().unwrap().spec_ncols()
            &&& a.spec_dense().unwrap().flat() == b.spec_dense().unwrap().flat()
        },
        a.spec_sparse().is_some() ==> {
            &&& a.spec_sparse().unwrap().spec_nrows() == b.spec_sparse().unwrap().spec_nrows()
            &&& a.spec_sparse().unwrap().spec_ncols() == b.spec_sparse().unwrap().spec_ncols()
            &&& a.spec_sparse().unwrap().spec_indptr() == b.spec_sparse().unwrap().spec_indptr()
            &&& a.spec_sparse().unwrap().spec_indices()
                == b.spec_sparse().unwrap().spec_indices()
            &&& a.spec_sparse().unwrap().spec_data() == b.spec_sparse().unwrap().spec_data()
        },
{
    assert(a@.dense.is_some() == b@.dense.is_some());
    assert(a@.sparse.is_some() == b@.sparse.is_some());
    if a.spec_dense().is_some() {
        assert(a@.dense.unwrap() == b@.dense.unwrap());
        assert(a@.dense_cols == b@.dense_cols);
        lemma_dense_rows_determine(a.spec_dense().unwrap(), b.spec_dense().unwrap());
    }
    if a.spec_sparse().is_some() {
        assert(a@.sparse.unwrap() == b@.sparse.unwrap());
        assert(a@.sparse_cols == b@.sparse_cols);
        lemma_sparse_rows_determine(a.spec_sparse().unwrap(), b.spec_sparse().unwrap());
    }
}

/// Selecting no point yields a set without points that keeps each part and
/// its number of columns.
pub proof fn lemma_select_nothing<T>(points: PointSetView<T>)
    requires
        points.is_consistent(),
    ensures
        points.select(Seq::empty()).num_points() == 0,
        points.select(Seq::empty()).is_consistent(),
        points.select(Seq::empty()).dense.is_some() == points.dense.is_some(),
        points.select(Seq::empty()).sparse.is_some() == points.sparse.is_some(),
        points.select(Seq::empty()).dense_cols == points.dense_cols,
        points.select(Seq::empty()).sparse_cols == points.sparse_cols,
{
}

/// A selection has one point for each requested id.
pub proof fn lemma_select_num_points<T>(points: PointSetView<T>, ids: Seq<usize>)
    requires
        points.is_consistent(),
    ensures
        points.select(ids).num_points() == ids.len(),
        points.select(ids).is_consistent(),
{
}

/// Point `j` of a selection is point `ids[j]` of the source: the dense row is
/// the same, and the sparse row has the same entries in the same order.
pub proof fn lemma_select_keeps_rows<T>(points: PointSetView<T>, ids: Seq<usize>, j: int)
    requires
        0 <= j < ids.len(),
    ensures
        points.dense.is_some() ==> points.select(ids).dense.unwrap()[j]
            == points.dense.unwrap()[ids[j] as int],
        points.sparse.is_some() ==> points.select(ids).sparse.unwrap()[j]
            == points.sparse.unwrap()[ids[j] as int],
{
}

/// Selection does not alter a point: whatever is computed from the entries of
/// a point, its norm for one, has the same value for point `j` of a selection
/// and for point `ids[j]` of the source.
pub proof fn lemma_select_keeps_measures<T, M>(
    points: PointSetView<T>,
    ids: Seq<usize>,
    j: int,
    measure: spec_fn((Option<Seq<T>>, Option<Seq<(usize, T)>>)) -> M,
)
    requires
        0 <= j < ids.len(),
    ensures
        points.select(ids).point(j) == points.point(ids[j] as int),
        measure(points.select(ids).point(j)) == measure(points.point(ids[j] as int)),
{
}

/// Selecting every point once, in order, gives the same points.
pub proof fn lemma_select_all<T>(points: PointSetView<T>)
    requires
        points.is_consistent(),
        points.num_points() <= usize::MAX,
    ensures
        points.select(identity_ids(points.num_points())) == points,
{
    let all = points.select(identity_ids(points.num_points()));
    if points.dense.is_some() {
        assert(all.dense.unwrap() =~= points.dense.unwrap());
    }
    if points.sparse.is_some() {
        assert(all.sparse.unwrap() =~= points.sparse.unwrap());
    }
}

/// Selecting all points of a selection, in order, gives that selection again.
pub proof fn lemma_select_again<T>(points: PointSetView<T>, ids: Seq<usize>)
    requires
        points.is_consistent(),
        ids.len() <= usize::MAX,
    ensures
        points.select(ids).select(identity_ids(ids.len())) == points.select(ids),
{
    lemma_select_num_points(points, ids);
    lemma_select_all(points.select(ids));
}

} // verus!
