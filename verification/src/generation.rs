//! Generation of ground truth: the nearest neighbors of every query under
//! the inner product, the cosine and the Euclidean distance.
//!
//! The scores of the data points for a query are ranked by
//! [`rank_query`], one query at a time and in any order; [`assemble_gts`] lays
//! the rankings out as one matrix per metric, row `i` for query `i`; and
//! [`attach_gt`] adds the matrices to a query set.
use vstd::prelude::*;

use crate::dense::{concat_rows, lemma_concat_rows, DenseMatrix};
use crate::error::DatasetError;
use crate::metric::Metric;
use crate::point_set::PointSet;
use crate::query_set::QuerySet;
use crate::top_k::{get_largest, is_top_k, selection_len};

verus! {

/// The nearest neighbors of one query under each of the three metrics,
/// nearest first.
#[derive(PartialEq, Eq, Debug)]
pub struct QueryNeighbors {
    pub euclidean: Vec<usize>,
    pub cosine: Vec<usize>,
    pub inner_product: Vec<usize>,
}

impl QueryNeighbors {
    /// Each of the three lists names `width` neighbors.
    pub open spec fn has_width(&self, width: nat) -> bool {
        &&& self.euclidean@.len() == width
        &&& self.cosine@.len() == width
        &&& self.inner_product@.len() == width
    }

    /// The length of the first list, in the order Euclidean, cosine, inner
    /// product, that does not name `width` neighbors.
    pub open spec fn first_other_len(&self, width: nat) -> usize {
        if self.euclidean.len() != width {
            self.euclidean.len()
        } else if self.cosine.len() != width {
            self.cosine.len()
        } else {
            self.inner_product.len()
        }
    }
}

/// Returns the dense parts of the data points and of the query points, on
/// which ground truth is generated.
///
/// Fails if either set has no dense part.
pub fn dense_parts<'a, T>(data: &'a PointSet<T>, queries: &'a PointSet<T>) -> (r: Result<
    (&'a DenseMatrix<T>, &'a DenseMatrix<T>),
    DatasetError,
>)
    ensures
        match r {
            Ok((d, q)) => {
                &&& data.spec_dense() == Some(*d)
                &&& queries.spec_dense() == Some(*q)
                &&& d.well_formed()
                &&& q.well_formed()
            },
            Err(e) => {
                &&& data.spec_dense().is_none() || queries.spec_dense().is_none()
                &&& e == DatasetError::MissingDenseComponent
            },
        },
{
    match (data.get_dense(), queries.get_dense()) {
        (Some(d), Some(q)) => Ok((d, q)),
        _ => Err(DatasetError::MissingDenseComponent),
    }
}

/// Ranks the data points for one query under the three metrics.
///
/// Each slice holds one score per data point, by which the points are ranked
/// under that metric: a higher score is nearer. Each list of the result names
/// the `k` nearest points, nearest first, or all points where there are fewer.
pub fn rank_query(inner_product: &[i64], cosine: &[i64], euclidean: &[i64], k: usize) -> (r:
    QueryNeighbors)
    ensures
        is_top_k(inner_product@, k as nat, r.inner_product@),
        is_top_k(cosine@, k as nat, r.cosine@),
        is_top_k(euclidean@, k as nat, r.euclidean@),
{
    let gt_ip = get_largest(inner_product, k);
    let gt_cosine = get_largest(cosine, k);
    let gt_euclidean = get_largest(euclidean, k);
    QueryNeighbors { euclidean: gt_euclidean, cosine: gt_cosine, inner_product: gt_ip }
}

/// Appends the ids to the entries.
fn append_ids(flat: &mut Vec<usize>, ids: &Vec<usize>)
    ensures
        final(flat)@ == old(flat)@ + ids@,
{
    let mut c: usize = 0;
    while c < ids.len()
        invariant
            c <= ids@.len(),
            flat@ == old(flat)@ + ids@.take(c as int),
        decreases ids@.len() - c,
    {
        flat.push(ids[c]);
        assert(ids@.take(c + 1) =~= ids@.take(c as int).push(ids@[c as int]));
        c += 1;
    }
    assert(ids@.take(c as int) =~= ids@);
}

/// The Euclidean neighbors of each query.
pub open spec fn euclidean_rows(neighbors: Seq<QueryNeighbors>) -> Seq<Seq<usize>> {
    Seq::new(neighbors.len(), |q: int| neighbors[q].euclidean@)
}

/// The cosine neighbors of each query.
pub open spec fn cosine_rows(neighbors: Seq<QueryNeighbors>) -> Seq<Seq<usize>> {
    Seq::new(neighbors.len(), |q: int| neighbors[q].cosine@)
}

/// The inner-product neighbors of each query.
pub open spec fn inner_product_rows(neighbors: Seq<QueryNeighbors>) -> Seq<Seq<usize>> {
    Seq::new(neighbors.len(), |q: int| neighbors[q].inner_product@)
}

/// The number of columns of the ground truth for `k` neighbors among
/// `points` data points: `k`, or the number of points where there are fewer.
pub open spec fn width_of(k: usize, points: usize) -> usize {
    selection_len(k as nat, points as nat) as usize
}

/// What was found for a query by ranking one score per data point under each
/// metric has the width of the ground truth, so that it can be laid out.
pub proof fn lemma_ranked_has_width(
    inner_product: Seq<i64>,
    cosine: Seq<i64>,
    euclidean: Seq<i64>,
    k: usize,
    points: usize,
    found: QueryNeighbors,
)
    requires
        inner_product.len() == points,
        cosine.len() == points,
        euclidean.len() == points,
        is_top_k(inner_product, k as nat, found.inner_product@),
        is_top_k(cosine, k as nat, found.cosine@),
        is_top_k(euclidean, k as nat, found.euclidean@),
    ensures
        found.has_width(width_of(k, points) as nat),
{
}

/// Lays the neighbors of the queries out as three matrices, for the
/// Euclidean distance, the cosine and the inner product in this order.
///
/// Entry `q` of `neighbors` holds what was found for query `q`; it becomes
/// row `q` of each matrix, whatever the order in which the queries were
/// ranked. Each matrix has one column for each of the `k` neighbors, or for
/// each of the `points` data points where there are fewer than `k`.
///
/// Fails at the first query with a list that does not name that many
/// neighbors.
pub fn assemble_gts(neighbors: &[QueryNeighbors], k: usize, points: usize) -> (r: Result<
    (DenseMatrix<usize>, DenseMatrix<usize>, DenseMatrix<usize>),
    DatasetError,
>)
    ensures
        match r {
            Ok((gt_euclidean, gt_cosine, gt_ip)) => {
                &&& forall|q: int|
                    0 <= q < neighbors@.len() ==> (#[trigger] neighbors@[q]).has_width(
                        width_of(k, points) as nat,
                    )
                &&& gt_euclidean.well_formed() && gt_cosine.well_formed() && gt_ip.well_formed()
                &&& gt_euclidean.spec_nrows() == neighbors@.len()
                &&& gt_cosine.spec_nrows() == neighbors@.len()
                &&& gt_ip.spec_nrows() == neighbors@.len()
                &&& gt_euclidean.spec_ncols() == width_of(k, points)
                &&& gt_cosine.spec_ncols() == width_of(k, points)
                &&& gt_ip.spec_ncols() == width_of(k, points)
                &&& gt_euclidean@ == euclidean_rows(neighbors@)
                &&& gt_cosine@ == cosine_rows(neighbors@)
                &&& gt_ip@ == inner_product_rows(neighbors@)
            },
            Err(e) => exists|q: int|
                {
                    &&& 0 <= q < neighbors@.len()
                    &&& !(#[trigger] neighbors@[q]).has_width(width_of(k, points) as nat)
                    &&& forall|j: int|
                        0 <= j < q ==> (#[trigger] neighbors@[j]).has_width(
                            width_of(k, points) as nat,
                        )
                    &&& e == (DatasetError::NeighborCountMismatch {
                        query: q as usize,
                        expected: width_of(k, points),
                        found: neighbors@[q].first_other_len(width_of(k, points) as nat),
                    })
                },
        },
{
    let width: usize = if k <= points {
        k
    } else {
        points
    };
    let n: usize = neighbors.len();
    let mut euclidean: Vec<usize> = Vec::new();
    let mut cosine: Vec<usize> = Vec::new();
    let mut inner_product: Vec<usize> = Vec::new();
    let mut q: usize = 0;
    while q < n
        invariant
            q <= n,
            n == neighbors@.len(),
            width == width_of(k, points),
            forall|j: int| 0 <= j < q ==> (#[trigger] neighbors@[j]).has_width(width as nat),
            euclidean@ == concat_rows(euclidean_rows(neighbors@), q as nat),
            cosine@ == concat_rows(cosine_rows(neighbors@), q as nat),
            inner_product@ == concat_rows(inner_product_rows(neighbors@), q as nat),
        decreases n - q,
    {
        let found: &QueryNeighbors = &neighbors[q];
        if found.euclidean.len() != width {
            return Err(
                DatasetError::NeighborCountMismatch {
                    query: q,
                    expected: width,
                    found: found.euclidean.len(),
                },
            );
        }
        if found.cosine.len() != width {
            return Err(
                DatasetError::NeighborCountMismatch {
                    query: q,
                    expected: width,
                    found: found.cosine.len(),
                },
            );
        }
        if found.inner_product.len() != width {
            return Err(
                DatasetError::NeighborCountMismatch {
                    query: q,
                    expected: width,
                    found: found.inner_product.len(),
                },
            );
        }
        append_ids(&mut euclidean, &found.euclidean);
        append_ids(&mut cosine, &found.cosine);
        append_ids(&mut inner_product, &found.inner_product);
        q += 1;
    }
    proof {
        assert forall|j: int| 0 <= j < n implies (#[trigger] euclidean_rows(neighbors@)[j]).len()
            == width by {
            assert(neighbors@[j].has_width(width as nat));
        }
        assert forall|j: int| 0 <= j < n implies (#[trigger] cosine_rows(neighbors@)[j]).len()
            == width by {
            assert(neighbors@[j].has_width(width as nat));
        }
        assert forall|j: int| 0 <= j < n implies (#[trigger] inner_product_rows(
            neighbors@,
        )[j]).len() == width by {
            assert(neighbors@[j].has_width(width as nat));
        }
        lemma_concat_rows(euclidean_rows(neighbors@), width as nat, n as nat);
        lemma_concat_rows(cosine_rows(neighbors@), width as nat, n as nat);
        lemma_concat_rows(inner_product_rows(neighbors@), width as nat, n as nat);
    }
    let gt_euclidean = DenseMatrix::from_flat(n, width, euclidean);
    let gt_cosine = DenseMatrix::from_flat(n, width, cosine);
    let gt_ip = DenseMatrix::from_flat(n, width, inner_product);
    assert(gt_euclidean@ =~= euclidean_rows(neighbors@));
    assert(gt_cosine@ =~= cosine_rows(neighbors@));
    assert(gt_ip@ =~= inner_product_rows(neighbors@));
    Ok((gt_euclidean, gt_cosine, gt_ip))
}

/// Attaches to a query set the neighbors of its queries under the inner
/// product, the cosine and the Euclidean distance.
///
/// The three matrices are checked before any is attached: if one does not
/// have a row per query point, the query set stays as it was and the error
/// names the first such matrix, in the order inner product, cosine,
/// Euclidean. Neighbors attached for the Hamming distance stay.
pub fn attach_gt<T>(
    query_set: &mut QuerySet<T>,
    gt_euclidean: DenseMatrix<usize>,
    gt_cosine: DenseMatrix<usize>,
    gt_ip: DenseMatrix<usize>,
) -> (r: Result<(), DatasetError>)
    ensures
        final(query_set).well_formed(),
        final(query_set).spec_points() == old(query_set).spec_points(),
        final(query_set).spec_ground_truth(Metric::Hamming) == old(query_set).spec_ground_truth(
            Metric::Hamming,
        ),
        match r {
            Ok(_) => {
                &&& gt_ip.spec_nrows() == old(query_set).spec_points()@.num_points()
                &&& gt_cosine.spec_nrows() == old(query_set).spec_points()@.num_points()
                &&& gt_euclidean.spec_nrows() == old(query_set).spec_points()@.num_points()
                &&& final(query_set).spec_ground_truth(Metric::InnerProduct).is_some()
                &&& final(query_set).spec_ground_truth(
                    Metric::InnerProduct,
                ).unwrap().spec_neighbors() == gt_ip
                &&& final(query_set).spec_ground_truth(Metric::Cosine).is_some()
                &&& final(query_set).spec_ground_truth(Metric::Cosine).unwrap().spec_neighbors()
                    == gt_cosine
                &&& final(query_set).spec_ground_truth(Metric::Euclidean).is_some()
                &&& final(query_set).spec_ground_truth(Metric::Euclidean).unwrap().spec_neighbors()
                    == gt_euclidean
            },
            Err(e) => {
                &&& forall|metric: Metric|
                    final(query_set).spec_ground_truth(metric) == old(
                        query_set,
                    ).spec_ground_truth(metric)
                &&& e == (DatasetError::GroundTruthRowMismatch {
                    neighbors: first_other_rows(
                        gt_ip.spec_nrows(),
                        gt_cosine.spec_nrows(),
                        gt_euclidean.spec_nrows(),
                        old(query_set).spec_points()@.num_points(),
                    ) as usize,
                    points: old(query_set).spec_points()@.num_points() as usize,
                })
                &&& first_other_rows(
                    gt_ip.spec_nrows(),
                    gt_cosine.spec_nrows(),
                    gt_euclidean.spec_nrows(),
                    old(query_set).spec_points()@.num_points(),
                ) != old(query_set).spec_points()@.num_points()
            },
        },
{
    proof {
        use_type_invariant(&*query_set);
    }
    let points: usize = query_set.get_points().num_points();
    if gt_ip.nrows() != points {
        return Err(DatasetError::GroundTruthRowMismatch { neighbors: gt_ip.nrows(), points });
    }
    if gt_cosine.nrows() != points {
        return Err(DatasetError::GroundTruthRowMismatch { neighbors: gt_cosine.nrows(), points });
    }
    if gt_euclidean.nrows() != points {
        return Err(
            DatasetError::GroundTruthRowMismatch { neighbors: gt_euclidean.nrows(), points },
        );
    }
    let added_ip = query_set.add_ground_truth(Metric::InnerProduct, gt_ip);
    let added_cosine = query_set.add_ground_truth(Metric::Cosine, gt_cosine);
    let added_euclidean = query_set.add_ground_truth(Metric::Euclidean, gt_euclidean);
    assert(added_ip.is_ok() && added_cosine.is_ok() && added_euclidean.is_ok());
    Ok(())
}

/// The first of three numbers of rows that is not the number of points, or
/// the number of points where all three are.
pub open spec fn first_other_rows(first: nat, second: nat, third: nat, points: nat) -> nat {
    if first != points {
        first
    } else if second != points {
        second
    } else {
        third
    }
}

} // verus!
