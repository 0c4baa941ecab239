//! The failures that the library returns, each with its type.
use vstd::prelude::*;

use crate::metric::Metric;

verus! {

/// The ways in which an operation of this library can fail.
///
/// Every failure is recoverable and carries the counts or the metric that
/// caused it.
#[derive(PartialEq, Eq, Debug)]
pub enum DatasetError {
    /// A point set was given neither dense nor sparse vectors.
    EmptyPointSet,
    /// The dense and the sparse parts of a point set differ in their number of rows.
    RowCountMismatch { dense: usize, sparse: usize },
    /// A matrix of neighbors does not have one row per query point.
    GroundTruthRowMismatch { neighbors: usize, points: usize },
    /// The dataset has no query set with the label.
    MissingQuerySet { label: String },
    /// No exact neighbors were attached for the metric.
    MissingGroundTruth { metric: Metric },
    /// A retrieved set does not have one entry per query of the ground truth.
    RecallShapeMismatch { retrieved: usize, expected: usize },
    /// Ground-truth generation needs dense vectors and found none.
    MissingDenseComponent,
    /// A row was requested that the point set does not have.
    IndexOutOfBounds { id: usize, rows: usize },
    /// The text names no metric.
    UnknownMetric,
    /// A dense matrix was given a number of entries other than rows times columns.
    ShapeMismatch { rows: usize, cols: usize, len: usize },
    /// The neighbors found for a query are not as many as the ground truth has columns.
    NeighborCountMismatch { query: usize, expected: usize, found: usize },
    /// The arrays given for a sparse matrix are not a compressed-sparse-row layout.
    MalformedSparse,
}

} // verus!
