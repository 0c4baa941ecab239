//! Storage and evaluation of Approximate Nearest Neighbor search datasets.
//!
//! The crate offers
//!  * point sets made of a dense part, a sparse part, or both, with exact
//!    row selection;
//!  * query sets that carry the exact nearest neighbors of each query under
//!    several metrics;
//!  * selection of the best scoring candidates with a bounded heap, and the
//!    layout of what was found for each query as ground-truth matrices;
//!  * recall of a retrieved set against the exact neighbors;
//!  * datasets that keep data points and query sets by their labels.
//!
//! Scores are integers: a caller that ranks by floating-point numbers hands
//! over the integers that [`score_key`] gives for them, which have the same
//! order. Recall is given as the number of hits and the depth of the
//! comparison, whose quotient it is.
//!
//! Every function has a contract, and Verus proves that it is met.
pub mod dataset;
pub mod dense;
pub mod error;
pub mod generation;
pub mod ground_truth;
pub mod metric;
pub mod point_set;
pub mod query_set;
pub mod score;
pub mod selection;
pub mod sparse;
pub mod top_k;

pub use crate::dataset::InMemoryAnnDataset;
pub use crate::dense::DenseMatrix;
pub use crate::error::DatasetError;
pub use crate::generation::{assemble_gts, attach_gt, dense_parts, rank_query, QueryNeighbors};
pub use crate::ground_truth::{GroundTruth, Recall};
pub use crate::metric::Metric;
pub use crate::point_set::PointSet;
pub use crate::query_set::QuerySet;
pub use crate::score::score_key;
pub use crate::sparse::SparseMatrix;
pub use crate::top_k::get_largest;
