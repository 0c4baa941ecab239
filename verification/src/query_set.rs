//! Query points together with their exact nearest neighbors.
use vstd::prelude::*;

use crate::dense::DenseMatrix;
use crate::error::DatasetError;
use crate::ground_truth::GroundTruth;
use crate::metric::Metric;
use crate::point_set::PointSet;

verus! {

/// A set of query points (dense, sparse, or both) and their exact nearest
/// neighbors for various metrics. There is at most one set of neighbors for
/// each metric, and each has one row per query point.
#[derive(PartialEq, Eq, Debug)]
pub struct QuerySet<T> {
    points: PointSet<T>,
    hamming: Option<GroundTruth>,
    euclidean: Option<GroundTruth>,
    cosine: Option<GroundTruth>,
    inner_product: Option<GroundTruth>,
}

impl<T> QuerySet<T> {
    /// The query points.
    pub closed spec fn spec_points(&self) -> PointSet<T> {
        self.points
    }

    /// The exact neighbors that are attached for a metric.
    pub closed spec fn spec_ground_truth(&self, metric: Metric) -> Option<GroundTruth> {
        match metric {
            Metric::Hamming => self.hamming,
            Metric::Euclidean => self.euclidean,
            Metric::Cosine => self.cosine,
            Metric::InnerProduct => self.inner_product,
        }
    }

    /// The neighbors attached for the metric, if any, are well formed and have
    /// one row per query point.
    pub open spec fn fits(&self, metric: Metric) -> bool {
        match self.spec_ground_truth(metric) {
            Some(truth) => truth.well_formed() && truth.spec_neighbors().spec_nrows()
                == self.spec_points()@.num_points(),
            None => true,
        }
    }

    /// The points are well formed and the neighbors of each metric fit them.
    #[verifier::type_invariant]
    pub open spec fn well_formed(&self) -> bool {
        &&& self.spec_points().well_formed()
        &&& self.fits(Metric::Hamming)
        &&& self.fits(Metric::Euclidean)
        &&& self.fits(Metric::Cosine)
        &&& self.fits(Metric::InnerProduct)
    }

    /// Creates a new QuerySet from a set of query points, without neighbors.
    pub fn new(points: PointSet<T>) -> (r: QuerySet<T>)
        ensures
            r.well_formed(),
            r.spec_points() == points,
            forall|metric: Metric| r.spec_ground_truth(metric).is_none(),
    {
        proof {
            use_type_invariant(&points);
        }
        QuerySet { points, hamming: None, euclidean: None, cosine: None, inner_product: None }
    }

    /// Returns the set of query points.
    pub fn get_points(&self) -> (r: &PointSet<T>)
        ensures
            *r == self.spec_points(),
            r.well_formed(),
    {
        proof {
            use_type_invariant(self);
        }
        &self.points
    }

    /// Adds a set of exact nearest neighbors to the query set, as solutions to
    /// ANN with the given metric. Neighbors that were attached for that metric
    /// before are replaced; those of the other metrics stay.
    ///
    /// Returns an error, and changes nothing, if the number of rows in
    /// `neighbors` does not match the number of query points.
    pub fn add_ground_truth(&mut self, metric: Metric, neighbors: DenseMatrix<usize>) -> (r: Result<
        (),
        DatasetError,
    >)
        ensures
            final(self).well_formed(),
            final(self).spec_points() == old(self).spec_points(),
            forall|other: Metric|
                other != metric ==> final(self).spec_ground_truth(other) == old(
                    self,
                ).spec_ground_truth(other),
            match r {
                Ok(_) => {
                    &&& neighbors.spec_nrows() == old(self).spec_points()@.num_points()
                    &&& final(self).spec_ground_truth(metric).is_some()
                    &&& final(self).spec_ground_truth(metric).unwrap().spec_neighbors()
                        == neighbors
                },
                Err(e) => {
                    &&& neighbors.spec_nrows() != old(self).spec_points()@.num_points()
                    &&& e == (DatasetError::GroundTruthRowMismatch {
                        neighbors: neighbors.spec_nrows() as usize,
                        points: old(self).spec_points()@.num_points() as usize,
                    })
                    &&& final(self).spec_ground_truth(metric) == old(self).spec_ground_truth(
                        metric,
                    )
                },
            },
    {
        proof {
            use_type_invariant(&*self);
        }
        let points: usize = self.points.num_points();
        if neighbors.nrows() != points {
            return Err(
                DatasetError::GroundTruthRowMismatch { neighbors: neighbors.nrows(), points },
            );
        }
        let truth = GroundTruth::new(neighbors);
        match metric {
            Metric::Hamming => {
                self.hamming = Some(truth);
            },
            Metric::Euclidean => {
                self.euclidean = Some(truth);
            },
            Metric::Cosine => {
                self.cosine = Some(truth);
            },
            Metric::InnerProduct => {
                self.inner_product = Some(truth);
            },
        }
        Ok(())
    }

    /// Returns the set of exact nearest neighbors for ANN search with the
    /// given metric; or an error if the query set does not have the solution.
    pub fn get_ground_truth(&self, metric: &Metric) -> (r: Result<&GroundTruth, DatasetError>)
        ensures
            self.well_formed(),
            match r {
                Ok(truth) => self.spec_ground_truth(*metric) == Some(*truth),
                Err(e) => self.spec_ground_truth(*metric).is_none() && e == (
                DatasetError::MissingGroundTruth { metric: *metric }),
            },
    {
        proof {
            use_type_invariant(self);
        }
        let found = match metric {
            Metric::Hamming => &self.hamming,
            Metric::Euclidean => &self.euclidean,
            Metric::Cosine => &self.cosine,
            Metric::InnerProduct => &self.inner_product,
        };
        match found {
            Some(truth) => Ok(truth),
            None => Err(DatasetError::MissingGroundTruth { metric: *metric }),
        }
    }
}

/// A copy of the neighbors attached for a metric.
fn copy_of(truth: &Option<GroundTruth>) -> (r: Option<GroundTruth>)
    ensures
        r.is_some() == truth.is_some(),
        r.is_some() ==> {
            &&& r.unwrap().well_formed()
            &&& r.unwrap().spec_neighbors().spec_nrows()
                == truth.unwrap().spec_neighbors().spec_nrows()
            &&& r.unwrap().spec_neighbors().spec_ncols()
                == truth.unwrap().spec_neighbors().spec_ncols()
            &&& r.unwrap().spec_neighbors().flat() == truth.unwrap().spec_neighbors().flat()
        },
{
    match truth {
        Some(truth) => Some(truth.clone()),
        None => None,
    }
}

impl<T: Copy> Clone for QuerySet<T> {
    /// A query set with the same points and the same neighbors.
    fn clone(&self) -> (r: Self)
        ensures
            r.well_formed(),
            r.spec_points()@ == self.spec_points()@,
            forall|metric: Metric|
                r.spec_ground_truth(metric).is_some() == self.spec_ground_truth(metric).is_some(),
            forall|metric: Metric| #[trigger]
                self.spec_ground_truth(metric).is_some() ==> {
                    &&& r.spec_ground_truth(metric).unwrap().spec_neighbors().spec_ncols()
                        == self.spec_ground_truth(metric).unwrap().spec_neighbors().spec_ncols()
                    &&& r.spec_ground_truth(metric).unwrap().spec_neighbors().flat()
                        == self.spec_ground_truth(metric).unwrap().spec_neighbors().flat()
                },
    {
        proof {
            use_type_invariant(self);
        }
        QuerySet {
            points: self.points.clone(),
            hamming: copy_of(&self.hamming),
            euclidean: copy_of(&self.euclidean),
            cosine: copy_of(&self.cosine),
            inner_product: copy_of(&self.inner_product),
        }
    }
}

} // verus!
