//! A dataset held in memory: data points and labeled query sets.
use vstd::prelude::*;

use crate::error::DatasetError;
use crate::point_set::PointSet;
use crate::query_set::QuerySet;
use crate::selection::{ids_in_bounds, is_first_out_of_bounds};

verus! {

/// The label of the query set used for training.
pub const TRAIN_QUERY_SET: &'static str = "train_query_set";

/// The label of the query set used for validation.
pub const VALIDATION_QUERY_SET: &'static str = "validation_query_set";

/// The label of the query set used for testing.
pub const TEST_QUERY_SET: &'static str = "test_query_set";

/// An ANN dataset: a set of data points, and query sets by their labels.
#[derive(PartialEq, Eq, Debug)]
pub struct InMemoryAnnDataset<T> {
    data_points: PointSet<T>,
    query_sets: Vec<(String, QuerySet<T>)>,
}

/// The error says that no query set has the label.
pub open spec fn is_missing(e: DatasetError, label: Seq<char>) -> bool {
    e matches DatasetError::MissingQuerySet { label: missing } && missing@ == label
}

/// The place of a label among labeled query sets, where it has one.
pub open spec fn place_of<T>(query_sets: Seq<(String, QuerySet<T>)>, label: Seq<char>) -> Option<int> {
    if exists|i: int| 0 <= i < query_sets.len() && (#[trigger] query_sets[i]).0@ == label {
        Some(choose|i: int| 0 <= i < query_sets.len() && (#[trigger] query_sets[i]).0@ == label)
    } else {
        None
    }
}

impl<T> InMemoryAnnDataset<T> {
    /// The data points.
    pub closed spec fn spec_data_points(&self) -> PointSet<T> {
        self.data_points
    }

    /// The query sets with their labels, in the order in which their labels
    /// were first used.
    pub closed spec fn spec_query_sets(&self) -> Seq<(String, QuerySet<T>)> {
        self.query_sets@
    }

    /// The query set with the given label, if there is one.
    pub open spec fn spec_query_set(&self, label: Seq<char>) -> Option<QuerySet<T>> {
        match place_of(self.spec_query_sets(), label) {
            Some(i) => Some(self.spec_query_sets()[i].1),
            None => None,
        }
    }

    /// The data points and the query sets are well formed, and no label is
    /// used twice.
    #[verifier::type_invariant]
    pub open spec fn well_formed(&self) -> bool {
        &&& self.spec_data_points().well_formed()
        &&& forall|i: int|
            0 <= i < self.spec_query_sets().len() ==> (#[trigger] self.spec_query_sets()[i]).1.well_formed()
        &&& forall|i: int, j: int|
            0 <= i < j < self.spec_query_sets().len() ==> (#[trigger] self.spec_query_sets()[i]).0@
                != (#[trigger] self.spec_query_sets()[j]).0@
    }

    /// Creates a dataset from its data points, without query sets.
    pub fn create(data_points: PointSet<T>) -> (r: InMemoryAnnDataset<T>)
        ensures
            r.well_formed(),
            r.spec_data_points() == data_points,
            r.spec_query_sets().len() == 0,
            forall|label: Seq<char>| r.spec_query_set(label).is_none(),
    {
        proof {
            use_type_invariant(&data_points);
        }
        InMemoryAnnDataset { data_points, query_sets: Vec::new() }
    }

    /// Returns the total number of data points in the dataset.
    pub fn num_data_points(&self) -> (r: usize)
        ensures
            r == self.spec_data_points()@.num_points(),
    {
        self.data_points.num_points()
    }

    /// Returns all data points.
    pub fn get_data_points(&self) -> (r: &PointSet<T>)
        ensures
            *r == self.spec_data_points(),
            r.well_formed(),
    {
        proof {
            use_type_invariant(self);
        }
        &self.data_points
    }

    /// Puts other data points in the place of those of the dataset, and
    /// returns the former ones. The query sets stay.
    pub fn replace_data_points(&mut self, data_points: PointSet<T>) -> (r: PointSet<T>)
        ensures
            r == old(self).spec_data_points(),
            r.well_formed(),
            final(self).well_formed(),
            final(self).spec_data_points() == data_points,
            final(self).spec_query_sets() == old(self).spec_query_sets(),
    {
        proof {
            use_type_invariant(&*self);
            use_type_invariant(&data_points);
        }
        let ghost before = self.spec_query_sets();
        let mut query_sets: Vec<(String, QuerySet<T>)> = Vec::new();
        core::mem::swap(&mut self.query_sets, &mut query_sets);
        assert(query_sets@ == before);
        let mut other = InMemoryAnnDataset { data_points, query_sets };
        core::mem::swap(self, &mut other);
        other.data_points
    }

    /// Returns the labels of the query sets, in the order in which they were
    /// first used.
    pub fn labels(&self) -> (r: Vec<String>)
        ensures
            r@.len() == self.spec_query_sets().len(),
            forall|i: int| 0 <= i < r@.len() ==> (#[trigger] r@[i])@ == self.spec_query_sets()[i].0@,
    {
        let mut labels: Vec<String> = Vec::new();
        let mut i: usize = 0;
        while i < self.query_sets.len()
            invariant
                i <= self.query_sets@.len(),
                labels@.len() == i,
                forall|j: int| 0 <= j < i ==> (#[trigger] labels@[j])@ == self.query_sets@[j].0@,
            decreases self.query_sets@.len() - i,
        {
            labels.push(self.query_sets[i].0.clone());
            i += 1;
        }
        labels
    }

    /// The place of the query set with the given label.
    fn find(&self, label: &str) -> (r: Option<usize>)
        ensures
            self.well_formed(),
            match r {
                Some(i) => i < self.spec_query_sets().len() && place_of(
                    self.spec_query_sets(),
                    label@,
                ) == Some(i as int) && self.spec_query_sets()[i as int].0@ == label@,
                None => place_of(self.spec_query_sets(), label@).is_none(),
            },
    {
        proof {
            use_type_invariant(self);
        }
        let wanted: String = label.to_owned();
        let mut i: usize = 0;
        while i < self.query_sets.len()
            invariant
                i <= self.query_sets@.len(),
                wanted@ == label@,
                self.well_formed(),
                forall|j: int| 0 <= j < i ==> (#[trigger] self.query_sets@[j]).0@ != label@,
            decreases self.query_sets@.len() - i,
        {
            if self.query_sets[i].0 == wanted {
                return Some(i);
            }
            i += 1;
        }
        None
    }

    /// Adds a single `QuerySet` to the dataset with the given `label` or
    /// replaces it if it already exists. Query sets with other labels stay.
    pub fn add_query_set(&mut self, label: &str, query_set: QuerySet<T>) -> (r: Result<
        (),
        DatasetError,
    >)
        ensures
            r.is_ok(),
            final(self).well_formed(),
            final(self).spec_data_points() == old(self).spec_data_points(),
            final(self).spec_query_set(label@) == Some(query_set),
            forall|other: Seq<char>|
                other != label@ ==> final(self).spec_query_set(other) == old(self).spec_query_set(
                    other,
                ),
    {
        proof {
            use_type_invariant(&*self);
            use_type_invariant(&query_set);
        }
        let ghost before = self.query_sets@;
        let place = self.find(label);
        let mut query_sets: Vec<(String, QuerySet<T>)> = Vec::new();
        core::mem::swap(&mut self.query_sets, &mut query_sets);
        match place {
            Some(i) => {
                let entry: (String, QuerySet<T>) = (label.to_owned(), query_set);
                query_sets.set(i, entry);
                proof {
                    let after = query_sets@;
                    assert(after[i as int].0@ == label@);
                    assert forall|other: Seq<char>| other != label@ implies place_of(after, other)
                        == place_of(before, other) by {
                        lemma_places(before, after, other);
                    }
                }
            },
            None => {
                let entry: (String, QuerySet<T>) = (label.to_owned(), query_set);
                query_sets.push(entry);
                proof {
                    let after = query_sets@;
                    assert(after[before.len() as int].0@ == label@);
                    assert forall|other: Seq<char>| other != label@ implies place_of(after, other)
                        == place_of(before, other) by {
                        lemma_places(before, after, other);
                    }
                }
            },
        }
        self.query_sets = query_sets;
        Ok(())
    }

    /// Convenience method to add a "train" query set.
    pub fn add_train_query_set(&mut self, query_set: QuerySet<T>) -> (r: Result<(), DatasetError>)
        ensures
            r.is_ok(),
            final(self).well_formed(),
            final(self).spec_data_points() == old(self).spec_data_points(),
            final(self).spec_query_set(TRAIN_QUERY_SET@) == Some(query_set),
            forall|other: Seq<char>|
                other != TRAIN_QUERY_SET@ ==> final(self).spec_query_set(other) == old(
                    self,
                ).spec_query_set(other),
    {
        self.add_query_set(TRAIN_QUERY_SET, query_set)
    }

    /// Convenience method to add a "validation" query set.
    pub fn add_validation_query_set(&mut self, query_set: QuerySet<T>) -> (r: Result<
        (),
        DatasetError,
    >)
        ensures
            r.is_ok(),
            final(self).well_formed(),
            final(self).spec_data_points() == old(self).spec_data_points(),
            final(self).spec_query_set(VALIDATION_QUERY_SET@) == Some(query_set),
            forall|other: Seq<char>|
                other != VALIDATION_QUERY_SET@ ==> final(self).spec_query_set(other) == old(
                    self,
                ).spec_query_set(other),
    {
        self.add_query_set(VALIDATION_QUERY_SET, query_set)
    }

    /// Convenience method to add a "test" query set.
    pub fn add_test_query_set(&mut self, query_set: QuerySet<T>) -> (r: Result<(), DatasetError>)
        ensures
            r.is_ok(),
            final(self).well_formed(),
            final(self).spec_data_points() == old(self).spec_data_points(),
            final(self).spec_query_set(TEST_QUERY_SET@) == Some(query_set),
            forall|other: Seq<char>|
                other != TEST_QUERY_SET@ ==> final(self).spec_query_set(other) == old(
                    self,
                ).spec_query_set(other),
    {
        self.add_query_set(TEST_QUERY_SET, query_set)
    }

    /// Returns the `QuerySet` with the given `label`, or an error if the
    /// dataset has none.
    pub fn get_query_set(&self, label: &str) -> (r: Result<&QuerySet<T>, DatasetError>)
        ensures
            self.well_formed(),
            match r {
                Ok(query_set) => self.spec_query_set(label@) == Some(*query_set)
                    && query_set.well_formed(),
                Err(e) => self.spec_query_set(label@).is_none() && is_missing(
                    e,
                    label@,
                ),
            },
    {
        match self.find(label) {
            Some(i) => Ok(&self.query_sets[i].1),
            None => Err(DatasetError::MissingQuerySet { label: label.to_owned() }),
        }
    }

    /// Convenience method that returns the "train" `QuerySet`.
    pub fn get_train_query_set(&self) -> (r: Result<&QuerySet<T>, DatasetError>)
        ensures
            match r {
                Ok(query_set) => self.spec_query_set(TRAIN_QUERY_SET@) == Some(*query_set),
                Err(e) => self.spec_query_set(TRAIN_QUERY_SET@).is_none() && is_missing(
                    e,
                    TRAIN_QUERY_SET@,
                ),
            },
    {
        self.get_query_set(TRAIN_QUERY_SET)
    }

    /// Convenience method that returns the "validation" `QuerySet`.
    pub fn get_validation_query_set(&self) -> (r: Result<&QuerySet<T>, DatasetError>)
        ensures
            match r {
                Ok(query_set) => self.spec_query_set(VALIDATION_QUERY_SET@) == Some(*query_set),
                Err(e) => self.spec_query_set(VALIDATION_QUERY_SET@).is_none() && is_missing(
                    e,
                    VALIDATION_QUERY_SET@,
                ),
            },
    {
        self.get_query_set(VALIDATION_QUERY_SET)
    }

    /// Convenience method that returns the "test" `QuerySet`.
    pub fn get_test_query_set(&self) -> (r: Result<&QuerySet<T>, DatasetError>)
        ensures
            match r {
                Ok(query_set) => self.spec_query_set(TEST_QUERY_SET@) == Some(*query_set),
                Err(e) => self.spec_query_set(TEST_QUERY_SET@).is_none() && is_missing(
                    e,
                    TEST_QUERY_SET@,
                ),
            },
    {
        self.get_query_set(TEST_QUERY_SET)
    }

    /// Returns the total number of query points labeled with `label`.
    pub fn num_query_points(&self, label: &str) -> (r: Result<usize, DatasetError>)
        ensures
            match r {
                Ok(n) => self.spec_query_set(label@).is_some() && n == self.spec_query_set(
                    label@,
                ).unwrap().spec_points()@.num_points(),
                Err(e) => self.spec_query_set(label@).is_none() && is_missing(
                    e,
                    label@,
                ),
            },
    {
        match self.get_query_set(label) {
            Ok(query_set) => Ok(query_set.get_points().num_points()),
            Err(e) => Err(e),
        }
    }

    /// Convenience method that returns the total number of train query points.
    pub fn num_train_query_points(&self) -> (r: Result<usize, DatasetError>)
        ensures
            match r {
                Ok(n) => self.spec_query_set(TRAIN_QUERY_SET@).is_some() && n
                    == self.spec_query_set(TRAIN_QUERY_SET@).unwrap().spec_points()@.num_points(),
                Err(e) => self.spec_query_set(TRAIN_QUERY_SET@).is_none() && is_missing(
                    e,
                    TRAIN_QUERY_SET@,
                ),
            },
    {
        self.num_query_points(TRAIN_QUERY_SET)
    }

    /// Convenience method that returns the total number of validation query points.
    pub fn num_validation_query_points(&self) -> (r: Result<usize, DatasetError>)
        ensures
            match r {
                Ok(n) => self.spec_query_set(VALIDATION_QUERY_SET@).is_some() && n
                    == self.spec_query_set(
                    VALIDATION_QUERY_SET@,
                ).unwrap().spec_points()@.num_points(),
                Err(e) => self.spec_query_set(VALIDATION_QUERY_SET@).is_none() && is_missing(
                    e,
                    VALIDATION_QUERY_SET@,
                ),
            },
    {
        self.num_query_points(VALIDATION_QUERY_SET)
    }

    /// Convenience method that returns the total number of test query points.
    pub fn num_test_query_points(&self) -> (r: Result<usize, DatasetError>)
        ensures
            match r {
                Ok(n) => self.spec_query_set(TEST_QUERY_SET@).is_some() && n
                    == self.spec_query_set(TEST_QUERY_SET@).unwrap().spec_points()@.num_points(),
                Err(e) => self.spec_query_set(TEST_QUERY_SET@).is_none() && is_missing(
                    e,
                    TEST_QUERY_SET@,
                ),
            },
    {
        self.num_query_points(TEST_QUERY_SET)
    }
}

impl<T: Copy> Clone for InMemoryAnnDataset<T> {
    /// A dataset with the same data points and, under the same labels, query
    /// sets with the same points.
    fn clone(&self) -> (r: Self)
        ensures
            r.well_formed(),
            r.spec_data_points()@ == self.spec_data_points()@,
            r.spec_query_sets().len() == self.spec_query_sets().len(),
            forall|i: int|
                0 <= i < r.spec_query_sets().len() ==> {
                    &&& (#[trigger] r.spec_query_sets()[i]).0@ == self.spec_query_sets()[i].0@
                    &&& r.spec_query_sets()[i].1.spec_points()@
                        == self.spec_query_sets()[i].1.spec_points()@
                },
    {
        proof {
            use_type_invariant(self);
        }
        let ghost given = self.spec_query_sets();
        let mut query_sets: Vec<(String, QuerySet<T>)> = Vec::new();
        let mut i: usize = 0;
        while i < self.query_sets.len()
            invariant
                i <= self.query_sets@.len(),
                given == self.query_sets@,
                query_sets@.len() == i,
                forall|j: int|
                    0 <= j < i ==> {
                        &&& (#[trigger] query_sets@[j]).0@ == given[j].0@
                        &&& query_sets@[j].1.well_formed()
                        &&& query_sets@[j].1.spec_points()@ == given[j].1.spec_points()@
                    },
            decreases self.query_sets@.len() - i,
        {
            let entry: (String, QuerySet<T>) = (
                self.query_sets[i].0.clone(),
                self.query_sets[i].1.clone(),
            );
            query_sets.push(entry);
            i += 1;
        }
        proof {
            assert forall|a: int, b: int| 0 <= a < b < query_sets@.len() implies (
            #[trigger] query_sets@[a]).0@ != (#[trigger] query_sets@[b]).0@ by {
                assert(given[a].0@ != given[b].0@);
            }
        }
        InMemoryAnnDataset { data_points: self.data_points.clone(), query_sets }
    }
}

impl<T: Copy> InMemoryAnnDataset<T> {
    /// Selects a subset of data points.
    pub fn select(&self, ids: &[usize]) -> (r: Result<PointSet<T>, DatasetError>)
        ensures
            match r {
                Ok(points) => {
                    &&& ids_in_bounds(ids@, self.spec_data_points()@.num_points())
                    &&& points.well_formed()
                    &&& points@ == self.spec_data_points()@.select(ids@)
                },
                Err(e) => e matches DatasetError::IndexOutOfBounds { id, rows }
                    && rows == self.spec_data_points()@.num_points() && is_first_out_of_bounds(
                    ids@,
                    self.spec_data_points()@.num_points(),
                    id,
                ),
            },
    {
        self.data_points.select(ids)
    }
}

/// A label keeps its place where the query sets change only at the place of
/// another label, or get one more at their end under another label.
proof fn lemma_places<T>(
    before: Seq<(String, QuerySet<T>)>,
    after: Seq<(String, QuerySet<T>)>,
    label: Seq<char>,
)
    requires
        before.len() <= after.len() <= before.len() + 1,
        forall|i: int|
            0 <= i < before.len() ==> (#[trigger] after[i]).0@ == before[i].0@ || (after[i].0@
                != label && before[i].0@ != label),
        forall|i: int|
            0 <= i < before.len() && before[i].0@ == label ==> (#[trigger] after[i]) == before[i],
        after.len() > before.len() ==> after[before.len() as int].0@ != label,
        forall|i: int, j: int|
            0 <= i < j < before.len() ==> (#[trigger] before[i]).0@ != (#[trigger] before[j]).0@,
        forall|i: int, j: int|
            0 <= i < j < after.len() ==> (#[trigger] after[i]).0@ != (#[trigger] after[j]).0@,
    ensures
        place_of(after, label) == place_of(before, label),
        place_of(before, label).is_some() ==> after[place_of(before, label).unwrap()]
            == before[place_of(before, label).unwrap()],
{
    if exists|i: int| 0 <= i < before.len() && (#[trigger] before[i]).0@ == label {
        let i = choose|i: int| 0 <= i < before.len() && (#[trigger] before[i]).0@ == label;
        assert(after[i].0@ == label);
        let j = choose|j: int| 0 <= j < after.len() && (#[trigger] after[j]).0@ == label;
        if i < j {
            assert(after[i].0@ != after[j].0@);
        } else if j < i {
            assert(after[j].0@ != after[i].0@);
        }
    } else {
        if exists|j: int| 0 <= j < after.len() && (#[trigger] after[j]).0@ == label {
            let j = choose|j: int| 0 <= j < after.len() && (#[trigger] after[j]).0@ == label;
            if j < before.len() {
                assert(before[j].0@ == label);
            }
        }
    }
}

} // verus!
