//! Exact nearest neighbors and the recall of a retrieved set against them.
use vstd::prelude::*;

use crate::dense::DenseMatrix;
use crate::error::DatasetError;

verus! {

/// The type `roaring::RoaringTreemap`, a compressed set of 64-bit values.
/// Nothing of its inside is known here.
#[verifier::external_type_specification]
#[verifier::external_body]
pub struct ExRoaringTreemap(roaring::RoaringTreemap);

/// The values that a `roaring::RoaringTreemap` holds.
pub uninterp spec fn treemap_members(map: roaring::RoaringTreemap) -> Set<u64>;

/// `RoaringTreemap::new` creates a treemap that holds no value.
pub assume_specification[ roaring::RoaringTreemap::new ]() -> (map: roaring::RoaringTreemap)
    ensures
        treemap_members(map) == Set::<u64>::empty(),
;

/// `RoaringTreemap::insert` adds the value to those that the treemap holds,
/// and tells whether it was absent before.
pub assume_specification[ roaring::RoaringTreemap::insert ](
    map: &mut roaring::RoaringTreemap,
    value: u64,
) -> (added: bool)
    ensures
        treemap_members(*final(map)) == treemap_members(*old(map)).insert(value),
        added == !treemap_members(*old(map)).contains(value),
;

/// `RoaringTreemap::intersection_len` counts the values that both treemaps
/// hold. The count is a 64-bit sum, so the treemap must hold fewer values
/// than that type can count.
pub assume_specification[ roaring::RoaringTreemap::intersection_len ](
    map: &roaring::RoaringTreemap,
    other: &roaring::RoaringTreemap,
) -> (count: u64)
    requires
        treemap_members(*map).finite(),
        treemap_members(*map).len() <= u64::MAX,
    ensures
        count == treemap_members(*map).intersect(treemap_members(*other)).len(),
;

/// The ids of a list as the 64-bit values that a treemap holds.
spec fn id_set(ids: Seq<usize>) -> Set<u64> {
    ids.map_values(|id: usize| id as u64).to_set()
}

/// The number of ids that occur both among the first `k` of `truth` and among
/// the first `k` of `retrieved`.
pub open spec fn common_ids(truth: Seq<usize>, retrieved: Seq<usize>, k: int) -> nat {
    truth.take(k).to_set().intersect(retrieved.take(k).to_set()).len()
}

/// Two lists have as many ids in common as the treemaps of their ids have
/// values in common.
proof fn lemma_common_values(a: Seq<usize>, b: Seq<usize>)
    ensures
        a.to_set().intersect(b.to_set()).finite(),
        id_set(a).intersect(id_set(b)).len() == a.to_set().intersect(b.to_set()).len(),
{
    let f = |id: usize| id as u64;
    let common = a.to_set().intersect(b.to_set());
    let values = id_set(a).intersect(id_set(b));
    vstd::seq_lib::seq_to_set_is_finite(a);
    vstd::set_lib::lemma_len_intersect(a.to_set(), b.to_set());
    assert forall|v: u64| common.map(f).contains(v) == values.contains(v) by {
        if common.map(f).contains(v) {
            let x = choose|x: usize| common.contains(x) && v == f(x);
            let i = choose|i: int| 0 <= i < a.len() && a[i] == x;
            let j = choose|j: int| 0 <= j < b.len() && b[j] == x;
            assert(a.map_values(f)[i] == v);
            assert(b.map_values(f)[j] == v);
        }
        if values.contains(v) {
            let i = choose|i: int| 0 <= i < a.map_values(f).len() && a.map_values(f)[i] == v;
            let j = choose|j: int| 0 <= j < b.map_values(f).len() && b.map_values(f)[j] == v;
            assert(a[i] == b[j]);
            assert(a.contains(a[i]) && b.contains(a[i]));
            assert(common.contains(a[i]) && v == f(a[i]));
        }
    }
    assert(common.map(f) =~= values);
    assert(vstd::relations::injective_on(f, common));
    vstd::set_lib::lemma_map_size(common, values, f);
}

/// The depth to which a retrieved list is compared with a list of exact
/// neighbors: the length of the shorter of the two.
pub open spec fn depth_of(truth: Seq<usize>, retrieved: Seq<usize>) -> int {
    if retrieved.len() <= truth.len() {
        retrieved.len() as int
    } else {
        truth.len() as int
    }
}

/// The recall of one query: `hits` of the first `depth` exact neighbors were
/// among the first `depth` retrieved ids. Its value is `hits / depth`.
#[derive(PartialEq, Eq, Structural, Debug, Clone, Copy)]
pub struct Recall {
    pub hits: usize,
    pub depth: usize,
}

/// The treemap of the first `k` ids.
fn collect_ids(ids: &[usize], k: usize) -> (map: roaring::RoaringTreemap)
    requires
        k <= ids@.len(),
    ensures
        treemap_members(map) == id_set(ids@.take(k as int)),
        treemap_members(map).finite(),
        treemap_members(map).len() <= k,
{
    let mut map = roaring::RoaringTreemap::new();
    let mut j: usize = 0;
    while j < k
        invariant
            j <= k <= ids@.len(),
            treemap_members(map) == id_set(ids@.take(j as int)),
        decreases k - j,
    {
        let ghost before = ids@.take(j as int);
        map.insert(ids[j] as u64);
        proof {
            let f = |id: usize| id as u64;
            ids@.lemma_take_succ_push(j as int);
            before.lemma_push_map_commute(f, ids@[j as int]);
            before.map_values(f).lemma_push_to_set_commute(f(ids@[j as int]));
        }
        j += 1;
    }
    proof {
        let mapped = ids@.take(k as int).map_values(|id: usize| id as u64);
        vstd::seq_lib::seq_to_set_is_finite(mapped);
        mapped.lemma_cardinality_of_set();
    }
    map
}

impl Recall {
    /// Compares a retrieved list with a list of exact neighbors.
    ///
    /// Both lists are cut to the length of the shorter one; the ids that occur
    /// in both of what is left are counted.
    pub fn of(truth: &[usize], retrieved: &[usize]) -> (r: Recall)
        ensures
            r.depth == depth_of(truth@, retrieved@),
            r.hits == common_ids(truth@, retrieved@, depth_of(truth@, retrieved@)),
            r.hits <= r.depth,
    {
        let depth: usize = if retrieved.len() <= truth.len() {
            retrieved.len()
        } else {
            truth.len()
        };
        let truth_ids = collect_ids(truth, depth);
        let retrieved_ids = collect_ids(retrieved, depth);
        proof {
            vstd::set_lib::lemma_len_intersect(
                treemap_members(truth_ids),
                treemap_members(retrieved_ids),
            );
            lemma_common_values(truth@.take(depth as int), retrieved@.take(depth as int));
        }
        let count: u64 = truth_ids.intersection_len(&retrieved_ids);
        Recall { hits: count as usize, depth }
    }
}

/// Defines the exact nearest neighbors: row `i` lists the ids of the
/// neighbors of query `i`, nearest first.
#[derive(PartialEq, Eq, Debug)]
pub struct GroundTruth {
    neighbors: DenseMatrix<usize>,
}

/// The recall that each retrieved list has against the row of exact
/// neighbors of its query.
pub open spec fn is_recall_of(
    recall: Seq<Recall>,
    neighbors: Seq<Seq<usize>>,
    retrieved_set: Seq<Vec<usize>>,
) -> bool {
    &&& recall.len() == retrieved_set.len()
    &&& forall|i: int|
        0 <= i < recall.len() ==> {
            &&& (#[trigger] recall[i]).depth == depth_of(neighbors[i], retrieved_set[i]@)
            &&& recall[i].hits == common_ids(
                neighbors[i],
                retrieved_set[i]@,
                depth_of(neighbors[i], retrieved_set[i]@),
            )
        }
}

impl GroundTruth {
    /// The matrix of neighbors.
    pub closed spec fn spec_neighbors(&self) -> DenseMatrix<usize> {
        self.neighbors
    }

    /// The matrix of neighbors is well formed.
    #[verifier::type_invariant]
    pub open spec fn well_formed(&self) -> bool {
        self.spec_neighbors().well_formed()
    }

    /// Wraps a matrix that lists the neighbors of query `i` in row `i`.
    pub fn new(neighbors: DenseMatrix<usize>) -> (r: GroundTruth)
        ensures
            r.well_formed(),
            r.spec_neighbors() == neighbors,
    {
        proof {
            use_type_invariant(&neighbors);
        }
        GroundTruth { neighbors }
    }

    /// Returns the set of neighbors.
    pub fn get_neighbors(&self) -> (r: &DenseMatrix<usize>)
        ensures
            *r == self.spec_neighbors(),
            r.well_formed(),
    {
        proof {
            use_type_invariant(self);
        }
        &self.neighbors
    }

    /// Computes recall given a retrieved set.
    ///
    /// Entry `i` of `retrieved_set` lists the ids retrieved for query `i`. It
    /// is compared with row `i` of the exact neighbors, both cut to the length
    /// of the shorter. An empty retrieved set for a ground truth without
    /// queries gives an empty result.
    ///
    /// Returns an error if the number of queries does not match between
    /// `retrieved_set` and the exact neighbor set stored in this object.
    pub fn recall(&self, retrieved_set: &[Vec<usize>]) -> (r: Result<Vec<Recall>, DatasetError>)
        ensures
            match r {
                Ok(recall) => {
                    &&& retrieved_set@.len() == self.spec_neighbors().spec_nrows()
                    &&& is_recall_of(recall@, self.spec_neighbors()@, retrieved_set@)
                },
                Err(e) => {
                    &&& retrieved_set@.len() != self.spec_neighbors().spec_nrows()
                    &&& e == (DatasetError::RecallShapeMismatch {
                        retrieved: retrieved_set@.len() as usize,
                        expected: self.spec_neighbors().spec_nrows() as usize,
                    })
                },
            },
    {
        let rows: usize = self.neighbors.nrows();
        if retrieved_set.len() != rows {
            return Err(
                DatasetError::RecallShapeMismatch { retrieved: retrieved_set.len(), expected: rows },
            );
        }
        let mut recall: Vec<Recall> = Vec::new();
        let mut i: usize = 0;
        while i < rows
            invariant
                i <= rows,
                rows == self.neighbors.spec_nrows(),
                retrieved_set@.len() == rows,
                is_recall_of(recall@, self.neighbors@, retrieved_set@.take(i as int)),
            decreases rows - i,
        {
            recall.push(Recall::of(self.neighbors.row_at(i), retrieved_set[i].as_slice()));
            i += 1;
        }
        assert(retrieved_set@.take(i as int) =~= retrieved_set@);
        Ok(recall)
    }
}

impl Clone for GroundTruth {
    /// A ground truth with the same neighbors.
    fn clone(&self) -> (r: Self)
        ensures
            r.well_formed(),
            r.spec_neighbors().spec_nrows() == self.spec_neighbors().spec_nrows(),
            r.spec_neighbors().spec_ncols() == self.spec_neighbors().spec_ncols(),
            r.spec_neighbors().flat() == self.spec_neighbors().flat(),
    {
        GroundTruth { neighbors: self.neighbors.clone() }
    }
}

impl Default for GroundTruth {
    /// A ground truth without queries.
    fn default() -> (r: GroundTruth)
        ensures
            r.well_formed(),
            r.spec_neighbors().spec_nrows() == 0,
            r.spec_neighbors().spec_ncols() == 0,
    {
        GroundTruth { neighbors: DenseMatrix::default() }
    }
}

/// A query has at most as many hits as its depth, so that its recall lies
/// between zero and one.
pub proof fn lemma_hits_within_depth(truth: Seq<usize>, retrieved: Seq<usize>)
    ensures
        common_ids(truth, retrieved, depth_of(truth, retrieved)) <= depth_of(truth, retrieved),
{
    let k = depth_of(truth, retrieved);
    vstd::seq_lib::seq_to_set_is_finite(truth.take(k));
    truth.take(k).lemma_cardinality_of_set();
    vstd::set_lib::lemma_len_intersect(truth.take(k).to_set(), retrieved.take(k).to_set());
}

/// Exact neighbors that are retrieved as they stand are all found: where the
/// ids of a query are distinct, its hits equal its depth, the number of ids.
pub proof fn lemma_recall_of_itself(truth: Seq<usize>)
    requires
        truth.no_duplicates(),
    ensures
        depth_of(truth, truth) == truth.len(),
        common_ids(truth, truth, depth_of(truth, truth)) == truth.len(),
{
    assert(truth.take(truth.len() as int) =~= truth);
    truth.unique_seq_to_set();
    assert(truth.to_set().intersect(truth.to_set()) =~= truth.to_set());
}

/// The recall of a ground truth against itself is perfect: where each query
/// is answered by its own row of exact neighbors, and the ids of a row are
/// distinct, every query has as many hits as its depth, the number of columns.
pub proof fn lemma_recall_against_itself(
    recall: Seq<Recall>,
    neighbors: Seq<Seq<usize>>,
    retrieved_set: Seq<Vec<usize>>,
)
    requires
        is_recall_of(recall, neighbors, retrieved_set),
        neighbors.len() == retrieved_set.len(),
        forall|i: int|
            0 <= i < neighbors.len() ==> (#[trigger] retrieved_set[i])@ == neighbors[i]
                && neighbors[i].no_duplicates(),
    ensures
        forall|i: int|
            0 <= i < recall.len() ==> (#[trigger] recall[i]).hits == recall[i].depth
                && recall[i].depth == neighbors[i].len(),
{
    assert forall|i: int| 0 <= i < recall.len() implies (#[trigger] recall[i]).hits
        == recall[i].depth && recall[i].depth == neighbors[i].len() by {
        assert(retrieved_set[i]@ == neighbors[i]);
        lemma_recall_of_itself(neighbors[i]);
    }
}

} // verus!
