//! Requests for rows by their ids.
use vstd::prelude::*;

use crate::error::DatasetError;

verus! {

/// Every requested id names one of the `rows` rows.
pub open spec fn ids_in_bounds(ids: Seq<usize>, rows: nat) -> bool {
    forall|j: int| 0 <= j < ids.len() ==> ids[j] < rows
}

/// `id` is the first of the requested ids that names none of the `rows` rows.
pub open spec fn is_first_out_of_bounds(ids: Seq<usize>, rows: nat, id: usize) -> bool {
    exists|j: int|
        0 <= j < ids.len() && #[trigger] ids[j] == id && id >= rows && forall|l: int|
            0 <= l < j ==> ids[l] < rows
}

/// The request that asks for each of `n` rows once, in their order.
pub open spec fn identity_ids(n: nat) -> Seq<usize> {
    Seq::new(n, |j: int| j as usize)
}

/// Accepts the ids if each of them names one of the `rows` rows, and
/// otherwise reports the first that does not.
pub fn check_ids(ids: &[usize], rows: usize) -> (r: Result<(), DatasetError>)
    ensures
        match r {
            Ok(_) => ids_in_bounds(ids@, rows as nat),
            Err(e) => e matches DatasetError::IndexOutOfBounds { id, rows: of }
                && of == rows && is_first_out_of_bounds(ids@, rows as nat, id),
        },
{
    let mut j: usize = 0;
    while j < ids.len()
        invariant
            j <= ids@.len(),
            forall|l: int| 0 <= l < j ==> ids@[l] < rows,
        decreases ids@.len() - j,
    {
        let id: usize = ids[j];
        if id >= rows {
            assert(ids@[j as int] == id);
            assert(is_first_out_of_bounds(ids@, rows as nat, id));
            return Err(DatasetError::IndexOutOfBounds { id, rows });
        }
        j += 1;
    }
    Ok(())
}

} // verus!
