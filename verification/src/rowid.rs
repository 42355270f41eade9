use vstd::prelude::*;

verus! {

/// The row id reported for a file path: the id of the matching row, or 0
/// when no row matched or the lookup failed.
pub fn rowid_or_zero(found: Option<u64>) -> (id: u64)
    ensures
        id == match found {
            Some(v) => v,
            None => 0,
        },
{
    match found {
        Some(v) => v,
        None => 0,
    }
}

} // verus!
