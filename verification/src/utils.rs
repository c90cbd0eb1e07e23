//! Conversions between wire-format object ids and store object ids.

use vstd::prelude::*;

use crate::plasma;
use crate::plasma::ids_view;
use crate::request::raw_ids_view;
use crate::ObjectId;

verus! {

/// Converts a list of 20-byte arrays into store object IDs.
pub fn map_object_ids(object_ids: &[ObjectId]) -> (r: Vec<plasma::ObjectId>)
    ensures
        ids_view(r@) == raw_ids_view(object_ids@),
{
    let n = object_ids.len();
    let mut result: Vec<plasma::ObjectId> = Vec::new();
    let mut i: usize = 0;
    while i < n
        invariant
            n == object_ids@.len(),
            i <= n,
            result@.len() == i,
            forall|j: int| 0 <= j < i ==> (#[trigger] result@[j])@ == object_ids@[j]@,
        decreases n - i,
    {
        result.push(plasma::ObjectId::new(object_ids[i]));
        i += 1;
    }
    proof {
        assert(ids_view(result@) =~= raw_ids_view(object_ids@));
    }
    result
}

} // verus!
