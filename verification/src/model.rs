//! Mathematical views shared by the contracts of the crate.
use vstd::prelude::*;

verus! {

/// The sequences that a sequence of vectors holds.
pub open spec fn contents<T>(rows: Seq<Vec<T>>) -> Seq<Seq<T>> {
    Seq::new(rows.len(), |i: int| rows[i]@)
}

/// The contents are the vectors' own, each at its place.
pub proof fn law_contents<T>(rows: Seq<Vec<T>>)
    ensures
        contents(rows).len() == rows.len(),
        forall|i: int| 0 <= i < rows.len() ==> #[trigger] contents(rows)[i] == rows[i]@,
{
}

} // verus!
