//! Indexing of diffraction peaks.
//!
//! The peaks of a Penrose diffraction pattern are sampled in shells of ten;
//! peak `i` is labelled by its shell `i / 10` and its place `i % 10` in it.
use vstd::prelude::*;

verus! {

/// The labels `(i / 10, i % 10)` of the first `peak_count` peaks.
pub fn golden_indexing(peak_count: usize) -> (r: Vec<(i64, i64)>)
    ensures
        r@.len() == peak_count,
        forall|i: int|
            0 <= i < peak_count ==> #[trigger] r@[i] == ((i / 10) as i64, (i % 10) as i64),
{
    let mut r: Vec<(i64, i64)> = Vec::new();
    let mut i: usize = 0;
    while i < peak_count
        invariant
            i <= peak_count,
            r@.len() == i,
            forall|k: int| 0 <= k < i ==> #[trigger] r@[k] == ((k / 10) as i64, (k % 10) as i64),
        decreases peak_count - i,
    {
        let shell = (i / 10) as i64;
        let n = (i % 10) as i64;
        r.push((shell, n));
        i = i + 1;
    }
    r
}

} // verus!
