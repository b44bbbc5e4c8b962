//! Integer bookkeeping of growth laws.
use vstd::prelude::*;

verus! {

/// One step of the Penrose-inflation growth law on its integer state: the
/// step counter goes up by one and a known tile count triples (each
/// inflation is counted as roughly tripling the tiles).
pub fn penrose_inflation_step(step: usize, tile_count: Option<usize>) -> (r: (usize, Option<usize>))
    requires
        step < usize::MAX,
        tile_count matches Some(c) ==> 3 * c <= usize::MAX,
    ensures
        r.0 == step + 1,
        r.1 == match tile_count {
            Some(c) => Some((3 * c) as usize),
            None => None::<usize>,
        },
{
    let next = match tile_count {
        Some(c) => Some(c * 3),
        None => None,
    };
    (step + 1, next)
}

} // verus!
