//! Counting the recorded frames, all of them or those of one PGN.

use vstd::prelude::*;
use crate::store::Store;

verus! {

/// The number of frames in the journal, or with a filter the number of
/// frames in that PGN's index: 0 for a PGN that was never recorded. Counting
/// by PGN opens the index, and changes nothing that the store holds.
pub fn count(store: &mut Store, pgn: Option<u32>) -> (n: usize)
    requires
        old(store).wf(),
    ensures
        pgn is None ==> n == old(store).journal().len() && *final(store) == *old(store),
        pgn is Some ==> n == old(store).index(pgn->Some_0).len(),
        pgn is Some && !old(store).knows(pgn->Some_0) ==> n == 0,
        final(store).wf(),
        final(store).journal() == old(store).journal(),
        forall|q: u32| #[trigger] final(store).index(q) == old(store).index(q),
        old(store).mirrored() ==> final(store).mirrored(),
{
    match pgn {
        Some(id) => store.count_pgn(id),
        None => store.count(),
    }
}

} // verus!
