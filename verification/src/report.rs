//! The terminal summary of a run: every catalog entry never confirmed
//! anywhere, in catalog order.

use vstd::prelude::*;

use crate::catalog::CatalogIndex;
use crate::rom::{roms_view, Rom, RomSpec};
use crate::seqtools::lemma_filter_push;
use crate::state::FoundSet;

verus! {

/// Picks out the entries absent from the found-set.
pub open spec fn missing_pred(found: Set<RomSpec>) -> spec_fn(RomSpec) -> bool {
    |e: RomSpec| !found.contains(e)
}

/// Every catalog entry that was confirmed nowhere — neither pre-existing in
/// the destination nor newly copied — in catalog order. Reads only.
pub fn missing_entries(catalog: &CatalogIndex, found: &FoundSet) -> (r: Vec<Rom>)
    ensures
        roms_view(r@) == catalog.entries_view().filter(missing_pred(found.to_set())),
{
    let mut out: Vec<Rom> = Vec::new();
    let n = catalog.len();
    let mut i: usize = 0;
    while i < n
        invariant
            n == catalog.entries_view().len(),
            0 <= i <= n,
            roms_view(out@) =~= catalog.entries_view().subrange(0, i as int).filter(
                missing_pred(found.to_set()),
            ),
        decreases n - i,
    {
        proof {
            lemma_filter_push(
                catalog.entries_view().subrange(0, i as int),
                missing_pred(found.to_set()),
                catalog.entries_view()[i as int],
            );
            assert(catalog.entries_view().subrange(0, i as int).push(
                catalog.entries_view()[i as int],
            ) =~= catalog.entries_view().subrange(0, i + 1));
        }
        let e = catalog.entry_at(i);
        if !found.contains(e) {
            out.push(e.clone());
        }
        i = i + 1;
    }
    proof {
        assert(catalog.entries_view().subrange(0, n as int) =~= catalog.entries_view());
    }
    out
}

} // verus!
