//! Per-node decisions of the destination scan: what already exists under the
//! destination root seeds the found-set and the folder index, and anomalies
//! are reported.

use vstd::prelude::*;

use crate::catalog::CatalogIndex;
use crate::rom::{Rom, RomSpec};
use crate::state::ScanState;

verus! {

/// What the destination scan concluded of one file it met.
#[derive(Debug, PartialEq, Eq, Structural, Clone, Copy)]
pub enum DestFileOutcome {
    /// The exact entry was already confirmed: a duplicate, not re-inserted.
    DuplicateRom,
    /// No catalog entry matches this file exactly; it is still confirmed, so
    /// that it is not copied over later.
    UnknownFile,
    /// The file matches a catalog entry exactly and is newly confirmed.
    Matched,
}

/// One folder met under the destination root. A folder whose name is new is
/// recorded with its id; a second folder of the same name is a duplicate and
/// the recorded id is kept, first writer wins. The caller scans the folder's
/// contents either way, under the folder's own id.
pub fn scan_dest_folder(state: &mut ScanState, name: &String, id: &String) -> (dup: bool)
    requires
        old(state).wf(),
    ensures
        final (state).wf(),
        dup == old(state).folders.to_map().dom().contains(name@),
        final (state).found.to_set() == old(state).found.to_set(),
        dup ==> final (state).folders.to_map() == old(state).folders.to_map(),
        !dup ==> final (state).folders.to_map() == old(state).folders.to_map().insert(
            name@,
            id@,
        ),
{
    if state.folders.contains_name(name) {
        true
    } else {
        state.folders.insert(name.clone(), id.clone());
        false
    }
}

/// One file met inside a game folder of the destination. The file's size and
/// digest have already been fetched; `game_name` is the enclosing folder's
/// name. A file sitting directly under the destination root has no game name
/// and is a structural violation the caller must refuse before calling.
pub fn scan_dest_file(
    state: &mut ScanState,
    catalog: &CatalogIndex,
    game_name: &String,
    file_name: String,
    size: u64,
    md5: u128,
) -> (r: DestFileOutcome)
    requires
        old(state).wf(),
    ensures
        final (state).wf(),
        final (state).folders.to_map() == old(state).folders.to_map(),
        ({
            let rs = RomSpec { game_name: game_name@, file_name: file_name@, size, md5 };
            &&& (r == DestFileOutcome::DuplicateRom <==> old(state).found.to_set().contains(rs))
            &&& (old(state).found.to_set().contains(rs) ==> final (state).found.to_set() == old(
                state,
            ).found.to_set())
            &&& (!old(state).found.to_set().contains(rs) ==> {
                &&& final (state).found.to_set() == old(state).found.to_set().insert(rs)
                &&& (r == DestFileOutcome::Matched <==> catalog.bucket_of(md5).contains(rs))
                &&& (r == DestFileOutcome::UnknownFile <==> !catalog.bucket_of(md5).contains(
                    rs,
                ))
            })
        }),
{
    let rom = Rom { game_name: game_name.clone(), file_name, size, md5 };
    if state.found.contains(&rom) {
        return DestFileOutcome::DuplicateRom;
    }
    let matched = catalog.contains_entry(&rom);
    state.found.insert(rom);
    if matched {
        DestFileOutcome::Matched
    } else {
        DestFileOutcome::UnknownFile
    }
}

} // verus!
