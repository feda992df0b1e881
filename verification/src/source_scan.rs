//! Per-file decisions of the source scan. For one source file, every catalog
//! entry sharing its digest is considered in bucket order: a size mismatch or
//! an entry already confirmed is reported and skipped, and every remaining
//! entry is newly satisfied — its game folder is created unless one is known
//! already, and the file is copied into it under the entry's file name.

use vstd::prelude::*;

use crate::catalog::CatalogIndex;
use crate::rom::{rom_eq, roms_view, Rom, RomSpec};
use crate::state::ScanState;

verus! {

/// A remote operation the caller must perform, in order. A folder id handed
/// back for a created folder is recorded with `ScanState::record_folder`
/// before the next source file is planned.
#[derive(Debug, PartialEq, Eq)]
pub enum Action {
    /// Create a folder of this name under the destination root.
    CreateFolder { game_name: String },
    /// Copy the source file into the game's folder under this file name.
    CopyInto { game_name: String, file_name: String },
}

/// The mathematical value of an `Action`.
pub enum ActionSpec {
    CreateFolder(Seq<char>),
    CopyInto(Seq<char>, Seq<char>),
}

impl View for Action {
    type V = ActionSpec;

    open spec fn view(&self) -> ActionSpec {
        match self {
            Action::CreateFolder { game_name } => ActionSpec::CreateFolder(game_name@),
            Action::CopyInto { game_name, file_name } => ActionSpec::CopyInto(
                game_name@,
                file_name@,
            ),
        }
    }
}

/// A diagnostic of the source scan; the run continues.
#[derive(Debug, PartialEq, Eq)]
pub enum SourceDiag {
    /// The source file's digest is absent from the catalog.
    NotInCatalog { md5: u128 },
    /// A candidate entry shares the digest but not the size.
    SizeMismatch { expected: u64, actual: u64 },
    /// The candidate entry was already confirmed: a duplicate source file.
    AlreadyProcessed { file_name: String },
}

/// The mathematical value of a `SourceDiag`.
pub enum DiagSpec {
    NotInCatalog(u128),
    SizeMismatch(u64, u64),
    AlreadyProcessed(Seq<char>),
}

impl View for SourceDiag {
    type V = DiagSpec;

    open spec fn view(&self) -> DiagSpec {
        match self {
            SourceDiag::NotInCatalog { md5 } => DiagSpec::NotInCatalog(*md5),
            SourceDiag::SizeMismatch { expected, actual } => DiagSpec::SizeMismatch(
                *expected,
                *actual,
            ),
            SourceDiag::AlreadyProcessed { file_name } => DiagSpec::AlreadyProcessed(file_name@),
        }
    }
}

pub open spec fn acts_view(s: Seq<Action>) -> Seq<ActionSpec> {
    s.map_values(|a: Action| a@)
}

pub open spec fn diags_view(s: Seq<SourceDiag>) -> Seq<DiagSpec> {
    s.map_values(|d: SourceDiag| d@)
}

pub open spec fn names_of(s: Seq<String>) -> Set<Seq<char>> {
    s.map_values(|x: String| x@).to_set()
}

/// The found-set after one source file of byte size `size` is reconciled
/// against the bucket: each candidate of the right size not confirmed yet is
/// confirmed, in bucket order.
pub open spec fn plan_found(found: Set<RomSpec>, bucket: Seq<RomSpec>, size: u64) -> Set<RomSpec>
    decreases bucket.len(),
{
    if bucket.len() == 0 {
        found
    } else {
        let c = bucket[0];
        let f = if c.size == size && !found.contains(c) {
            found.insert(c)
        } else {
            found
        };
        plan_found(f, bucket.drop_first(), size)
    }
}

/// The candidates the file is copied for, in bucket order: those of the right
/// size not confirmed before their own turn.
pub open spec fn plan_copies(found: Set<RomSpec>, bucket: Seq<RomSpec>, size: u64) -> Seq<RomSpec>
    decreases bucket.len(),
{
    if bucket.len() == 0 {
        Seq::empty()
    } else {
        let c = bucket[0];
        if c.size == size && !found.contains(c) {
            seq![c] + plan_copies(found.insert(c), bucket.drop_first(), size)
        } else {
            plan_copies(found, bucket.drop_first(), size)
        }
    }
}

/// The remote operations for one source file, in order: for each copied
/// candidate, a folder creation first unless a folder of that game name is
/// already had, then the copy into that game's folder.
pub open spec fn plan_actions(
    found: Set<RomSpec>,
    have: Set<Seq<char>>,
    bucket: Seq<RomSpec>,
    size: u64,
) -> Seq<ActionSpec>
    decreases bucket.len(),
{
    if bucket.len() == 0 {
        Seq::empty()
    } else {
        let c = bucket[0];
        if c.size == size && !found.contains(c) {
            let mk: Seq<ActionSpec> = if have.contains(c.game_name) {
                Seq::empty()
            } else {
                seq![ActionSpec::CreateFolder(c.game_name)]
            };
            mk + seq![ActionSpec::CopyInto(c.game_name, c.file_name)] + plan_actions(
                found.insert(c),
                have.insert(c.game_name),
                bucket.drop_first(),
                size,
            )
        } else {
            plan_actions(found, have, bucket.drop_first(), size)
        }
    }
}

/// The diagnostics for one source file, in bucket order.
pub open spec fn plan_diags(found: Set<RomSpec>, bucket: Seq<RomSpec>, size: u64) -> Seq<DiagSpec>
    decreases bucket.len(),
{
    if bucket.len() == 0 {
        Seq::empty()
    } else {
        let c = bucket[0];
        if c.size != size {
            seq![DiagSpec::SizeMismatch(c.size, size)] + plan_diags(
                found,
                bucket.drop_first(),
                size,
            )
        } else if found.contains(c) {
            seq![DiagSpec::AlreadyProcessed(c.file_name)] + plan_diags(
                found,
                bucket.drop_first(),
                size,
            )
        } else {
            plan_diags(found.insert(c), bucket.drop_first(), size)
        }
    }
}

proof fn lemma_acts_push(s: Seq<Action>, x: Action)
    ensures
        acts_view(s.push(x)) =~= acts_view(s).push(x@),
{
}

proof fn lemma_diags_push(s: Seq<SourceDiag>, x: SourceDiag)
    ensures
        diags_view(s.push(x)) =~= diags_view(s).push(x@),
{
}

proof fn lemma_names_push(s: Seq<String>, x: String)
    ensures
        names_of(s.push(x)) =~= names_of(s).insert(x@),
{
    let m = s.map_values(|y: String| y@);
    let m2 = s.push(x).map_values(|y: String| y@);
    assert(m2 =~= m.push(x@));
    assert forall|k: Seq<char>| m2.to_set().contains(k) implies m.to_set().insert(x@).contains(
        k,
    ) by {
        let j = choose|j: int| 0 <= j < m2.len() && m2[j] == k;
        if j < m.len() {
            assert(m[j] == k);
        }
    }
    assert forall|k: Seq<char>| m.to_set().insert(x@).contains(k) implies m2.to_set().contains(
        k,
    ) by {
        if m.to_set().contains(k) {
            let j = choose|j: int| 0 <= j < m.len() && m[j] == k;
            assert(m2[j] == k);
        } else {
            assert(m2[m.len() as int] == k);
        }
    }
}

proof fn lemma_skip_step(b: Seq<RomSpec>, i: int)
    requires
        0 <= i < b.len(),
    ensures
        b.skip(i).len() == b.len() - i,
        b.skip(i)[0] == b[i],
        b.skip(i).drop_first() =~= b.skip(i + 1),
{
}

fn vec_has_name(v: &Vec<String>, name: &String) -> (r: bool)
    ensures
        r == names_of(v@).contains(name@),
{
    let mut i: usize = 0;
    let mut found = false;
    while i < v.len()
        invariant
            0 <= i <= v@.len(),
            found == exists|j: int| 0 <= j < i && v@[j]@ == name@,
        decreases v@.len() - i,
    {
        if v[i] == *name {
            found = true;
            proof {
                assert(exists|j: int| 0 <= j < i + 1 && v@[j]@ == name@) by {
                    assert(v@[i as int]@ == name@);
                }
            }
        }
        i = i + 1;
    }
    proof {
        let m = v@.map_values(|y: String| y@);
        if found {
            let j = choose|j: int| 0 <= j < v@.len() && v@[j]@ == name@;
            assert(m[j] == name@);
        }
        if m.to_set().contains(name@) {
            let j = choose|j: int| 0 <= j < m.len() && m[j] == name@;
            assert(v@[j]@ == name@);
        }
    }
    found
}

/// Reconciles one source file, whose size and digest have been fetched,
/// against the catalog and the state. Returns the remote operations to
/// perform, in order, and the diagnostics to report. The folder index itself
/// is only read: the caller records each created folder's id.
pub fn plan_source_file(state: &mut ScanState, catalog: &CatalogIndex, size: u64, md5: u128) -> (r:
    (Vec<Action>, Vec<SourceDiag>))
    requires
        old(state).wf(),
    ensures
        final (state).wf(),
        final (state).folders.to_map() == old(state).folders.to_map(),
        catalog.bucket_of(md5).len() == 0 ==> {
            &&& final (state).found.to_set() == old(state).found.to_set()
            &&& acts_view(r.0@) == Seq::<ActionSpec>::empty()
            &&& diags_view(r.1@) == seq![DiagSpec::NotInCatalog(md5)]
        },
        catalog.bucket_of(md5).len() > 0 ==> {
            &&& final (state).found.to_set() == plan_found(
                old(state).found.to_set(),
                catalog.bucket_of(md5),
                size,
            )
            &&& acts_view(r.0@) == plan_actions(
                old(state).found.to_set(),
                old(state).folders.to_map().dom(),
                catalog.bucket_of(md5),
                size,
            )
            &&& diags_view(r.1@) == plan_diags(
                old(state).found.to_set(),
                catalog.bucket_of(md5),
                size,
            )
        },
{
    let mut acts: Vec<Action> = Vec::new();
    let mut diags: Vec<SourceDiag> = Vec::new();
    let bucket = match catalog.lookup(md5) {
        Some(v) => v,
        None => {
            diags.push(SourceDiag::NotInCatalog { md5 });
            proof {
                assert(acts_view(acts@) =~= Seq::<ActionSpec>::empty());
                assert(diags_view(diags@) =~= seq![DiagSpec::NotInCatalog(md5)]);
            }
            return (acts, diags);
        },
    };
    let ghost bkt = catalog.bucket_of(md5);
    let ghost f0 = state.found.to_set();
    let ghost m0 = state.folders.to_map();
    let mut pending: Vec<String> = Vec::new();
    proof {
        assert(bkt.skip(0) =~= bkt);
        assert(names_of(pending@) =~= Set::<Seq<char>>::empty());
        assert(m0.dom().union(names_of(pending@)) =~= m0.dom());
        assert(acts_view(acts@) + plan_actions(f0, m0.dom(), bkt, size) =~= plan_actions(
            f0,
            m0.dom(),
            bkt,
            size,
        ));
        assert(diags_view(diags@) + plan_diags(f0, bkt, size) =~= plan_diags(f0, bkt, size));
    }
    let mut i: usize = 0;
    while i < bucket.len()
        invariant
            state.wf(),
            state.folders.to_map() == m0,
            roms_view(bucket@) == bkt,
            0 <= i <= bucket@.len(),
            plan_found(f0, bkt, size) == plan_found(state.found.to_set(), bkt.skip(i as int), size),
            plan_actions(f0, m0.dom(), bkt, size) == acts_view(acts@) + plan_actions(
                state.found.to_set(),
                m0.dom().union(names_of(pending@)),
                bkt.skip(i as int),
                size,
            ),
            plan_diags(f0, bkt, size) == diags_view(diags@) + plan_diags(
                state.found.to_set(),
                bkt.skip(i as int),
                size,
            ),
        decreases bucket@.len() - i,
    {
        let ghost fi = state.found.to_set();
        let ghost hi = m0.dom().union(names_of(pending@));
        let ghost cs = bkt[i as int];
        proof {
            assert(roms_view(bucket@)[i as int] == bucket@[i as int]@);
            lemma_skip_step(bkt, i as int);
        }
        let c = &bucket[i];
        if c.size != size {
            let ghost pre_diags = diags@;
            diags.push(SourceDiag::SizeMismatch { expected: c.size, actual: size });
            proof {
                lemma_diags_push(pre_diags, SourceDiag::SizeMismatch { expected: cs.size, actual: size });
                assert(plan_diags(fi, bkt.skip(i as int), size) == seq![
                    DiagSpec::SizeMismatch(cs.size, size),
                ] + plan_diags(fi, bkt.skip(i + 1), size));
                assert(diags_view(pre_diags) + plan_diags(fi, bkt.skip(i as int), size)
                    =~= diags_view(diags@) + plan_diags(fi, bkt.skip(i + 1), size));
                assert(plan_found(fi, bkt.skip(i as int), size) == plan_found(
                    fi,
                    bkt.skip(i + 1),
                    size,
                ));
                assert(plan_actions(fi, hi, bkt.skip(i as int), size) == plan_actions(
                    fi,
                    hi,
                    bkt.skip(i + 1),
                    size,
                ));
            }
        } else {
            let dup = state.found.contains(c);
            if dup {
                let ghost pre_diags = diags@;
                diags.push(SourceDiag::AlreadyProcessed { file_name: c.file_name.clone() });
                proof {
                    lemma_diags_push(
                        pre_diags,
                        SourceDiag::AlreadyProcessed { file_name: bucket@[i as int].file_name },
                    );
                    assert(plan_diags(fi, bkt.skip(i as int), size) == seq![
                        DiagSpec::AlreadyProcessed(cs.file_name),
                    ] + plan_diags(fi, bkt.skip(i + 1), size));
                    assert(diags_view(pre_diags) + plan_diags(fi, bkt.skip(i as int), size)
                        =~= diags_view(diags@) + plan_diags(fi, bkt.skip(i + 1), size));
                    assert(plan_found(fi, bkt.skip(i as int), size) == plan_found(
                        fi,
                        bkt.skip(i + 1),
                        size,
                    ));
                    assert(plan_actions(fi, hi, bkt.skip(i as int), size) == plan_actions(
                        fi,
                        hi,
                        bkt.skip(i + 1),
                        size,
                    ));
                }
            } else {
                let in_index = state.folders.contains_name(&c.game_name);
                let in_pending = vec_has_name(&pending, &c.game_name);
                let ghost pre_acts = acts@;
                let ghost pre_pending = pending@;
                if !in_index && !in_pending {
                    acts.push(Action::CreateFolder { game_name: c.game_name.clone() });
                    pending.push(c.game_name.clone());
                }
                let ghost mid_acts = acts@;
                acts.push(
                    Action::CopyInto {
                        game_name: c.game_name.clone(),
                        file_name: c.file_name.clone(),
                    },
                );
                state.found.insert(c.clone());
                proof {
                    let g = cs.game_name;
                    let mk: Seq<ActionSpec> = if hi.contains(g) {
                        Seq::empty()
                    } else {
                        seq![ActionSpec::CreateFolder(g)]
                    };
                    // the folder decision matches the plan
                    if !in_index && !in_pending {
                        lemma_names_push(pre_pending, bucket@[i as int].game_name);
                        assert(!hi.contains(g));
                        assert(acts_view(mid_acts) =~= acts_view(pre_acts).push(
                            ActionSpec::CreateFolder(g),
                        ));
                        assert(m0.dom().union(names_of(pending@)) =~= hi.insert(g));
                    } else {
                        assert(hi.contains(g));
                        assert(m0.dom().union(names_of(pending@)) =~= hi.insert(g));
                    }
                    assert(acts_view(acts@) =~= acts_view(mid_acts).push(
                        ActionSpec::CopyInto(g, cs.file_name),
                    ));
                    assert(acts_view(acts@) =~= acts_view(pre_acts) + mk + seq![
                        ActionSpec::CopyInto(g, cs.file_name),
                    ]);
                    assert(plan_actions(fi, hi, bkt.skip(i as int), size) == mk + seq![
                        ActionSpec::CopyInto(g, cs.file_name),
                    ] + plan_actions(fi.insert(cs), hi.insert(g), bkt.skip(i + 1), size));
                    assert(acts_view(pre_acts) + plan_actions(fi, hi, bkt.skip(i as int), size)
                        =~= acts_view(acts@) + plan_actions(
                        fi.insert(cs),
                        hi.insert(g),
                        bkt.skip(i + 1),
                        size,
                    ));
                    // the found-set and the diagnostics match the plan
                    assert(state.found.to_set() == fi.insert(cs));
                    assert(plan_found(fi, bkt.skip(i as int), size) == plan_found(
                        fi.insert(cs),
                        bkt.skip(i + 1),
                        size,
                    ));
                    assert(plan_diags(fi, bkt.skip(i as int), size) == plan_diags(
                        fi.insert(cs),
                        bkt.skip(i + 1),
                        size,
                    ));
                }
            }
        }
        i = i + 1;
    }
    proof {
        assert(bkt.skip(bucket@.len() as int) =~= Seq::<RomSpec>::empty());
        assert(plan_found(state.found.to_set(), bkt.skip(bucket@.len() as int), size)
            == state.found.to_set());
        assert(acts_view(acts@) + plan_actions(
            state.found.to_set(),
            m0.dom().union(names_of(pending@)),
            bkt.skip(bucket@.len() as int),
            size,
        ) =~= acts_view(acts@));
        assert(diags_view(diags@) + plan_diags(
            state.found.to_set(),
            bkt.skip(bucket@.len() as int),
            size,
        ) =~= diags_view(diags@));
    }
    (acts, diags)
}

} // verus!
