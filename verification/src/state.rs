//! The mutable state of one reconciliation run: the found-set of entries
//! confirmed present in the destination, and the folder index from game name
//! to destination folder id. Both are seeded by the destination scan and
//! then mutated by the source scan.

use vstd::prelude::*;

use crate::rom::{rom_eq, roms_view, Rom, RomSpec};

verus! {

/// The set of catalog entries confirmed present in the destination, either
/// pre-existing or newly copied. An entry enters the set at most once.
pub struct FoundSet {
    roms: Vec<Rom>,
}

impl FoundSet {
    pub closed spec fn roms_seq(self) -> Seq<RomSpec> {
        roms_view(self.roms@)
    }

    /// The entries confirmed so far, as a set.
    pub open spec fn to_set(self) -> Set<RomSpec> {
        self.roms_seq().to_set()
    }

    /// No entry is held twice.
    pub open spec fn wf(self) -> bool {
        forall|i: int, j: int|
            0 <= i < j < self.roms_seq().len() ==> self.roms_seq()[i] != self.roms_seq()[j]
    }

    pub fn new() -> (r: FoundSet)
        ensures
            r.wf(),
            r.to_set() == Set::<RomSpec>::empty(),
    {
        let r = FoundSet { roms: Vec::new() };
        proof {
            assert(r.to_set() =~= Set::<RomSpec>::empty());
        }
        r
    }

    pub fn contains(&self, rom: &Rom) -> (r: bool)
        ensures
            r == self.to_set().contains(rom@),
    {
        let mut i: usize = 0;
        let mut found = false;
        while i < self.roms.len()
            invariant
                0 <= i <= self.roms@.len(),
                found == exists|j: int| 0 <= j < i && self.roms_seq()[j] == rom@,
            decreases self.roms@.len() - i,
        {
            let e = rom_eq(&self.roms[i], rom);
            proof {
                assert(self.roms_seq()[i as int] == self.roms@[i as int]@);
            }
            if e {
                found = true;
                proof {
                    assert(exists|j: int| 0 <= j < i + 1 && self.roms_seq()[j] == rom@) by {
                        assert(self.roms_seq()[i as int] == rom@);
                    }
                }
            }
            i = i + 1;
        }
        found
    }

    /// Confirms one more entry. The entry must not already be in the set:
    /// any second match is a duplicate, reported by the caller, never
    /// inserted again.
    pub fn insert(&mut self, rom: Rom)
        requires
            old(self).wf(),
            !old(self).to_set().contains(rom@),
        ensures
            final (self).wf(),
            final (self).to_set() == old(self).to_set().insert(rom@),
    {
        let ghost pre = self.roms@;
        self.roms.push(rom);
        proof {
            assert(self.roms@ == pre.push(rom));
            assert(roms_view(pre).len() == pre.len());
            assert forall|k: int| 0 <= k < pre.len() + 1 implies self.roms_seq()[k] == if k
                < pre.len() {
                roms_view(pre)[k]
            } else {
                rom@
            } by {}
            assert(self.to_set() =~= roms_view(pre).to_set().insert(rom@)) by {
                assert forall|x: RomSpec| self.roms_seq().contains(x) implies roms_view(
                    pre,
                ).to_set().insert(rom@).contains(x) by {
                    let j = choose|j: int|
                        0 <= j < self.roms_seq().len() && self.roms_seq()[j] == x;
                    if j < pre.len() {
                        assert(roms_view(pre)[j] == x);
                    }
                }
                assert forall|x: RomSpec|
                    roms_view(pre).to_set().insert(rom@).contains(x) implies self.roms_seq()
                    .contains(x) by {
                    if roms_view(pre).contains(x) {
                        let j = choose|j: int|
                            0 <= j < roms_view(pre).len() && roms_view(pre)[j] == x;
                        assert(self.roms_seq()[j] == x);
                    } else {
                        assert(self.roms_seq()[pre.len() as int] == x);
                    }
                }
            }
        }
    }
}

/// The mapping from game name to destination folder id. At most one folder is
/// recorded per distinct game name; the first writer wins.
pub struct FolderIndex {
    entries: Vec<(String, String)>,
}

/// The mapping a sequence of name/id pairs stands for.
pub open spec fn pairs_map(s: Seq<(String, String)>) -> Map<Seq<char>, Seq<char>>
    decreases s.len(),
{
    if s.len() == 0 {
        Map::empty()
    } else {
        pairs_map(s.drop_last()).insert(s.last().0@, s.last().1@)
    }
}

/// A name is mapped exactly when some pair carries it.
proof fn lemma_pairs_map_dom(s: Seq<(String, String)>, k: Seq<char>)
    ensures
        pairs_map(s).dom().contains(k) <==> exists|i: int| 0 <= i < s.len() && s[i].0@ == k,
    decreases s.len(),
{
    if s.len() > 0 {
        lemma_pairs_map_dom(s.drop_last(), k);
        if s.last().0@ == k {
            assert(s[s.len() - 1].0@ == k);
        } else if exists|i: int| 0 <= i < s.len() && s[i].0@ == k {
            let i = choose|i: int| 0 <= i < s.len() && s[i].0@ == k;
            assert(s.drop_last()[i].0@ == k);
        }
    }
}

/// With unique names, each pair's id is what the mapping gives its name.
proof fn lemma_pairs_map_at(s: Seq<(String, String)>, i: int)
    requires
        forall|a: int, b: int| 0 <= a < b < s.len() ==> s[a].0@ != s[b].0@,
        0 <= i < s.len(),
    ensures
        pairs_map(s).dom().contains(s[i].0@),
        pairs_map(s)[s[i].0@] == s[i].1@,
    decreases s.len(),
{
    lemma_pairs_map_dom(s, s[i].0@);
    if i == s.len() - 1 {
    } else {
        assert(s[i].0@ != s[s.len() - 1].0@);
        lemma_pairs_map_at(s.drop_last(), i);
    }
}

impl FolderIndex {
    pub closed spec fn pairs(self) -> Seq<(String, String)> {
        self.entries@
    }

    /// The mapping from game name to destination folder id.
    pub open spec fn to_map(self) -> Map<Seq<char>, Seq<char>> {
        pairs_map(self.pairs())
    }

    /// No game name is recorded twice.
    pub open spec fn wf(self) -> bool {
        forall|a: int, b: int| 0 <= a < b < self.pairs().len() ==> self.pairs()[a].0@
            != self.pairs()[b].0@
    }

    pub fn new() -> (r: FolderIndex)
        ensures
            r.wf(),
            r.to_map() == Map::<Seq<char>, Seq<char>>::empty(),
    {
        FolderIndex { entries: Vec::new() }
    }

    pub fn contains_name(&self, name: &String) -> (r: bool)
        ensures
            r == self.to_map().dom().contains(name@),
    {
        let mut i: usize = 0;
        let mut found = false;
        while i < self.entries.len()
            invariant
                0 <= i <= self.pairs().len(),
                found == exists|j: int| 0 <= j < i && self.pairs()[j].0@ == name@,
            decreases self.pairs().len() - i,
        {
            if self.entries[i].0 == *name {
                found = true;
                proof {
                    assert(exists|j: int| 0 <= j < i + 1 && self.pairs()[j].0@ == name@) by {
                        assert(self.pairs()[i as int].0@ == name@);
                    }
                }
            }
            i = i + 1;
        }
        proof {
            lemma_pairs_map_dom(self.pairs(), name@);
        }
        found
    }

    /// The folder id recorded for a game name, if one is.
    pub fn get_id(&self, name: &String) -> (r: Option<&String>)
        requires
            self.wf(),
        ensures
            match r {
                Some(id) => self.to_map().dom().contains(name@) && id@ == self.to_map()[name@],
                None => !self.to_map().dom().contains(name@),
            },
    {
        let mut i: usize = 0;
        while i < self.entries.len()
            invariant
                self.wf(),
                0 <= i <= self.pairs().len(),
                forall|j: int| 0 <= j < i ==> self.pairs()[j].0@ != name@,
            decreases self.pairs().len() - i,
        {
            if self.entries[i].0 == *name {
                proof {
                    lemma_pairs_map_at(self.pairs(), i as int);
                }
                return Some(&self.entries[i].1);
            }
            i = i + 1;
        }
        proof {
            lemma_pairs_map_dom(self.pairs(), name@);
        }
        None
    }

    /// Records the folder id for a game name not recorded yet.
    pub fn insert(&mut self, name: String, id: String)
        requires
            old(self).wf(),
            !old(self).to_map().dom().contains(name@),
        ensures
            final (self).wf(),
            final (self).to_map() == old(self).to_map().insert(name@, id@),
    {
        proof {
            lemma_pairs_map_dom(self.pairs(), name@);
        }
        let ghost pre = self.entries@;
        self.entries.push((name, id));
        proof {
            assert(self.entries@.drop_last() =~= pre);
        }
    }
}

/// The whole mutable state of one run.
pub struct ScanState {
    pub found: FoundSet,
    pub folders: FolderIndex,
}

impl ScanState {
    pub open spec fn wf(self) -> bool {
        self.found.wf() && self.folders.wf()
    }

    /// A run starts cold: nothing found, no folder known.
    pub fn new() -> (r: ScanState)
        ensures
            r.wf(),
            r.found.to_set() == Set::<RomSpec>::empty(),
            r.folders.to_map() == Map::<Seq<char>, Seq<char>>::empty(),
    {
        ScanState { found: FoundSet::new(), folders: FolderIndex::new() }
    }

    /// Records a folder id handed back by the remote store for a game name
    /// that had no folder yet.
    pub fn record_folder(&mut self, name: String, id: String)
        requires
            old(self).wf(),
            !old(self).folders.to_map().dom().contains(name@),
        ensures
            final (self).wf(),
            final (self).folders.to_map() == old(self).folders.to_map().insert(name@, id@),
            final (self).found.to_set() == old(self).found.to_set(),
        {
        self.folders.insert(name, id);
    }

    /// The destination folder id recorded for a game name, if any.
    pub fn folder_id(&self, name: &String) -> (r: Option<&String>)
        requires
            self.wf(),
        ensures
            match r {
                Some(id) => self.folders.to_map().dom().contains(name@) && id@
                    == self.folders.to_map()[name@],
                None => !self.folders.to_map().dom().contains(name@),
            },
    {
        self.folders.get_id(name)
    }
}

} // verus!
