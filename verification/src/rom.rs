//! The catalog entry type: one expected file, identified by game name, file
//! name, byte size and content digest.

use vstd::prelude::*;

verus! {

/// One expected file from the catalog. Two entries are the same entry iff all
/// four attributes match exactly; the catalog routinely holds several distinct
/// entries sharing one digest.
#[derive(Debug)]
pub struct Rom {
    pub game_name: String,
    pub file_name: String,
    pub size: u64,
    pub md5: u128,
}

/// The mathematical value of a `Rom`.
pub struct RomSpec {
    pub game_name: Seq<char>,
    pub file_name: Seq<char>,
    pub size: u64,
    pub md5: u128,
}

impl View for Rom {
    type V = RomSpec;

    open spec fn view(&self) -> RomSpec {
        RomSpec {
            game_name: self.game_name@,
            file_name: self.file_name@,
            size: self.size,
            md5: self.md5,
        }
    }
}

impl Clone for Rom {
    fn clone(&self) -> (r: Self)
        ensures
            r@ == self@,
    {
        Rom {
            game_name: self.game_name.clone(),
            file_name: self.file_name.clone(),
            size: self.size,
            md5: self.md5,
        }
    }
}

/// Exact equality of two entries: all four attributes match.
pub fn rom_eq(a: &Rom, b: &Rom) -> (r: bool)
    ensures
        r == (a@ == b@),
{
    a.game_name == b.game_name && a.file_name == b.file_name && a.size == b.size && a.md5 == b.md5
}

/// The views of a sequence of entries.
pub open spec fn roms_view(s: Seq<Rom>) -> Seq<RomSpec> {
    s.map_values(|r: Rom| r@)
}

} // verus!
