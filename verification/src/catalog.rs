//! The catalog index: a mapping from content digest to the ordered sequence
//! of catalog entries sharing that digest, built from raw catalog records.

use vstd::prelude::*;

use crate::parse::{
    all_dec_digits, all_hex_digits, dec_val, hex_val, md5_digest, parse_size, ParseError,
};
use crate::rom::{rom_eq, roms_view, Rom, RomSpec};

verus! {

/// One raw catalog record, exactly as the external catalog parser hands it
/// over: the size still a decimal string, the digest still hexadecimal.
#[derive(Debug)]
pub struct RawRecord {
    pub game_name: String,
    pub file_name: String,
    pub size: String,
    pub md5: String,
}

/// The mathematical value of a `RawRecord`.
pub struct RawRecordSpec {
    pub game_name: Seq<char>,
    pub file_name: Seq<char>,
    pub size: Seq<char>,
    pub md5: Seq<char>,
}

impl View for RawRecord {
    type V = RawRecordSpec;

    open spec fn view(&self) -> RawRecordSpec {
        RawRecordSpec {
            game_name: self.game_name@,
            file_name: self.file_name@,
            size: self.size@,
            md5: self.md5@,
        }
    }
}

pub open spec fn records_view(s: Seq<RawRecord>) -> Seq<RawRecordSpec> {
    s.map_values(|r: RawRecord| r@)
}

/// Whether both numeric fields of a raw record parse.
pub open spec fn record_ok(rec: RawRecordSpec) -> bool {
    &&& rec.size.len() > 0
    &&& all_dec_digits(rec.size)
    &&& dec_val(rec.size) <= u64::MAX
    &&& rec.md5.len() == 32
    &&& all_hex_digits(rec.md5)
}

/// The entry a well-formed raw record stands for.
pub open spec fn record_rom(rec: RawRecordSpec) -> RomSpec {
    RomSpec {
        game_name: rec.game_name,
        file_name: rec.file_name,
        size: dec_val(rec.size) as u64,
        md5: hex_val(rec.md5) as u128,
    }
}

/// The error reported for a raw record that does not parse, size first.
pub open spec fn record_err(rec: RawRecordSpec) -> ParseError {
    if rec.size.len() == 0 {
        ParseError::EmptySize
    } else if !all_dec_digits(rec.size) {
        ParseError::BadSizeDigit
    } else if dec_val(rec.size) > u64::MAX {
        ParseError::SizeTooLarge
    } else if rec.md5.len() != 32 {
        ParseError::BadDigestLength
    } else {
        ParseError::BadDigestDigit
    }
}

/// Picks out the entries carrying digest `h`.
pub open spec fn md5_pred(h: u128) -> spec_fn(RomSpec) -> bool {
    |r: RomSpec| r.md5 == h
}

/// The catalog index. Its model is the sequence of entry values in catalog
/// order; the bucket of a digest is the subsequence of entries carrying it,
/// in that same order.
pub struct CatalogIndex {
    entries: Vec<Rom>,
}

impl CatalogIndex {
    /// All entries, in catalog order.
    pub closed spec fn entries_view(self) -> Seq<RomSpec> {
        roms_view(self.entries@)
    }

    /// The entries sharing digest `h`, in catalog order.
    pub open spec fn bucket_of(self, h: u128) -> Seq<RomSpec> {
        self.entries_view().filter(md5_pred(h))
    }

    pub open spec fn contains_hash(self, h: u128) -> bool {
        self.bucket_of(h).len() > 0
    }

    /// Parses every raw record and gathers the entries, in record order.
    /// Fails exactly when some record does not parse, with the first
    /// failing record's error.
    pub fn build(records: &Vec<RawRecord>) -> (r: Result<CatalogIndex, ParseError>)
        ensures
            match r {
                Ok(idx) => {
                    &&& forall|i: int|
                        0 <= i < records@.len() ==> record_ok(#[trigger] records@[i]@)
                    &&& idx.entries_view() == records_view(records@).map_values(
                        |rec: RawRecordSpec| record_rom(rec),
                    )
                },
                Err(e) => exists|i: int|
                    {
                        &&& 0 <= i < records@.len()
                        &&& !record_ok(#[trigger] records@[i]@)
                        &&& forall|j: int| 0 <= j < i ==> record_ok(#[trigger] records@[j]@)
                        &&& e == record_err(records@[i]@)
                    },
            },
    {
        let ghost goal = records_view(records@).map_values(|rec: RawRecordSpec| record_rom(rec));
        let mut entries: Vec<Rom> = Vec::new();
        let mut i: usize = 0;
        while i < records.len()
            invariant
                0 <= i <= records@.len(),
                goal == records_view(records@).map_values(
                    |rec: RawRecordSpec| record_rom(rec),
                ),
                forall|j: int| 0 <= j < i ==> record_ok(#[trigger] records@[j]@),
                roms_view(entries@) =~= goal.subrange(0, i as int),
            decreases records@.len() - i,
        {
            let rec = &records[i];
            let size = match parse_size(rec.size.as_str()) {
                Ok(v) => v,
                Err(e) => {
                    assert(!record_ok(records@[i as int]@));
                    assert(e == record_err(records@[i as int]@));
                    return Err(e);
                },
            };
            let md5 = match md5_digest(rec.md5.as_str()) {
                Ok(v) => v,
                Err(e) => {
                    assert(!record_ok(records@[i as int]@));
                    assert(e == record_err(records@[i as int]@));
                    return Err(e);
                },
            };
            assert(record_ok(records@[i as int]@));
            let rom = Rom {
                game_name: rec.game_name.clone(),
                file_name: rec.file_name.clone(),
                size,
                md5,
            };
            assert(rom@ == record_rom(records@[i as int]@));
            let ghost pre = entries@;
            entries.push(rom);
            proof {
                assert(goal.len() == records@.len());
                assert(roms_view(pre).len() == pre.len());
                assert(pre.len() == i);
                assert(entries@ == pre.push(rom));
                assert(goal[i as int] == record_rom(records@[i as int]@));
                assert forall|k: int| 0 <= k < i + 1 implies roms_view(entries@)[k] == goal[k] by {
                    if k < i {
                        assert(roms_view(pre)[k] == goal.subrange(0, i as int)[k]);
                    } else {
                        assert(entries@[k]@ == record_rom(records@[i as int]@));
                    }
                }
            }
            i = i + 1;
        }
        assert(roms_view(entries@) =~= goal);
        Ok(CatalogIndex { entries })
    }

    /// All entries matching digest `h`, in catalog order; absent digests give
    /// nothing.
    pub fn lookup(&self, h: u128) -> (r: Option<Vec<Rom>>)
        ensures
            match r {
                Some(v) => roms_view(v@) == self.bucket_of(h) && self.bucket_of(h).len() > 0,
                None => self.bucket_of(h).len() == 0,
            },
    {
        let mut out: Vec<Rom> = Vec::new();
        let mut i: usize = 0;
        while i < self.entries.len()
            invariant
                0 <= i <= self.entries@.len(),
                roms_view(out@) =~= roms_view(self.entries@).subrange(0, i as int).filter(
                    md5_pred(h),
                ),
            decreases self.entries@.len() - i,
        {
            proof {
                crate::seqtools::lemma_filter_push(
                    roms_view(self.entries@).subrange(0, i as int),
                    md5_pred(h),
                    roms_view(self.entries@)[i as int],
                );
                assert(roms_view(self.entries@).subrange(0, i as int).push(
                    roms_view(self.entries@)[i as int],
                ) =~= roms_view(self.entries@).subrange(0, i + 1));
            }
            if self.entries[i].md5 == h {
                out.push(self.entries[i].clone());
            }
            i = i + 1;
        }
        proof {
            assert(roms_view(self.entries@).subrange(0, self.entries@.len() as int) =~= roms_view(
                self.entries@,
            ));
        }
        if out.len() == 0 {
            None
        } else {
            Some(out)
        }
    }

    /// Whether the bucket of `rom`'s own digest holds an entry exactly equal
    /// to `rom`.
    pub fn contains_entry(&self, rom: &Rom) -> (r: bool)
        ensures
            r == self.bucket_of(rom@.md5).contains(rom@),
    {
        let mut i: usize = 0;
        let mut found = false;
        while i < self.entries.len()
            invariant
                0 <= i <= self.entries@.len(),
                found == exists|j: int|
                    0 <= j < i && roms_view(self.entries@)[j] == rom@,
            decreases self.entries@.len() - i,
        {
            let e = rom_eq(&self.entries[i], rom);
            proof {
                assert(roms_view(self.entries@)[i as int] == self.entries@[i as int]@);
            }
            if e {
                found = true;
                proof {
                    assert(exists|j: int|
                        0 <= j < i + 1 && roms_view(self.entries@)[j] == rom@) by {
                        assert(roms_view(self.entries@)[i as int] == rom@);
                    }
                }
            }
            i = i + 1;
        }
        proof {
            let pred = md5_pred(rom@.md5);
            let s = self.entries_view();
            if found {
                let j = choose|j: int| 0 <= j < s.len() && s[j] == rom@;
                s.lemma_filter_contains(pred, j);
            }
            if s.filter(pred).contains(rom@) {
                crate::seqtools::lemma_filter_sub(s, pred, rom@);
                assert(exists|j: int| 0 <= j < s.len() && s[j] == rom@);
            }
        }
        found
    }

    /// Every catalog entry sits in the bucket of its own digest.
    pub proof fn lemma_bucket_membership(self, e: RomSpec)
        requires
            self.entries_view().contains(e),
        ensures
            self.bucket_of(e.md5).contains(e),
    {
        let j = choose|j: int|
            0 <= j < self.entries_view().len() && self.entries_view()[j] == e;
        self.entries_view().lemma_filter_contains(md5_pred(e.md5), j);
    }

    /// A bucket holds nothing but catalog entries of that digest.
    pub proof fn lemma_bucket_sound(self, h: u128, e: RomSpec)
        requires
            self.bucket_of(h).contains(e),
        ensures
            self.entries_view().contains(e),
            e.md5 == h,
    {
        crate::seqtools::lemma_filter_sub(self.entries_view(), md5_pred(h), e);
    }

    /// How many entries the catalog holds in all.
    pub fn len(&self) -> (r: usize)
        ensures
            r == self.entries_view().len(),
    {
        self.entries.len()
    }

    /// The entries in catalog order.
    pub fn entry_at(&self, i: usize) -> (r: &Rom)
        requires
            i < self.entries_view().len(),
        ensures
            r@ == self.entries_view()[i as int],
    {
        &self.entries[i]
    }
}

} // verus!
