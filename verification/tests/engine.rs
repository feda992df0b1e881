use rom_reconcile::catalog::{CatalogIndex, RawRecord};
use rom_reconcile::dest_scan::{scan_dest_file, scan_dest_folder, DestFileOutcome};
use rom_reconcile::parse::ParseError;
use rom_reconcile::report::missing_entries;
use rom_reconcile::rom::{rom_eq, Rom};
use rom_reconcile::state::ScanState;

fn rec(game: &str, file: &str, size: &str, md5: &str) -> RawRecord {
    RawRecord {
        game_name: game.to_string(),
        file_name: file.to_string(),
        size: size.to_string(),
        md5: md5.to_string(),
    }
}

const H1: &str = "0123456789abcdef0123456789abcdef";
const H2: &str = "00000000000000000000000000000002";

fn h(s: &str) -> u128 {
    u128::from_str_radix(s, 16).unwrap()
}

fn two_entry_catalog() -> CatalogIndex {
    let records = vec![
        rec("Game A", "a.bin", "100", H1),
        rec("Game B", "b.bin", "100", H1),
        rec("Game C", "c.bin", "7", H2),
    ];
    CatalogIndex::build(&records).unwrap()
}

#[test]
fn build_groups_by_hash_in_order() {
    let catalog = two_entry_catalog();
    let bucket = catalog.lookup(h(H1)).unwrap();
    assert_eq!(bucket.len(), 2);
    assert_eq!(bucket[0].game_name, "Game A");
    assert_eq!(bucket[0].file_name, "a.bin");
    assert_eq!(bucket[0].size, 100);
    assert_eq!(bucket[1].game_name, "Game B");
    let other = catalog.lookup(h(H2)).unwrap();
    assert_eq!(other.len(), 1);
    assert_eq!(other[0].file_name, "c.bin");
    assert!(catalog.lookup(3).is_none());
}

#[test]
fn build_reports_first_failing_record() {
    let records = vec![
        rec("Game A", "a.bin", "100", H1),
        rec("Game B", "b.bin", "12a", H1),
        rec("Game C", "c.bin", "", H2),
    ];
    assert!(matches!(CatalogIndex::build(&records), Err(ParseError::BadSizeDigit)));
    let records = vec![rec("Game A", "a.bin", "100", "xyz")];
    assert!(matches!(CatalogIndex::build(&records), Err(ParseError::BadDigestLength)));
}

#[test]
fn contains_entry_wants_exact_match() {
    let catalog = two_entry_catalog();
    let exact = Rom {
        game_name: "Game A".to_string(),
        file_name: "a.bin".to_string(),
        size: 100,
        md5: h(H1),
    };
    assert!(catalog.contains_entry(&exact));
    let wrong_size = Rom { size: 99, ..clone_rom(&exact) };
    assert!(!catalog.contains_entry(&wrong_size));
    let wrong_name = Rom { file_name: "x.bin".to_string(), ..clone_rom(&exact) };
    assert!(!catalog.contains_entry(&wrong_name));
}

fn clone_rom(r: &Rom) -> Rom {
    Rom {
        game_name: r.game_name.clone(),
        file_name: r.file_name.clone(),
        size: r.size,
        md5: r.md5,
    }
}

#[test]
fn duplicate_folder_keeps_first_id() {
    let mut state = ScanState::new();
    let dup = scan_dest_folder(&mut state, &"Game A".to_string(), &"id-1".to_string());
    assert!(!dup);
    let dup = scan_dest_folder(&mut state, &"Game A".to_string(), &"id-2".to_string());
    assert!(dup);
    assert_eq!(state.folder_id(&"Game A".to_string()), Some(&"id-1".to_string()));
}

#[test]
fn dest_file_outcomes() {
    let catalog = two_entry_catalog();
    let mut state = ScanState::new();
    let game = "Game A".to_string();
    // an exact catalog match
    let r = scan_dest_file(&mut state, &catalog, &game, "a.bin".to_string(), 100, h(H1));
    assert_eq!(r, DestFileOutcome::Matched);
    // the very same file again: a duplicate, not re-inserted
    let r = scan_dest_file(&mut state, &catalog, &game, "a.bin".to_string(), 100, h(H1));
    assert_eq!(r, DestFileOutcome::DuplicateRom);
    // same digest, no exact entry: unknown, still confirmed
    let r = scan_dest_file(&mut state, &catalog, &game, "odd.bin".to_string(), 100, h(H1));
    assert_eq!(r, DestFileOutcome::UnknownFile);
    // digest absent from the catalog: unknown as well
    let r = scan_dest_file(&mut state, &catalog, &game, "junk.bin".to_string(), 5, 42);
    assert_eq!(r, DestFileOutcome::UnknownFile);
}

#[test]
fn missing_entries_lists_unconfirmed_in_order() {
    let catalog = two_entry_catalog();
    let mut state = ScanState::new();
    let all = missing_entries(&catalog, &state.found);
    assert_eq!(all.len(), 3);
    assert_eq!(all[0].file_name, "a.bin");
    assert_eq!(all[1].file_name, "b.bin");
    assert_eq!(all[2].file_name, "c.bin");
    let game = "Game A".to_string();
    scan_dest_file(&mut state, &catalog, &game, "a.bin".to_string(), 100, h(H1));
    let rest = missing_entries(&catalog, &state.found);
    assert_eq!(rest.len(), 2);
    assert_eq!(rest[0].file_name, "b.bin");
    assert_eq!(rest[1].file_name, "c.bin");
}

#[test]
fn rom_eq_is_exact() {
    let a = Rom {
        game_name: "G".to_string(),
        file_name: "f".to_string(),
        size: 1,
        md5: 2,
    };
    assert!(rom_eq(&a, &clone_rom(&a)));
    assert!(!rom_eq(&a, &Rom { size: 3, ..clone_rom(&a) }));
    assert!(!rom_eq(&a, &Rom { md5: 3, ..clone_rom(&a) }));
    assert!(!rom_eq(&a, &Rom { game_name: "H".to_string(), ..clone_rom(&a) }));
}

#[test]
fn duplicate_unknown_destination_file_is_reported_once() {
    let catalog = two_entry_catalog();
    let mut state = ScanState::new();
    let game = "Game X".to_string();
    // unknown the first time, still confirmed
    let r = scan_dest_file(&mut state, &catalog, &game, "odd.bin".to_string(), 9, 77);
    assert_eq!(r, DestFileOutcome::UnknownFile);
    // met again: a duplicate now, not another unknown
    let r = scan_dest_file(&mut state, &catalog, &game, "odd.bin".to_string(), 9, 77);
    assert_eq!(r, DestFileOutcome::DuplicateRom);
}
