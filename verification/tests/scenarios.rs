use rom_reconcile::catalog::{CatalogIndex, RawRecord};
use rom_reconcile::dest_scan::{scan_dest_file, scan_dest_folder, DestFileOutcome};
use rom_reconcile::report::missing_entries;
use rom_reconcile::rom::Rom;
use rom_reconcile::source_scan::{plan_source_file, Action, SourceDiag};
use rom_reconcile::state::ScanState;

fn rec(game: &str, file: &str, size: &str, md5: &str) -> RawRecord {
    RawRecord {
        game_name: game.to_string(),
        file_name: file.to_string(),
        size: size.to_string(),
        md5: md5.to_string(),
    }
}

const H1: &str = "0123456789abcdef0123456789abcdef";

fn h(s: &str) -> u128 {
    u128::from_str_radix(s, 16).unwrap()
}

/// The catalog of the two concrete scenarios: two entries sharing one digest.
fn aliased_catalog() -> CatalogIndex {
    let records = vec![
        rec("Game A", "a.bin", "100", H1),
        rec("Game B", "b.bin", "100", H1),
    ];
    CatalogIndex::build(&records).unwrap()
}

/// Plays the planned actions the way the run driver would: each created
/// folder gets a fresh id and is recorded; each copy is resolved to the
/// folder id it lands in. Returns the performed copies as (folder id, name).
fn perform(state: &mut ScanState, actions: &[Action], next_id: &mut u32) -> Vec<(String, String)> {
    let mut copies = Vec::new();
    for action in actions {
        match action {
            Action::CreateFolder { game_name } => {
                assert!(state.folder_id(game_name).is_none(), "folder created twice");
                let id = format!("fid-{}", next_id);
                *next_id += 1;
                state.record_folder(game_name.clone(), id);
            }
            Action::CopyInto { game_name, file_name } => {
                let id = state.folder_id(game_name).expect("copy into unknown folder");
                copies.push((id.clone(), file_name.clone()));
            }
        }
    }
    copies
}

#[test]
fn fan_out_into_both_game_folders() {
    // empty destination, one source file matching two catalog entries
    let catalog = aliased_catalog();
    let mut state = ScanState::new();
    let mut next_id = 0;
    let (actions, diags) = plan_source_file(&mut state, &catalog, 100, h(H1));
    assert_eq!(
        actions,
        vec![
            Action::CreateFolder { game_name: "Game A".to_string() },
            Action::CopyInto { game_name: "Game A".to_string(), file_name: "a.bin".to_string() },
            Action::CreateFolder { game_name: "Game B".to_string() },
            Action::CopyInto { game_name: "Game B".to_string(), file_name: "b.bin".to_string() },
        ]
    );
    assert!(diags.is_empty());
    let copies = perform(&mut state, &actions, &mut next_id);
    assert_eq!(
        copies,
        vec![
            ("fid-0".to_string(), "a.bin".to_string()),
            ("fid-1".to_string(), "b.bin".to_string()),
        ]
    );
    assert!(missing_entries(&catalog, &state.found).is_empty());
}

#[test]
fn preexisting_folder_and_file_are_not_redone() {
    // destination already holds Game A with a.bin; only Game B is still owed
    let catalog = aliased_catalog();
    let mut state = ScanState::new();
    let dup = scan_dest_folder(&mut state, &"Game A".to_string(), &"fid-a".to_string());
    assert!(!dup);
    let r = scan_dest_file(
        &mut state,
        &catalog,
        &"Game A".to_string(),
        "a.bin".to_string(),
        100,
        h(H1),
    );
    assert_eq!(r, DestFileOutcome::Matched);

    let mut next_id = 0;
    let (actions, diags) = plan_source_file(&mut state, &catalog, 100, h(H1));
    assert_eq!(
        actions,
        vec![
            Action::CreateFolder { game_name: "Game B".to_string() },
            Action::CopyInto { game_name: "Game B".to_string(), file_name: "b.bin".to_string() },
        ]
    );
    assert_eq!(
        diags,
        vec![SourceDiag::AlreadyProcessed { file_name: "a.bin".to_string() }]
    );
    let copies = perform(&mut state, &actions, &mut next_id);
    assert_eq!(copies, vec![("fid-0".to_string(), "b.bin".to_string())]);
    assert!(missing_entries(&catalog, &state.found).is_empty());
}

#[test]
fn second_run_changes_nothing() {
    // first run: empty destination, the fan-out scenario
    let catalog = aliased_catalog();
    let mut state = ScanState::new();
    let mut next_id = 0;
    let (actions, _) = plan_source_file(&mut state, &catalog, 100, h(H1));
    let copies = perform(&mut state, &actions, &mut next_id);
    assert_eq!(copies.len(), 2);

    // second run starts cold and re-derives everything from the destination,
    // which now holds what the first run created
    let mut rerun = ScanState::new();
    assert!(!scan_dest_folder(&mut rerun, &"Game A".to_string(), &"fid-0".to_string()));
    assert_eq!(
        scan_dest_file(&mut rerun, &catalog, &"Game A".to_string(), "a.bin".to_string(), 100, h(H1)),
        DestFileOutcome::Matched
    );
    assert!(!scan_dest_folder(&mut rerun, &"Game B".to_string(), &"fid-1".to_string()));
    assert_eq!(
        scan_dest_file(&mut rerun, &catalog, &"Game B".to_string(), "b.bin".to_string(), 100, h(H1)),
        DestFileOutcome::Matched
    );

    let (actions, diags) = plan_source_file(&mut rerun, &catalog, 100, h(H1));
    assert!(actions.is_empty());
    assert_eq!(
        diags,
        vec![
            SourceDiag::AlreadyProcessed { file_name: "a.bin".to_string() },
            SourceDiag::AlreadyProcessed { file_name: "b.bin".to_string() },
        ]
    );
    assert!(missing_entries(&catalog, &rerun.found).is_empty());
}

#[test]
fn size_mismatch_does_not_block_other_candidates() {
    // two candidates share the digest; one has the wrong size
    let records = vec![
        rec("Game A", "a.bin", "50", H1),
        rec("Game B", "b.bin", "100", H1),
    ];
    let catalog = CatalogIndex::build(&records).unwrap();
    let mut state = ScanState::new();
    let (actions, diags) = plan_source_file(&mut state, &catalog, 100, h(H1));
    assert_eq!(
        diags,
        vec![SourceDiag::SizeMismatch { expected: 50, actual: 100 }]
    );
    assert_eq!(
        actions,
        vec![
            Action::CreateFolder { game_name: "Game B".to_string() },
            Action::CopyInto { game_name: "Game B".to_string(), file_name: "b.bin".to_string() },
        ]
    );
    let missing: Vec<Rom> = missing_entries(&catalog, &state.found);
    assert_eq!(missing.len(), 1);
    assert_eq!(missing[0].file_name, "a.bin");
}

#[test]
fn duplicate_source_file_is_not_copied_twice() {
    // two identical source files; the second only produces diagnostics
    let catalog = aliased_catalog();
    let mut state = ScanState::new();
    let mut next_id = 0;
    let (actions, _) = plan_source_file(&mut state, &catalog, 100, h(H1));
    let first_copies = perform(&mut state, &actions, &mut next_id);
    assert_eq!(first_copies.len(), 2);

    let (actions, diags) = plan_source_file(&mut state, &catalog, 100, h(H1));
    assert!(actions.is_empty());
    assert_eq!(
        diags,
        vec![
            SourceDiag::AlreadyProcessed { file_name: "a.bin".to_string() },
            SourceDiag::AlreadyProcessed { file_name: "b.bin".to_string() },
        ]
    );
}

#[test]
fn unknown_source_file_is_reported_and_skipped() {
    let catalog = aliased_catalog();
    let mut state = ScanState::new();
    let (actions, diags) = plan_source_file(&mut state, &catalog, 100, 42);
    assert!(actions.is_empty());
    assert_eq!(diags, vec![SourceDiag::NotInCatalog { md5: 42 }]);
    assert_eq!(missing_entries(&catalog, &state.found).len(), 2);
}

#[test]
fn game_folder_is_created_once_across_files() {
    // two different files whose entries share one game folder
    let h2 = "00000000000000000000000000000002";
    let records = vec![
        rec("Game A", "a.bin", "100", H1),
        rec("Game A", "a2.bin", "7", h2),
    ];
    let catalog = CatalogIndex::build(&records).unwrap();
    let mut state = ScanState::new();
    let mut next_id = 0;
    let (actions, _) = plan_source_file(&mut state, &catalog, 100, h(H1));
    assert_eq!(actions.len(), 2);
    perform(&mut state, &actions, &mut next_id);
    let (actions, diags) = plan_source_file(&mut state, &catalog, 7, h(h2));
    assert!(diags.is_empty());
    assert_eq!(
        actions,
        vec![Action::CopyInto { game_name: "Game A".to_string(), file_name: "a2.bin".to_string() }]
    );
}

#[test]
fn identical_catalog_entries_copy_once_and_report_once() {
    // the catalog holds the very same entry twice: the first occurrence is
    // satisfied, the second is a duplicate of it
    let records = vec![
        rec("Game A", "a.bin", "100", H1),
        rec("Game A", "a.bin", "100", H1),
    ];
    let catalog = CatalogIndex::build(&records).unwrap();
    let mut state = ScanState::new();
    let (actions, diags) = plan_source_file(&mut state, &catalog, 100, h(H1));
    assert_eq!(
        actions,
        vec![
            Action::CreateFolder { game_name: "Game A".to_string() },
            Action::CopyInto { game_name: "Game A".to_string(), file_name: "a.bin".to_string() },
        ]
    );
    assert_eq!(
        diags,
        vec![SourceDiag::AlreadyProcessed { file_name: "a.bin".to_string() }]
    );
}

#[test]
fn empty_catalog_knows_no_file() {
    let records: Vec<RawRecord> = Vec::new();
    let catalog = CatalogIndex::build(&records).unwrap();
    let mut state = ScanState::new();
    let (actions, diags) = plan_source_file(&mut state, &catalog, 100, h(H1));
    assert!(actions.is_empty());
    assert_eq!(diags, vec![SourceDiag::NotInCatalog { md5: h(H1) }]);
    assert!(missing_entries(&catalog, &state.found).is_empty());
}
