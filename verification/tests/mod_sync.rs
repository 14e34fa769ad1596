use aemm::error::AppError;
use aemm::mod_sync::{missing_mods, plan_mod_sync, stale_file_paths, ModSyncOutcome, StoredModRecord, StoredModState, SyncAction};

fn record(path: &str, fingerprint: Option<&str>, state: &str) -> StoredModRecord {
    StoredModRecord {
        id: "m1".to_owned(),
        repository_path: path.to_owned(),
        content_fingerprint: fingerprint.map(str::to_owned),
        lifecycle_state: state.to_owned(),
    }
}

#[test]
fn new_scanned_mods_are_inserted_and_counted() {
    let action = plan_mod_sync(&vec![], "mods/a", "fp", false).unwrap();
    assert!(matches!(action, SyncAction::Insert));
    let mut outcome = ModSyncOutcome::default();
    outcome.record_scanned(&action, false);
    assert_eq!(outcome, ModSyncOutcome { added: 1, updated: 0, unchanged: 0, broken: 0, missing: 0 });
}

#[test]
fn matching_records_are_kept_and_changed_ones_updated() {
    let same = plan_mod_sync(&vec![record("mods/a", Some("fp"), "installed")], "mods/a", "fp", false).unwrap();
    assert!(matches!(same, SyncAction::Keep { ref mod_id } if mod_id == "m1"));
    let moved = plan_mod_sync(&vec![record("mods/b", Some("fp"), "installed")], "mods/a", "fp", false).unwrap();
    assert!(matches!(moved, SyncAction::Update { .. }));
    let broken = plan_mod_sync(&vec![record("mods/a", Some("fp"), "installed")], "mods/a", "fp", true).unwrap();
    assert!(matches!(broken, SyncAction::Update { .. }));
    let no_fingerprint = plan_mod_sync(&vec![record("mods/a", None, "installed")], "mods/a", "fp", false).unwrap();
    assert!(matches!(no_fingerprint, SyncAction::Update { .. }));
    let mut outcome = ModSyncOutcome::default();
    outcome.record_scanned(&broken, true);
    outcome.record_scanned(&same, false);
    outcome.record_missing(2);
    assert_eq!(outcome, ModSyncOutcome { added: 0, updated: 1, unchanged: 1, broken: 1, missing: 2 });
}

#[test]
fn two_matching_records_are_an_integrity_error() {
    let result = plan_mod_sync(&vec![record("a", None, "installed"), record("b", None, "installed")], "a", "fp", false);
    assert!(matches!(result, Err(AppError::DataIntegrity(_))));
}

#[test]
fn stale_files_and_missing_mods_are_selected_in_order() {
    let stale = stale_file_paths(
        &vec!["a.ini".to_owned(), "b.ini".to_owned(), "c.ini".to_owned()],
        &vec!["b.ini".to_owned()],
    );
    assert_eq!(stale, vec!["a.ini".to_owned(), "c.ini".to_owned()]);
    let stored = vec![
        StoredModState { id: "1".to_owned(), lifecycle_state: "installed".to_owned() },
        StoredModState { id: "2".to_owned(), lifecycle_state: "broken".to_owned() },
        StoredModState { id: "3".to_owned(), lifecycle_state: "installed".to_owned() },
    ];
    assert_eq!(missing_mods(&stored, &vec!["3".to_owned()]), vec!["1".to_owned()]);
}
