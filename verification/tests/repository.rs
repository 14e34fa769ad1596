use aemm::repository::{check_marker, decide_takeover, RepositoryInitializationPolicy, TakeoverAction};
use aemm::error::AppError;
use aemm::repository::{
    plan_removal_recovery, removal_tombstone_name, RemovalRecoveryStep, RepositoryRelativePath, RepositoryRoot,
};

#[test]
fn relative_paths_must_be_safe_and_not_start_with_a_dot_component() {
    assert!(RepositoryRelativePath::new("author.mod").is_ok());
    assert!(matches!(RepositoryRelativePath::new("./author.mod"), Err(AppError::UnsafePath(_))));
    assert!(RepositoryRelativePath::new("../x").is_err());
    let p = RepositoryRelativePath::new(r"a\b").unwrap();
    assert_eq!(p.storage_key(), "a/b");
    assert!(!p.is_direct_child());
}

#[test]
fn rejects_nested_path_as_mod_root() {
    let root = RepositoryRoot::from_canonical(r"C:\repo".to_owned());
    let nested = RepositoryRelativePath::new("a/b").unwrap();
    assert!(root.planned_mod_path(&nested).is_err());
    let direct = RepositoryRelativePath::new("a").unwrap();
    assert_eq!(root.planned_mod_path(&direct).unwrap(), r"C:\repo/a");
    let marker = RepositoryRelativePath::new(".aemm-repository.json").unwrap();
    assert!(root.planned_mod_path(&marker).is_err());
}

#[test]
fn removal_recovery_depends_on_what_is_left() {
    assert!(matches!(plan_removal_recovery(true, false), Ok(RemovalRecoveryStep::KeepOriginal)));
    assert!(matches!(plan_removal_recovery(false, true), Ok(RemovalRecoveryStep::RestoreFromTombstone)));
    assert!(matches!(plan_removal_recovery(false, false), Ok(RemovalRecoveryStep::NothingLeft)));
    assert!(plan_removal_recovery(true, true).is_err());
    assert_eq!(removal_tombstone_name(1), ".aemm-remove-00000000-0000-0000-0000-000000000001");
}

#[test]
fn repository_takeover_follows_the_marker_and_policy() {
    let empty_only = RepositoryInitializationPolicy::EmptyOnly;
    let trusted = RepositoryInitializationPolicy::TrustedAemmDefault;
    assert_eq!(decide_takeover(true, true, empty_only, true).unwrap(), TakeoverAction::UseExisting);
    assert!(matches!(decide_takeover(true, false, trusted, false), Err(AppError::UnsafePath(_))));
    assert!(matches!(decide_takeover(false, false, empty_only, true), Err(AppError::UnsafePath(_))));
    assert_eq!(decide_takeover(false, false, empty_only, false).unwrap(), TakeoverAction::CreateMarker);
    assert_eq!(decide_takeover(false, false, trusted, true).unwrap(), TakeoverAction::CreateMarker);
    assert_eq!(
        decide_takeover(false, false, RepositoryInitializationPolicy::ExternalEfmiMods, true).unwrap(),
        TakeoverAction::CreateMarker
    );
    assert!(check_marker(false, true, 120, "aemm-mod-repository", 1).is_ok());
    assert!(matches!(check_marker(true, true, 120, "aemm-mod-repository", 1), Err(AppError::UnsafePath(_))));
    assert!(check_marker(false, false, 120, "aemm-mod-repository", 1).is_err());
    assert!(check_marker(false, true, 4097, "aemm-mod-repository", 1).is_err());
    assert!(check_marker(false, true, 120, "other", 1).is_err());
    assert!(check_marker(false, true, 120, "aemm-mod-repository", 2).is_err());
}
