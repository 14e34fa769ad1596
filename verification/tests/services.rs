use aemm::deployment::DeploymentManifest;
use aemm::installer::StagingInitializationPolicy;
use aemm::services::{check_new_storage, check_storage_release, staging_policy, storage_changes, validate_removal_batch};
use aemm::settings::StorageSettings;
use aemm::error::AppError;
use aemm::repository::RepositoryInitializationPolicy;
use aemm::services::{
    deduplicate_warnings, first_issue, manifest_directory_name, paths_equal_case_insensitive, paths_equal_storage,
    repository_policy, validate_batch, validate_manifest_identity,
};

#[test]
fn batches_are_bounded_and_deduplicated_in_order() {
    assert_eq!(validate_batch(vec![3, 1, 3, 2, 1]).unwrap(), vec![3, 1, 2]);
    assert!(matches!(validate_batch(vec![]), Err(AppError::Deployment(_))));
    assert!(matches!(validate_batch((0..257).collect()), Err(AppError::Deployment(_))));
    assert_eq!(validate_batch((0..256).collect()).unwrap().len(), 256);
}

#[test]
fn warnings_are_shown_once() {
    let warnings = vec!["b".to_owned(), "a".to_owned(), "b".to_owned()];
    assert_eq!(deduplicate_warnings(warnings), vec!["b".to_owned(), "a".to_owned()]);
}

#[test]
fn first_issue_falls_back_when_there_is_none() {
    assert_eq!(first_issue(&vec!["x".to_owned(), "y".to_owned()], "none"), "x");
    assert_eq!(first_issue(&vec![], "none"), "none");
}

#[test]
fn repository_policy_follows_the_folder() {
    assert_eq!(repository_policy(r"D:\Game\EFMI\mods", r"C:\AEMM\repository"), RepositoryInitializationPolicy::ExternalEfmiMods);
    assert_eq!(repository_policy("c:/aemm/Repository/", r"C:\AEMM\repository"), RepositoryInitializationPolicy::TrustedAemmDefault);
    assert_eq!(repository_policy(r"D:\Other", r"C:\AEMM\repository"), RepositoryInitializationPolicy::EmptyOnly);
    assert!(paths_equal_case_insensitive("C:/A/", r"c:\a"));
    assert!(paths_equal_storage(r"C:\A\b", "c:/a/B"));
}

#[test]
fn stored_records_are_checked_for_identity_and_folder() {
    let manifest = DeploymentManifest {
        schema_version: 1,
        id: 1,
        profile_id: 5,
        mod_id: 6,
        strategy_id: "efmi.direct-folder.v1".to_owned(),
        destination_root: "C:/EFMI/Mods".to_owned(),
        destination_directory: "C:/EFMI/Mods/MyMod".to_owned(),
        source_content_fingerprint: "f".to_owned(),
        entries: vec![],
        created_at: 0,
    };
    assert!(validate_manifest_identity(&manifest, 5).is_ok());
    assert!(matches!(validate_manifest_identity(&manifest, 4), Err(AppError::DataIntegrity(_))));
    assert_eq!(manifest_directory_name(&manifest).unwrap(), "MyMod");
    let mut bad = manifest.clone();
    bad.destination_directory = "C:/EFMI/..".to_owned();
    assert!(matches!(manifest_directory_name(&bad), Err(AppError::DataIntegrity(_))));
}

#[test]
fn removal_batches_and_storage_changes() {
    assert_eq!(validate_removal_batch(vec![]).unwrap(), Vec::<u128>::new());
    assert_eq!(validate_removal_batch(vec![2, 2, 1]).unwrap(), vec![2, 1]);
    assert!(matches!(validate_removal_batch((0..257).collect()), Err(AppError::ModInstall(_))));
    let current = StorageSettings { repository_path: r"C:\A\repo".to_owned(), staging_path: r"C:\A\stage".to_owned() };
    let requested = StorageSettings { repository_path: "c:/a/REPO/".to_owned(), staging_path: r"D:\stage".to_owned() };
    assert_eq!(storage_changes(&current, &requested), (false, true));
    assert!(check_storage_release(true, 0, false, true, 0).is_ok());
    assert!(matches!(check_storage_release(true, 1, false, false, 0), Err(AppError::ConfigValidation(_))));
    assert!(check_storage_release(false, 1, true, true, 1).is_err());
    assert_eq!(staging_policy("c:/a/stage", r"C:\A\stage"), StagingInitializationPolicy::TrustedAemmDefault);
    assert!(check_new_storage(0, 0).is_ok());
    assert!(check_new_storage(1, 0).is_err());
}
