use aemm::efmi_copy::{check_copied_content, check_copy_progress, check_deployed_content};
use aemm::deployment::{DeploymentContext, DeploymentEntry, DeploymentManifest, DeploymentPlan};
use aemm::efmi_copy::{
    active_directory_name, check_cleanup_directory, check_revoke_tombstone, direct_child_name,
    is_owned_directory_name, normalized_relative_key, paths_equal, pending_directory_name, plan_entries,
    tombstone_directory_name, validate_entries, validate_manifest_shape, validate_plan, EfmiCopyDeploymentStrategy,
};
use aemm::error::AppError;
use aemm::metadata::ModFile;

fn entry(path: &str, hash: &str) -> DeploymentEntry {
    DeploymentEntry {
        source_relative: path.to_owned(),
        destination_relative: path.to_owned(),
        size_bytes: 1,
        content_hash: hash.to_owned(),
    }
}

fn file(path: &str, hash: Option<&str>) -> ModFile {
    ModFile {
        source_path: path.to_owned(),
        deployment_target: None,
        size_bytes: 3,
        content_hash: hash.map(str::to_owned),
        file_role: "ini".to_owned(),
        modified_at: 0,
    }
}

#[test]
fn managed_folder_names_use_simple_uuids() {
    assert_eq!(active_directory_name(0xab), format!("AEMM_{:032x}", 0xab));
    assert_eq!(pending_directory_name(1), format!("DISABLED_AEMM_PENDING_{:032x}.partial", 1));
    assert_eq!(tombstone_directory_name(2, 3), format!("DISABLED_AEMM_REVOKE_{:032x}_{:032x}.revoke", 2, 3));
    assert!(is_owned_directory_name("AEMM_x"));
    assert!(!is_owned_directory_name("MyMod"));
    let strategy = EfmiCopyDeploymentStrategy::new("C:/EFMI/Mods".to_owned());
    assert_eq!(strategy.mods_root(), "C:/EFMI/Mods");
}

#[test]
fn destination_folder_must_be_one_safe_name() {
    assert_eq!(direct_child_name("AEMM_1").unwrap(), "AEMM_1");
    assert!(matches!(direct_child_name("a/b"), Err(AppError::UnsafePath(_))));
    assert!(direct_child_name("./a").is_err());
    assert!(direct_child_name("..").is_err());
}

#[test]
fn cleanup_only_touches_owned_names() {
    assert!(check_cleanup_directory("AEMM_1", "AEMM_1").is_ok());
    assert!(check_cleanup_directory("AEMM_2", "AEMM_1").is_err());
    assert!(check_cleanup_directory("DISABLED_AEMM_PENDING_x.partial", "AEMM_1").is_ok());
    assert!(check_cleanup_directory("Other", "AEMM_1").is_err());
    assert!(check_revoke_tombstone("DISABLED_AEMM_REVOKE_a_b.revoke").is_ok());
    assert!(check_revoke_tombstone("AEMM_1").is_err());
}

#[test]
fn keys_and_root_comparison_ignore_case_and_separators() {
    assert_eq!(normalized_relative_key(r"Textures\Body.DDS"), "textures/body.dds");
    assert!(paths_equal(r"C:\EFMI\Mods\", "c:/efmi/mods".replace('/', "\\").as_str()));
    assert!(!paths_equal("C:/EFMI/Mods", "C:/EFMI/Mod"));
}

#[test]
fn entries_need_safe_paths_valid_hashes_and_distinct_targets() {
    let good = "a".repeat(64);
    assert!(validate_entries(&vec![entry("a.ini", &good), entry("b.ini", &good)]).is_ok());
    assert!(matches!(validate_entries(&vec![entry("../a.ini", &good)]), Err(AppError::UnsafePath(_))));
    assert!(matches!(validate_entries(&vec![entry("a.ini", "xyz")]), Err(AppError::DataIntegrity(_))));
    assert!(matches!(
        validate_entries(&vec![entry("A.ini", &good), entry("a.INI", &good)]),
        Err(AppError::DataIntegrity(_))
    ));
    assert!(matches!(
        validate_entries(&vec![entry("a.ini", "g".repeat(64).as_str()), entry("../b", &good)]),
        Err(AppError::DataIntegrity(_))
    ));
}

fn manifest(version: u32, strategy: &str, directory: &str) -> DeploymentManifest {
    DeploymentManifest {
        schema_version: version,
        id: 1,
        profile_id: 2,
        mod_id: 3,
        strategy_id: strategy.to_owned(),
        destination_root: "C:/EFMI/Mods".to_owned(),
        destination_directory: directory.to_owned(),
        source_content_fingerprint: "f".to_owned(),
        entries: vec![entry("a.ini", &"b".repeat(64))],
        created_at: 0,
    }
}

#[test]
fn manifest_shape_checks_version_strategy_and_folder() {
    assert!(validate_manifest_shape(&manifest(1, "efmi.copy.v1", "AEMM_3")).is_ok());
    assert!(matches!(validate_manifest_shape(&manifest(2, "efmi.copy.v1", "AEMM_3")), Err(AppError::DataIntegrity(_))));
    assert!(matches!(validate_manifest_shape(&manifest(1, "other", "AEMM_3")), Err(AppError::DataIntegrity(_))));
    assert!(matches!(validate_manifest_shape(&manifest(1, "efmi.copy.v1", "a/b")), Err(AppError::UnsafePath(_))));
}

#[test]
fn plans_must_match_their_context() {
    let context = DeploymentContext {
        profile_id: 2,
        mod_id: 3,
        repository_root: "C:/repo".to_owned(),
        mod_root: "C:/repo/m".to_owned(),
        destination_root: "C:/EFMI/Mods".to_owned(),
        source_content_fingerprint: "f".to_owned(),
        files: vec![],
    };
    let plan = |entries: Vec<DeploymentEntry>, mod_id: u128| DeploymentPlan {
        operation_id: 9,
        profile_id: 2,
        mod_id,
        strategy_id: "efmi.copy.v1".to_owned(),
        destination_directory: "AEMM_3".to_owned(),
        source_content_fingerprint: "f".to_owned(),
        entries,
        warnings: vec![],
    };
    assert!(validate_plan(&plan(vec![entry("a.ini", &"c".repeat(64))], 3), &context).is_ok());
    assert!(matches!(validate_plan(&plan(vec![entry("a.ini", &"c".repeat(64))], 4), &context), Err(AppError::DataIntegrity(_))));
    assert!(matches!(validate_plan(&plan(vec![], 3), &context), Err(AppError::ModInstall(_))));
}

#[test]
fn plan_entries_are_checked_and_ordered_by_target() {
    let hash = "d".repeat(64);
    let files = vec![file("b.ini", Some(&hash)), file("A/x.dds", Some(&hash)), file("a.ini", Some(&hash))];
    let entries = plan_entries(&files, false, "fp", "fp").unwrap();
    let order: Vec<&str> = entries.iter().map(|e| e.destination_relative.as_str()).collect();
    assert_eq!(order, vec!["a.ini", "A/x.dds", "b.ini"]);
    assert!(matches!(plan_entries(&files, true, "fp", "fp"), Err(AppError::ModInstall(_))));
    assert!(matches!(plan_entries(&files, false, "fp", "other"), Err(AppError::DataIntegrity(_))));
    assert!(matches!(plan_entries(&vec![file("a.txt", Some(&hash))], false, "fp", "fp"), Err(AppError::ModInstall(_))));
    assert!(matches!(
        plan_entries(&vec![file("a.ini", Some(&hash)), file("x/.aemm-deployment.json", Some(&hash))], false, "fp", "fp"),
        Err(AppError::UnsafePath(_))
    ));
    assert!(matches!(plan_entries(&vec![file("a.ini", None)], false, "fp", "fp"), Err(AppError::DataIntegrity(_))));
}

fn hashed(bytes: &[u8]) -> aemm::ids::ContentHasher {
    let mut content = aemm::ids::ContentHasher::new();
    content.update(bytes);
    content
}

#[test]
fn deployed_content_must_match_its_entry() {
    let entry = DeploymentEntry {
        source_relative: "a.ini".to_owned(),
        destination_relative: "a.ini".to_owned(),
        size_bytes: 5,
        content_hash: blake3::hash(b"hello").to_hex().to_string(),
    };
    assert!(check_deployed_content(&entry, 5, &hashed(b"hello")).is_ok());
    assert!(matches!(check_deployed_content(&entry, 5, &hashed(b"hellO")), Err(AppError::DataIntegrity(_))));
    assert!(matches!(check_deployed_content(&entry, 4, &hashed(b"hello")), Err(AppError::DataIntegrity(_))));
    assert!(check_copied_content(&entry, 5, &hashed(b"hello")).is_ok());
    assert!(check_copied_content(&entry, 5, &hashed(b"world")).is_err());
    assert_eq!(check_copy_progress(&entry, 2, 3).unwrap(), 5);
    assert!(matches!(check_copy_progress(&entry, 3, 3), Err(AppError::DataIntegrity(_))));
    assert!(check_copy_progress(&entry, u64::MAX, 1).is_err());
}
