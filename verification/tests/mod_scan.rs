use aemm::error::AppError;
use aemm::mod_scan::{classify_top_level_entry, ModScanProgress, TopLevelEntry};
use aemm::scanner::{CachedModFile, ScanIssueLevel};

#[test]
fn scan_of_one_folder_counts_dedups_and_orders_files() {
    let mut scan = ModScanProgress::new("Mod".to_owned());
    let b = scan.admit_path(r"sub\B.ini").unwrap().unwrap();
    assert_eq!(b, "sub/B.ini");
    scan.check_size(3).unwrap();
    assert!(scan.cached_hash(None, 3, 1).is_none());
    scan.push_file(b, 3, 1, Ok("h1".to_owned())).unwrap();
    assert!(scan.admit_path("SUB/b.INI").unwrap().is_none());
    let a = scan.admit_path("a.ini").unwrap().unwrap();
    scan.check_size(2).unwrap();
    let cached = CachedModFile { size_bytes: 2, modified_at: 5, content_hash: "h2".to_owned() };
    let hash = scan.cached_hash(Some(&cached), 2, 5).unwrap();
    scan.push_file(a, 2, 5, Ok(hash)).unwrap();
    assert_eq!(scan.size_bytes, 5);
    assert!(scan.files.iter().all(|f| f.deployment_target.is_none()));
    scan.skipped_link("link");
    assert!(matches!(scan.admit_path("../x"), Err(AppError::UnsafePath(_))));
    let outcome = scan.finish(vec!["note".to_owned()]);
    let order: Vec<&str> = outcome.files.iter().map(|f| f.source_path.as_str()).collect();
    assert_eq!(order, vec!["a.ini", "sub/B.ini"]);
    assert_eq!(outcome.size_bytes, 5);
    assert_eq!(outcome.skipped_entries, 2);
    assert_eq!(outcome.hashed_files, 1);
    assert_eq!(outcome.reused_hashes, 1);
    assert_eq!(outcome.issues.len(), 3);
    assert_eq!(outcome.issues[2].level, ScanIssueLevel::Warning);
    assert_eq!(outcome.issues[0].display_message(), "Mod: 检测到大小写不敏感的重复路径 SUB/b.INI。");
    assert_eq!(outcome.content_fingerprint, aemm::scanner::fingerprint_files(&outcome.files));
}

#[test]
fn failed_hashes_and_oversized_totals_are_reported() {
    let mut scan = ModScanProgress::new("Mod".to_owned());
    scan.push_file("x.dds".to_owned(), 1, 0, Err("denied".to_owned())).unwrap();
    assert!(scan.files[0].content_hash.is_none());
    assert_eq!(scan.issues[0].message, "无法计算 x.dds 的 Hash：denied");
    scan.check_size(u64::MAX - 1).unwrap();
    scan.push_file("big.buf".to_owned(), u64::MAX - 1, 0, Ok("h".to_owned())).unwrap();
    assert!(matches!(scan.check_size(1), Err(AppError::DataIntegrity(_))));
    assert!(matches!(
        scan.push_file("more.buf".to_owned(), 1, 0, Ok("h".to_owned())),
        Err(AppError::DataIntegrity(_))
    ));
    assert_eq!(scan.files.len(), 2);
    assert_eq!(scan.size_bytes, u64::MAX);
}

#[test]
fn top_level_entries_are_sorted_out() {
    assert_eq!(classify_top_level_entry(".aemm-repository.json", false, false), TopLevelEntry::Ignore);
    assert_eq!(classify_top_level_entry(".aemm-remove-1", false, true), TopLevelEntry::SkipRemoval);
    assert!(matches!(classify_top_level_entry("x", true, true), TopLevelEntry::SkipWithWarning { .. }));
    assert!(matches!(classify_top_level_entry("x.txt", false, false), TopLevelEntry::SkipWithWarning { .. }));
    assert_eq!(classify_top_level_entry("Mod", false, true), TopLevelEntry::Scan);
}

#[test]
fn disabled_folders_are_not_enabled_in_efmi() {
    assert!(ModScanProgress::new("Mod".to_owned()).finish(Vec::new()).enabled_in_efmi);
    assert!(!ModScanProgress::new("DISABLED_Mod".to_owned()).finish(Vec::new()).enabled_in_efmi);
    assert!(!ModScanProgress::new("disabled Mod".to_owned()).finish(Vec::new()).enabled_in_efmi);
    assert!(ModScanProgress::new("DISABLE".to_owned()).finish(Vec::new()).enabled_in_efmi);
}

#[test]
fn hashed_files_carry_the_blake3_digest_of_their_content() {
    let mut content = aemm::ids::ContentHasher::new();
    content.update(b"foo");
    content.update(b"bar");
    assert_eq!(content.finish_hex(), blake3::hash(b"foobar").to_hex().to_string());
    let mut scan = ModScanProgress::new("Mod".to_owned());
    scan.push_hashed_file("a.ini".to_owned(), 6, 1, &content).unwrap();
    assert_eq!(scan.files[0].content_hash.as_deref(), Some(blake3::hash(b"foobar").to_hex().as_str()));
    let outcome = scan.finish(Vec::new());
    assert!(outcome.files.iter().all(|f| f.deployment_target.is_none()));
    assert_eq!(outcome.size_bytes, 6);
}
