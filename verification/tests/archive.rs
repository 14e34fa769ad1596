use aemm::archive::{
    archive_attributes_are_link, check_entry_quota, detect_archive_kind, extension_warning, path_key,
    safe_source_directory_name, screen_rar_entry, screen_seven_zip_entry, screen_zip_entry, should_emit_progress,
    source_display_name, total_packed_size, validate_archive_path, ArchivePreflight, ExtractionPolicy,
    ModImportSourceKind, ValidatedPaths,
};
use aemm::error::AppError;

#[test]
fn archive_kinds_are_detected_by_signature() {
    assert_eq!(detect_archive_kind(&[0x50, 0x4B, 0x03, 0x04, 0]).unwrap(), ModImportSourceKind::Zip);
    assert_eq!(detect_archive_kind(&[0x37, 0x7A, 0xBC, 0xAF, 0x27, 0x1C]).unwrap(), ModImportSourceKind::SevenZip);
    assert_eq!(detect_archive_kind(b"Rar!\x1a\x07\x00").unwrap(), ModImportSourceKind::Rar);
    assert!(matches!(detect_archive_kind(b"plain"), Err(AppError::Archive(_))));
}

#[test]
fn rejects_zip_slip_before_writing_outside_payload() {
    let policy = ExtractionPolicy::default();
    assert!(matches!(validate_archive_path("../evil.txt", policy), Err(AppError::UnsafePath(_))));
    assert!(validate_archive_path("/abs.txt", policy).is_err());
    assert_eq!(validate_archive_path(r"dir\file.ini", policy).unwrap(), "dir/file.ini");
}

#[test]
fn rejects_case_insensitive_archive_collisions() {
    let mut paths = ValidatedPaths::new();
    assert!(paths.insert("Mod/File.ini", false).is_ok());
    assert!(matches!(paths.insert("mod/file.INI", false), Err(AppError::UnsafePath(_))));
    assert!(paths.insert("Mod/File.ini/below", false).is_err());
    assert_eq!(path_key(r"A\B"), "a/b");
}

#[test]
fn rejects_zip_symlink_entries() {
    assert!(screen_zip_entry("link", false, true, false, false).is_err());
    assert!(screen_zip_entry("secret.ini", true, false, true, false).is_err());
    assert!(screen_zip_entry("ok.ini", false, false, true, false).is_ok());
    assert!(archive_attributes_are_link(0x400));
    assert!(screen_seven_zip_entry("x", false, 0x400).is_err());
    assert!(screen_seven_zip_entry("x", true, 0).is_err());
    assert!(screen_rar_entry("x", false, true, 0).is_err());
    assert!(screen_rar_entry("x", false, false, 0).is_ok());
}

#[test]
fn enforces_unpacked_size_quota() {
    let policy = ExtractionPolicy { max_total_bytes: 10, ..ExtractionPolicy::default() };
    let mut total = 6;
    assert!(check_entry_quota(&mut total, 4, 0, policy).is_ok());
    assert_eq!(total, 10);
    assert!(check_entry_quota(&mut total, 1, 1, policy).is_err());
    let mut preflight = ArchivePreflight::new(policy);
    assert!(preflight.add_entry("a.ini", false, 8).is_ok());
    assert!(matches!(preflight.add_entry("b.ini", false, 8), Err(AppError::Archive(_))));
    assert!(preflight.add_entry("dir", true, 99).is_ok());
    assert!(preflight.finish(8).is_ok());
    assert!(ArchivePreflight::new(policy).finish(0).is_err());
}

#[test]
fn packed_sizes_and_names_of_sources() {
    assert_eq!(total_packed_size(&[1, 2, 3], ModImportSourceKind::Zip).unwrap(), 6);
    assert!(total_packed_size(&[u64::MAX, 1], ModImportSourceKind::Zip).is_err());
    assert_eq!(source_display_name(r"C:\Downloads\My Mod.zip"), "My Mod.zip");
    assert_eq!(safe_source_directory_name("a:b"), "a_b");
    assert!(extension_warning("x.zip", "zip", "x.zip").is_empty());
    assert_eq!(extension_warning("x.rar", "zip", "x.rar").len(), 1);
    assert!(should_emit_progress(0, 1, 0, 10));
}

#[test]
fn refused_entries_leave_the_running_total_unchanged() {
    let policy = ExtractionPolicy { max_file_bytes: 32, max_entries: 2, ..ExtractionPolicy::default() };
    let mut total = 0;
    assert!(matches!(check_entry_quota(&mut total, 64, 0, policy), Err(AppError::Archive(_))));
    assert_eq!(total, 0);
    assert!(matches!(check_entry_quota(&mut total, 1, 2, policy), Err(AppError::Archive(_))));
    assert_eq!(total, 0);
    let mut near_max = u64::MAX - 1;
    assert!(check_entry_quota(&mut near_max, 8, 0, ExtractionPolicy { max_file_bytes: 16, ..policy }).is_err());
    assert_eq!(near_max, u64::MAX - 1);
}
