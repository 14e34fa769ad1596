use aemm::path_safety::{ensure_existing_child, join_lexically_contained, storage_path, validate_relative_path};

fn same_path(a: &str, b: &str) -> bool {
    a.replace('\\', "/") == b.replace('\\', "/")
}

#[test]
fn rejects_parent_traversal_and_reserved_names() {
    assert!(validate_relative_path("../../Windows/System32").is_err());
    assert!(validate_relative_path(".").is_err());
    assert!(validate_relative_path("safe/CON.ini").is_err());
    assert!(validate_relative_path("safe/mod.ini").is_ok());
}

#[test]
fn joins_only_lexically_safe_relative_paths() {
    let joined = join_lexically_contained("C:/repository", "author/mod").unwrap();
    assert!(same_path(&joined, "C:/repository/author/mod"));
}

#[test]
fn canonical_child_check_rejects_the_root_itself() {
    let root = tempfile::tempdir().unwrap();
    let path = root.path().to_string_lossy().to_string();
    assert!(ensure_existing_child(&path, &path).is_err());
}

#[test]
fn join_refuses_escaping_relative_paths() {
    assert!(join_lexically_contained("C:/repository", "../outside").is_err());
    assert!(join_lexically_contained("C:/repository", "C:/absolute").is_err());
    assert_eq!(join_lexically_contained("C:/repository/", "a").unwrap(), "C:/repository/a");
}

#[test]
fn existing_child_accepts_paths_strictly_below_the_root() {
    assert_eq!(ensure_existing_child("C:/root", "C:/root/mod").unwrap(), "C:/root/mod");
    assert!(ensure_existing_child("C:/root", "C:/rooted").is_err());
}

#[test]
fn reserved_names_are_refused_regardless_of_case_and_extension() {
    assert!(validate_relative_path("mods/nul").is_err());
    assert!(validate_relative_path("mods/Lpt1.txt").is_err());
    assert!(validate_relative_path("mods/COM10").is_ok());
    assert!(validate_relative_path("mods/bad:name").is_err());
    assert!(validate_relative_path("mods/trailing.").is_err());
    assert!(validate_relative_path("").is_err());
    assert!(validate_relative_path("/rooted").is_err());
}

#[test]
fn storage_path_uses_forward_slashes() {
    assert_eq!(storage_path(r"a\b\c.ini"), "a/b/c.ini");
}
