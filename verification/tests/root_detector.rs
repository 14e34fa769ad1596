use aemm::root_detector::{detect_mod_root, is_packaging_junk, StagedEntry, StagedEntryKind, StagedTree};
use aemm::error::AppError;

fn dir(path: &str) -> StagedEntry {
    StagedEntry { components: path.split('/').map(str::to_owned).collect(), kind: StagedEntryKind::Directory, link: false }
}

fn file(path: &str) -> StagedEntry {
    StagedEntry { components: path.split('/').map(str::to_owned).collect(), kind: StagedEntryKind::File, link: false }
}

fn tree(entries: Vec<StagedEntry>) -> StagedTree {
    StagedTree { root_absolute: true, root_link: false, root_directory: true, entries }
}

#[test]
fn unwraps_single_packaging_directory() {
    let detected = detect_mod_root(&tree(vec![dir("Wrapper"), dir("Wrapper/Actual"), file("Wrapper/Actual/mod.ini")])).unwrap();
    assert_eq!(detected.path, vec!["Wrapper".to_owned(), "Actual".to_owned()]);
    assert!(!detected.warnings.is_empty());
    assert_eq!(detected.warnings, vec!["已自动移除 2 层仅用于打包的外层目录。".to_owned()]);
}

#[test]
fn uses_unique_nested_manifest_root() {
    let detected = detect_mod_root(&tree(vec![
        dir("docs"),
        file("docs/readme.txt"),
        dir("mod"),
        file("mod/mod.json"),
    ]))
    .unwrap();
    assert_eq!(detected.path, vec!["mod".to_owned()]);
    assert_eq!(detected.warnings.len(), 1);
}

#[test]
fn rejects_multiple_manifest_roots() {
    let result = detect_mod_root(&tree(vec![dir("one"), dir("two"), file("one/mod.json"), file("two/MOD.JSON")]));
    assert!(matches!(result, Err(AppError::ModInstall(_))));
}

#[test]
fn manifest_at_the_root_keeps_the_root_without_warning() {
    let detected = detect_mod_root(&tree(vec![file("mod.json"), file("main.ini")])).unwrap();
    assert!(detected.path.is_empty());
    assert!(detected.warnings.is_empty());
}

#[test]
fn packaging_junk_does_not_prevent_unwrapping() {
    let detected = detect_mod_root(&tree(vec![
        dir("__MACOSX"),
        file("Thumbs.db"),
        dir("Real"),
        file("Real/a.ini"),
    ]))
    .unwrap();
    assert_eq!(detected.path, vec!["Real".to_owned()]);
    assert!(is_packaging_junk("DESKTOP.INI"));
    assert!(!is_packaging_junk("mod.ini"));
}

#[test]
fn unwrapping_stops_after_four_levels() {
    let detected = detect_mod_root(&tree(vec![
        dir("a"),
        dir("a/b"),
        dir("a/b/c"),
        dir("a/b/c/d"),
        dir("a/b/c/d/e"),
        file("a/b/c/d/e/x.ini"),
    ]))
    .unwrap();
    assert_eq!(detected.path.len(), 4);
}

#[test]
fn several_top_level_ini_folders_are_refused() {
    let result = detect_mod_root(&tree(vec![dir("A"), dir("B"), file("A/a.ini"), file("B/b.ini"), file("readme.txt")]));
    assert!(matches!(result, Err(AppError::ModInstall(_))));
}

#[test]
fn content_without_files_links_or_a_bad_root_is_refused() {
    assert!(matches!(detect_mod_root(&tree(vec![dir("empty")])), Err(AppError::ModInstall(_))));
    let mut linked = tree(vec![file("a.ini")]);
    linked.entries.push(StagedEntry { components: vec!["link".to_owned()], kind: StagedEntryKind::Other, link: true });
    assert!(matches!(detect_mod_root(&linked), Err(AppError::UnsafePath(_))));
    let mut relative = tree(vec![file("a.ini")]);
    relative.root_absolute = false;
    assert!(matches!(detect_mod_root(&relative), Err(AppError::UnsafePath(_))));
    let mut not_dir = tree(vec![file("a.ini")]);
    not_dir.root_directory = false;
    assert!(matches!(detect_mod_root(&not_dir), Err(AppError::ModInstall(_))));
}
