use aemm::metadata::{MetadataSourceKind, ModFile};
use aemm::scanner::{
    classify_file_role, fingerprint_files, resolve_duplicate_logical_ids, reuse_cached_hash, CachedModFile,
    ScanIssue, ScanIssueLevel, ScannedIdentity, SeenPaths,
};

fn file(path: &str, size: u64, hash: Option<&str>) -> ModFile {
    ModFile {
        source_path: path.to_owned(),
        deployment_target: None,
        size_bytes: size,
        content_hash: hash.map(str::to_owned),
        file_role: "other".to_owned(),
        modified_at: 0,
    }
}

#[test]
fn fingerprint_hashes_paths_sizes_and_hashes() {
    let files = vec![file(r"a\b.ini", 3, Some("h1")), file("c.dds", 258, None)];
    let mut input = Vec::new();
    input.extend_from_slice(b"a/b.ini");
    input.push(0);
    input.extend_from_slice(&3u64.to_le_bytes());
    input.push(0);
    input.extend_from_slice(b"h1");
    input.push(0xff);
    input.extend_from_slice(b"c.dds");
    input.push(0);
    input.extend_from_slice(&258u64.to_le_bytes());
    input.push(0);
    input.extend_from_slice(b"unreadable");
    input.push(0xff);
    assert_eq!(fingerprint_files(&files), blake3::hash(&input).to_hex().to_string());
}

#[test]
fn reuses_hashes_for_unchanged_files() {
    let cached = CachedModFile { size_bytes: 3, modified_at: 7, content_hash: "h".to_owned() };
    assert_eq!(reuse_cached_hash(Some(&cached), 3, 7), Some("h".to_owned()));
    assert_eq!(reuse_cached_hash(Some(&cached), 4, 7), None);
    assert_eq!(reuse_cached_hash(None, 3, 7), None);
}

#[test]
fn file_roles_follow_name_and_extension() {
    assert_eq!(classify_file_role("sub/MOD.JSON"), "metadata");
    assert_eq!(classify_file_role("main.INI"), "configuration");
    assert_eq!(classify_file_role("preview.webp"), "image");
}

#[test]
fn seen_paths_ignore_case() {
    let mut seen = SeenPaths::new();
    assert!(seen.insert("Mods/A"));
    assert!(!seen.insert("mods/a"));
}

fn identity(id: &str, kind: MetadataSourceKind) -> ScannedIdentity {
    ScannedIdentity { logical_id: id.to_owned(), source_kind: kind, repository_key: id.to_owned(), issues: vec![] }
}

#[test]
fn rejects_case_insensitive_duplicate_author_ids() {
    let mut mods = vec![identity("Author.Mod", MetadataSourceKind::ModJson), identity("author.mod", MetadataSourceKind::ModJson)];
    assert!(resolve_duplicate_logical_ids(&mut mods).is_err());
}

#[test]
fn keeps_same_named_active_and_disabled_folders_as_separate_local_mods() {
    let mut mods = vec![identity("local.x", MetadataSourceKind::Inferred), identity("LOCAL.X", MetadataSourceKind::Inferred)];
    assert!(resolve_duplicate_logical_ids(&mut mods).is_ok());
    let message = ScanIssue { level: ScanIssueLevel::Warning, repository_path: Some("a".to_owned()), message: "m".to_owned() };
    assert_eq!(message.display_message(), "a: m");
}
