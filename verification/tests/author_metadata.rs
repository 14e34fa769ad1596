use aemm::author_metadata::{
    inferred_preview, manifest_to_metadata, read_metadata, validate_preview_path, AuthorManifest, ManifestRead,
    PreviewProbe,
};
use aemm::metadata::MetadataSourceKind;

fn probe(exists: bool, inside: bool) -> PreviewProbe {
    PreviewProbe {
        exists,
        link: Some(false),
        canonical_root: Some(r"C:\repo\mod".to_owned()),
        canonical_candidate: Some(if inside { r"C:\repo\mod\p.png".to_owned() } else { r"C:\other\p.png".to_owned() }),
        candidate_is_file: true,
    }
}

fn manifest(id: &str, name: &str, preview: Option<&str>) -> AuthorManifest {
    AuthorManifest {
        id: Some(id.to_owned()),
        name: Some(name.to_owned()),
        author: Some("  Someone  ".to_owned()),
        preview: preview.map(str::to_owned),
        ..AuthorManifest::default()
    }
}

#[test]
fn reads_author_manifest_without_rewriting_it() {
    let read = read_metadata(
        ManifestRead::Parsed { manifest: manifest(" author.mod ", "Nice Mod", None), original: "{\"id\":\"author.mod\"}".to_owned() },
        Some("author.mod"),
        "author.mod",
        &probe(true, true),
        &vec![true],
    );
    assert_eq!(read.metadata.logical_id, "author.mod");
    assert_eq!(read.metadata.name, "Nice Mod");
    assert_eq!(read.metadata.author.as_deref(), Some("Someone"));
    assert_eq!(read.metadata.source_kind, MetadataSourceKind::ModJson);
    assert_eq!(read.metadata.original_document.as_deref(), Some("{\"id\":\"author.mod\"}"));
    assert!(read.metadata.preview_path.is_none());
    assert!(read.warnings.is_empty());
}

#[test]
fn infers_stable_local_metadata_for_missing_manifest() {
    let a = read_metadata(ManifestRead::Missing, Some("DISABLED_Cool"), "Cool", &probe(false, false), &vec![false, true]);
    let b = read_metadata(ManifestRead::Missing, Some("Cool"), "cool", &probe(false, false), &vec![]);
    assert_eq!(a.metadata.source_kind, MetadataSourceKind::Inferred);
    assert_eq!(a.metadata.name, "Cool");
    assert_eq!(a.metadata.logical_id, b.metadata.logical_id);
    let expected = format!("local.{}", &blake3::hash(b"cool").to_hex()[..20]);
    assert_eq!(a.metadata.logical_id, expected);
    assert_eq!(a.metadata.preview_path.as_deref(), Some("preview.jpg"));
    assert!(a.warnings.is_empty());
}

#[test]
fn ignores_traversing_preview_path() {
    let read = manifest_to_metadata(manifest("a.b", "B", Some("../outside.png")), "{}".to_owned(), &probe(true, true)).ok().unwrap();
    assert!(read.metadata.preview_path.is_none());
    assert_eq!(read.warnings, vec!["mod.json 的 preview 路径不安全，已忽略。".to_owned()]);
    assert_eq!(validate_preview_path("p.png", &probe(true, true)).unwrap(), "p.png");
    assert!(validate_preview_path("p.png", &probe(true, false)).is_err());
    assert!(validate_preview_path("p.png", &probe(false, true)).is_err());
}

#[test]
fn unusable_manifests_fall_back_to_inferred_metadata() {
    let bad_id = read_metadata(
        ManifestRead::Parsed { manifest: manifest(".bad", "B", None), original: "{}".to_owned() },
        Some("Folder"),
        "Folder",
        &probe(false, false),
        &vec![],
    );
    assert_eq!(bad_id.metadata.source_kind, MetadataSourceKind::Inferred);
    assert_eq!(bad_id.metadata.original_document.as_deref(), Some("{}"));
    assert_eq!(bad_id.warnings.len(), 2);
    assert_eq!(bad_id.warnings[1], "作者原始 mod.json 未被修改。");
    let invalid = read_metadata(ManifestRead::InvalidJson, Some("Folder"), "Folder", &probe(false, false), &vec![]);
    assert_eq!(invalid.warnings, vec!["mod.json 不是有效 JSON，已使用推断元数据。".to_owned()]);
    let no_name = manifest_to_metadata(
        AuthorManifest { id: Some("a.b".to_owned()), ..AuthorManifest::default() },
        "{}".to_owned(),
        &probe(false, false),
    );
    assert_eq!(no_name.err().unwrap(), "mod.json 的 name 不能为空且不能超过 256 字节；已使用推断元数据。");
    assert_eq!(inferred_preview(&vec![false, false, false, false, true]).as_deref(), Some("cover.png"));
}
