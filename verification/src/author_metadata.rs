//! The metadata of a mod from its author manifest (`mod.json`), or inferred
//! from its folder when there is no usable manifest.
//!
//! What is on disk is described by plain values: how the manifest could be
//! read, what is known of the preview file it names, and which conventional
//! preview files exist.
use vstd::prelude::*;
use crate::conflicts::{opt_text, text_views};
use crate::metadata::{
    inferred_logical_id, inferred_name, optional_field, required_field, required_ok, spec_inferred_logical_id,
    spec_inferred_name, spec_optional_field, spec_valid_logical_id, text_or_empty, valid_logical_id,
    MetadataSourceKind, MAX_DESCRIPTION_LENGTH, MAX_ID_LENGTH, MAX_NAME_LENGTH, MAX_SHORT_FIELD_LENGTH,
    MAX_WEBSITE_LENGTH,
};
use crate::path_safety::{is_strictly_below, strictly_below, valid_relative, validate_relative_path};
use crate::error::msg;
use crate::ids::decimal;
use crate::text::{copy_str, trim};

verus! {

/// A manifest file larger than this is not read.
pub const MAX_MANIFEST_BYTES: u64 = 1048576;

/// The fields of an author manifest, as parsed.
#[derive(Debug, Clone, Default)]
pub struct AuthorManifest {
    pub id: Option<String>,
    pub name: Option<String>,
    pub author: Option<String>,
    pub version: Option<String>,
    pub description: Option<String>,
    pub category: Option<String>,
    pub game_version: Option<String>,
    pub website: Option<String>,
    pub preview: Option<String>,
}

/// How the manifest of a mod folder could be read.
pub enum ManifestRead {
    /// There is no `mod.json`.
    Missing,
    /// `mod.json` is a link or reparse point.
    Link,
    /// `mod.json` is not a regular file or exceeds `MAX_MANIFEST_BYTES`.
    NotAFileOrTooLarge,
    /// `mod.json` is not valid JSON.
    InvalidJson,
    /// `mod.json` is valid JSON whose fields have the wrong types; its text
    /// is kept.
    WrongFieldTypes { original: String },
    /// `mod.json` was parsed; its text is kept.
    Parsed { manifest: AuthorManifest, original: String },
}

/// What is known of the preview file a manifest names, relative to the mod
/// folder.
pub struct PreviewProbe {
    pub exists: bool,
    /// Whether it is a link or reparse point; `None` when that could not be
    /// checked.
    pub link: Option<bool>,
    pub canonical_root: Option<String>,
    pub canonical_candidate: Option<String>,
    pub candidate_is_file: bool,
}

/// The metadata of a mod.
pub struct AuthorModMetadata {
    pub logical_id: String,
    pub name: String,
    pub author: Option<String>,
    pub version: Option<String>,
    pub description: Option<String>,
    pub category: Option<String>,
    pub game_version: Option<String>,
    pub website: Option<String>,
    pub preview_path: Option<String>,
    /// The manifest's original JSON text, kept unchanged.
    pub original_document: Option<String>,
    pub source_kind: MetadataSourceKind,
}

/// Metadata and the notes for the user about how it was obtained.
pub struct MetadataRead {
    pub metadata: AuthorModMetadata,
    pub warnings: Vec<String>,
}

// ---------------------------------------------------------------------------
// The preview a manifest names
// ---------------------------------------------------------------------------
/// The check of a manifest's preview path: the path itself when it names a
/// regular file strictly inside the mod folder, reached without links; else
/// the note saying why it is ignored.
pub open spec fn preview_check(
    value: Seq<char>,
    exists: bool,
    link: Option<bool>,
    root: Option<Seq<char>>,
    candidate: Option<Seq<char>>,
    is_file: bool,
) -> Result<Seq<char>, Seq<char>> {
    if !valid_relative(value) {
        Err("mod.json 的 preview 路径不安全，已忽略。"@)
    } else if !exists {
        Err("mod.json 指定的 preview 文件不存在，已忽略。"@)
    } else {
        match link {
            None => Err("无法验证 preview 路径，已忽略。"@),
            Some(true) => Err("mod.json 指定的 preview 是链接或重解析点，已忽略。"@),
            Some(false) => match root {
                None => Err("无法验证模组根目录，已忽略 preview。"@),
                Some(r) => match candidate {
                    None => Err("无法验证 preview 文件，已忽略。"@),
                    Some(c) => if !is_file || !strictly_below(r, c) {
                        Err("mod.json 的 preview 路径超出模组目录，已忽略。"@)
                    } else {
                        Ok(value)
                    },
                },
            },
        }
    }
}

pub open spec fn probe_check(value: Seq<char>, probe: &PreviewProbe) -> Result<Seq<char>, Seq<char>> {
    preview_check(
        value,
        probe.exists,
        probe.link,
        opt_text(probe.canonical_root),
        opt_text(probe.canonical_candidate),
        probe.candidate_is_file,
    )
}

pub fn validate_preview_path(value: &str, probe: &PreviewProbe) -> (r: Result<String, String>)
    ensures
        (match r {
            Ok(p) => Ok(p@),
            Err(m) => Err(m@),
        }) == probe_check(value@, probe),
{
    if validate_relative_path(value).is_err() {
        return Err(msg("mod.json 的 preview 路径不安全，已忽略。"));
    }
    if !probe.exists {
        return Err(msg("mod.json 指定的 preview 文件不存在，已忽略。"));
    }
    match probe.link {
        None => Err(msg("无法验证 preview 路径，已忽略。")),
        Some(true) => Err(msg("mod.json 指定的 preview 是链接或重解析点，已忽略。")),
        Some(false) => match &probe.canonical_root {
            None => Err(msg("无法验证模组根目录，已忽略 preview。")),
            Some(root) => match &probe.canonical_candidate {
                None => Err(msg("无法验证 preview 文件，已忽略。")),
                Some(candidate) => {
                    if !probe.candidate_is_file || !is_strictly_below(root.as_str(), candidate.as_str()) {
                        Err(msg("mod.json 的 preview 路径超出模组目录，已忽略。"))
                    } else {
                        Ok(copy_str(value))
                    }
                },
            },
        },
    }
}

/// The conventional preview files, in the order they are looked for.
pub open spec fn preview_names() -> Seq<Seq<char>> {
    seq!["preview.png"@, "preview.jpg"@, "preview.jpeg"@, "thumbnail.png"@, "cover.png"@]
}

/// The first conventional preview file that is a regular file and not a
/// link (`usable[i]` says so of `preview_names()[i]`).
pub open spec fn spec_inferred_preview(usable: Seq<bool>) -> Option<Seq<char>> {
    if usable.len() > 0 && usable[0] {
        Some(preview_names()[0])
    } else if usable.len() > 1 && usable[1] {
        Some(preview_names()[1])
    } else if usable.len() > 2 && usable[2] {
        Some(preview_names()[2])
    } else if usable.len() > 3 && usable[3] {
        Some(preview_names()[3])
    } else if usable.len() > 4 && usable[4] {
        Some(preview_names()[4])
    } else {
        None
    }
}

pub fn inferred_preview(usable: &Vec<bool>) -> (r: Option<String>)
    ensures
        opt_text(r) == spec_inferred_preview(usable@),
{
    if usable.len() > 0 && usable[0] {
        Some(copy_str("preview.png"))
    } else if usable.len() > 1 && usable[1] {
        Some(copy_str("preview.jpg"))
    } else if usable.len() > 2 && usable[2] {
        Some(copy_str("preview.jpeg"))
    } else if usable.len() > 3 && usable[3] {
        Some(copy_str("thumbnail.png"))
    } else if usable.len() > 4 && usable[4] {
        Some(copy_str("cover.png"))
    } else {
        None
    }
}

// ---------------------------------------------------------------------------
// Manifest and inferred metadata
// ---------------------------------------------------------------------------
pub open spec fn bad_id_message() -> Seq<char> {
    "mod.json 的 id 仅允许 ASCII 字母、数字、点、下划线和连字符，且不能以点开头或结尾；已使用推断元数据。"@
}

pub open spec fn required_message(field: Seq<char>, max_length: usize) -> Seq<char> {
    "mod.json 的 "@ + field + " 不能为空且不能超过 "@ + decimal(max_length as nat) + " 字节；已使用推断元数据。"@
}

/// Why a parsed manifest is not used, if it is not: a missing or too long
/// id, an id with other characters, a missing or too long name.
pub open spec fn manifest_problem(manifest: AuthorManifest) -> Option<Seq<char>> {
    if !required_ok(manifest.id, MAX_ID_LENGTH) {
        Some(required_message("id"@, MAX_ID_LENGTH))
    } else if !spec_valid_logical_id(trim(text_or_empty(manifest.id))) {
        Some(bad_id_message())
    } else if !required_ok(manifest.name, MAX_NAME_LENGTH) {
        Some(required_message("name"@, MAX_NAME_LENGTH))
    } else {
        None
    }
}

/// Builds metadata from a usable manifest; the preview it names is kept
/// when `probe` shows it is safe, and otherwise dropped with a note.
pub fn manifest_to_metadata(manifest: AuthorManifest, original: String, probe: &PreviewProbe) -> (r: Result<
    MetadataRead,
    String,
>)
    ensures
        r is Err <==> manifest_problem(manifest) is Some,
        r matches Err(m) ==> Some(m@) == manifest_problem(manifest),
        r matches Ok(read) ==> {
            let md = read.metadata;
            &&& md.logical_id@ == trim(text_or_empty(manifest.id))
            &&& md.name@ == trim(text_or_empty(manifest.name))
            &&& opt_text(md.author) == spec_optional_field(manifest.author, MAX_SHORT_FIELD_LENGTH)
            &&& opt_text(md.version) == spec_optional_field(manifest.version, MAX_SHORT_FIELD_LENGTH)
            &&& opt_text(md.description) == spec_optional_field(manifest.description, MAX_DESCRIPTION_LENGTH)
            &&& opt_text(md.category) == spec_optional_field(manifest.category, MAX_SHORT_FIELD_LENGTH)
            &&& opt_text(md.game_version) == spec_optional_field(manifest.game_version, MAX_SHORT_FIELD_LENGTH)
            &&& opt_text(md.website) == spec_optional_field(manifest.website, MAX_WEBSITE_LENGTH)
            &&& opt_text(md.original_document) == Some(original@)
            &&& md.source_kind == MetadataSourceKind::ModJson
            &&& match manifest.preview {
                None => md.preview_path is None && read.warnings@.len() == 0,
                Some(p) => match probe_check(p@, probe) {
                    Ok(v) => opt_text(md.preview_path) == Some(v) && read.warnings@.len() == 0,
                    Err(m) => md.preview_path is None && text_views(read.warnings@) == seq![m],
                },
            }
        },
{
    let logical_id = required_field(manifest.id.clone(), "id", MAX_ID_LENGTH)?;
    if !valid_logical_id(logical_id.as_str()) {
        return Err(msg("mod.json 的 id 仅允许 ASCII 字母、数字、点、下划线和连字符，且不能以点开头或结尾；已使用推断元数据。"));
    }
    let name = required_field(manifest.name.clone(), "name", MAX_NAME_LENGTH)?;
    let mut warnings: Vec<String> = Vec::new();
    let preview_path = match &manifest.preview {
        None => None,
        Some(p) => match validate_preview_path(p.as_str(), probe) {
            Ok(v) => Some(v),
            Err(m) => {
                warnings.push(m);
                proof {
                    assert(text_views(warnings@) =~= seq![warnings@[0]@]);
                }
                None
            },
        },
    };
    let metadata = AuthorModMetadata {
        logical_id,
        name,
        author: optional_field(manifest.author, MAX_SHORT_FIELD_LENGTH),
        version: optional_field(manifest.version, MAX_SHORT_FIELD_LENGTH),
        description: optional_field(manifest.description, MAX_DESCRIPTION_LENGTH),
        category: optional_field(manifest.category, MAX_SHORT_FIELD_LENGTH),
        game_version: optional_field(manifest.game_version, MAX_SHORT_FIELD_LENGTH),
        website: optional_field(manifest.website, MAX_WEBSITE_LENGTH),
        preview_path,
        original_document: Some(original),
        source_kind: MetadataSourceKind::ModJson,
    };
    Ok(MetadataRead { metadata, warnings })
}

pub open spec fn folder_view(folder_name: Option<&str>) -> Option<Seq<char>> {
    match folder_name {
        Some(n) => Some(n@),
        None => None,
    }
}

/// Metadata inferred for a folder without a usable manifest: the folder's
/// name, a local id derived from its repository key, the conventional
/// preview found, and no author fields. When the manifest's text is kept, a
/// note says it was left unchanged.
pub fn infer_metadata(
    folder_name: Option<&str>,
    repository_key: &str,
    original_document: Option<String>,
    warnings: Vec<String>,
    preview: Option<String>,
) -> (r: MetadataRead)
    ensures
        r.metadata.name@ == spec_inferred_name(folder_view(folder_name)),
        r.metadata.logical_id@ == spec_inferred_logical_id(repository_key@),
        r.metadata.author is None && r.metadata.version is None && r.metadata.description is None,
        r.metadata.category is None && r.metadata.game_version is None && r.metadata.website is None,
        opt_text(r.metadata.preview_path) == opt_text(preview),
        opt_text(r.metadata.original_document) == opt_text(original_document),
        r.metadata.source_kind == MetadataSourceKind::Inferred,
        text_views(r.warnings@) == text_views(warnings@) + (if original_document is Some {
            seq!["作者原始 mod.json 未被修改。"@]
        } else {
            Seq::<Seq<char>>::empty()
        }),
{
    let mut warnings = warnings;
    let ghost before = warnings@;
    let kept = original_document.is_some();
    if kept {
        warnings.push(msg("作者原始 mod.json 未被修改。"));
        proof {
            assert(text_views(warnings@) =~= text_views(before) + seq!["作者原始 mod.json 未被修改。"@]);
        }
    } else {
        proof {
            assert(text_views(warnings@) =~= text_views(before) + Seq::<Seq<char>>::empty());
        }
    }
    MetadataRead {
        metadata: AuthorModMetadata {
            logical_id: inferred_logical_id(repository_key),
            name: inferred_name(folder_name),
            author: None,
            version: None,
            description: None,
            category: None,
            game_version: None,
            website: None,
            preview_path: preview,
            original_document,
            source_kind: MetadataSourceKind::Inferred,
        },
        warnings,
    }
}

pub open spec fn read_note(read: ManifestRead) -> Option<Seq<char>> {
    match read {
        ManifestRead::Missing => None,
        ManifestRead::Link => Some("mod.json 是链接或重解析点，已忽略并使用推断元数据。"@),
        ManifestRead::NotAFileOrTooLarge => Some("mod.json 不是普通文件或超过 1 MiB，已使用推断元数据。"@),
        ManifestRead::InvalidJson => Some("mod.json 不是有效 JSON，已使用推断元数据。"@),
        ManifestRead::WrongFieldTypes { .. } => Some("mod.json 字段类型无效，已保留原文并使用推断元数据。"@),
        ManifestRead::Parsed { manifest, .. } => manifest_problem(manifest),
    }
}

fn note(text: &str) -> (v: Vec<String>)
    ensures
        text_views(v@) == seq![text@],
{
    let mut v: Vec<String> = Vec::new();
    v.push(msg(text));
    proof {
        assert(text_views(v@) =~= seq![text@]);
    }
    v
}

/// The metadata of a mod folder. A parsed manifest without problems is
/// used as it is; in every other case the metadata is inferred, with the
/// note on why (if any) and, when the manifest's JSON text was read, that
/// text kept and a note that it was left unchanged.
pub fn read_metadata(
    read: ManifestRead,
    folder_name: Option<&str>,
    repository_key: &str,
    preview_probe: &PreviewProbe,
    conventional_previews: &Vec<bool>,
) -> (r: MetadataRead)
    ensures
        (read matches ManifestRead::Parsed { manifest, .. } && manifest_problem(manifest) is None)
            ==> r.metadata.source_kind == MetadataSourceKind::ModJson,
        !(read matches ManifestRead::Parsed { manifest, .. } && manifest_problem(manifest) is None) ==> {
            let kept = match read {
                ManifestRead::WrongFieldTypes { original } => Some(original@),
                ManifestRead::Parsed { original, .. } => Some(original@),
                _ => None,
            };
            let notes = match read_note(read) {
                Some(m) => seq![m],
                None => Seq::<Seq<char>>::empty(),
            };
            &&& r.metadata.source_kind == MetadataSourceKind::Inferred
            &&& r.metadata.name@ == spec_inferred_name(folder_view(folder_name))
            &&& r.metadata.logical_id@ == spec_inferred_logical_id(repository_key@)
            &&& opt_text(r.metadata.preview_path) == spec_inferred_preview(conventional_previews@)
            &&& opt_text(r.metadata.original_document) == kept
            &&& text_views(r.warnings@) == notes + (if kept is Some {
                seq!["作者原始 mod.json 未被修改。"@]
            } else {
                Seq::<Seq<char>>::empty()
            })
        },
        match read {
            ManifestRead::Parsed { manifest, original } => manifest_problem(manifest) is None ==> {
                &&& r.metadata.logical_id@ == trim(text_or_empty(manifest.id))
                &&& r.metadata.name@ == trim(text_or_empty(manifest.name))
                &&& opt_text(r.metadata.original_document) == Some(original@)
                &&& match manifest.preview {
                    None => r.metadata.preview_path is None && r.warnings@.len() == 0,
                    Some(p) => match probe_check(p@, preview_probe) {
                        Ok(v) => opt_text(r.metadata.preview_path) == Some(v) && r.warnings@.len() == 0,
                        Err(m) => r.metadata.preview_path is None && text_views(r.warnings@) == seq![m],
                    },
                }
            },
            _ => true,
        },
{
    match read {
        ManifestRead::Missing => {
            let none: Vec<String> = Vec::new();
            proof {
                assert(text_views(none@) =~= Seq::<Seq<char>>::empty());
            }
            let r = infer_metadata(folder_name, repository_key, None, none, inferred_preview(conventional_previews));
            proof {
                assert(text_views(r.warnings@) =~= Seq::<Seq<char>>::empty() + Seq::<Seq<char>>::empty());
            }
            r
        },
        ManifestRead::Link => infer_metadata(
            folder_name,
            repository_key,
            None,
            note("mod.json 是链接或重解析点，已忽略并使用推断元数据。"),
            inferred_preview(conventional_previews),
        ),
        ManifestRead::NotAFileOrTooLarge => infer_metadata(
            folder_name,
            repository_key,
            None,
            note("mod.json 不是普通文件或超过 1 MiB，已使用推断元数据。"),
            inferred_preview(conventional_previews),
        ),
        ManifestRead::InvalidJson => infer_metadata(
            folder_name,
            repository_key,
            None,
            note("mod.json 不是有效 JSON，已使用推断元数据。"),
            inferred_preview(conventional_previews),
        ),
        ManifestRead::WrongFieldTypes { original } => infer_metadata(
            folder_name,
            repository_key,
            Some(original),
            note("mod.json 字段类型无效，已保留原文并使用推断元数据。"),
            inferred_preview(conventional_previews),
        ),
        ManifestRead::Parsed { manifest, original } => {
            let kept = copy_str(original.as_str());
            match manifest_to_metadata(manifest, original, preview_probe) {
                Ok(r) => r,
                Err(m) => {
                    let mut notes: Vec<String> = Vec::new();
                    notes.push(m);
                    proof {
                        assert(text_views(notes@) =~= seq![notes@[0]@]);
                    }
                    infer_metadata(
                        folder_name,
                        repository_key,
                        Some(kept),
                        notes,
                        inferred_preview(conventional_previews),
                    )
                },
            }
        },
    }
}

} // verus!
