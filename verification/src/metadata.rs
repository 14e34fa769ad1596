//! Mod metadata: what an author's manifest may say, what is inferred when it
//! says nothing usable, the local overrides a user may set, and how these
//! values are stored.
use vstd::prelude::*;
use crate::error::{msg, AppError};
use crate::ids::{blake3_hex, blake3_hex_chars, decimal, decimal_chars, utf8_bytes};
use crate::names::{byte_len, spec_enabled_name, enabled_name_chars};
use crate::text::{
    chars_contain, concat, concat_str, copy_str, from_chars, has_char, slice_subrange, slice_to_vec,
    to_chars, to_lowercase, trim, trim_chars, unicode_lower,
};

verus! {

#[derive(Debug, Clone, Copy, PartialEq, Eq, Structural)]
pub enum ModLifecycleState {
    Installing,
    Installed,
    Broken,
    Removing,
}

#[derive(Debug, Clone, Copy, PartialEq, Eq, Structural)]
pub enum MetadataSourceKind {
    ModJson,
    Inferred,
}

/// The overrides a user keeps for a mod on this machine.
#[derive(Debug, Clone, Default)]
pub struct LocalModMetadata {
    pub display_name_override: Option<String>,
    pub category_override: Option<String>,
    pub description_override: Option<String>,
    pub favorite: bool,
    pub notes: Option<String>,
    pub tags: Vec<String>,
}

/// One file of a mod as scanned.
#[derive(Debug, Clone)]
pub struct ModFile {
    pub source_path: String,
    pub deployment_target: Option<String>,
    pub size_bytes: u64,
    pub content_hash: Option<String>,
    pub file_role: String,
    pub modified_at: i64,
}

/// The reader of author manifests.
#[derive(Debug, Clone, Default)]
pub struct FileSystemMetadataManager;

impl FileSystemMetadataManager {
    pub fn new() -> (m: Self) {
        FileSystemMetadataManager
    }
}

pub const MAX_ID_LENGTH: usize = 128;
pub const MAX_NAME_LENGTH: usize = 256;
pub const MAX_SHORT_FIELD_LENGTH: usize = 256;
pub const MAX_DESCRIPTION_LENGTH: usize = 32768;
pub const MAX_WEBSITE_LENGTH: usize = 2048;

// ---------------------------------------------------------------------------
// Author manifest fields
// ---------------------------------------------------------------------------
pub open spec fn text_or_empty(value: Option<String>) -> Seq<char> {
    match value {
        Some(s) => s@,
        None => Seq::empty(),
    }
}

/// A required field is its trimmed value, which must be non-empty and at
/// most `max_length` bytes.
pub open spec fn required_ok(value: Option<String>, max_length: usize) -> bool {
    let v = trim(text_or_empty(value));
    v.len() > 0 && byte_len(v) <= max_length
}

pub fn required_field(value: Option<String>, field: &str, max_length: usize) -> (r: Result<String, String>)
    ensures
        r is Ok <==> required_ok(value, max_length),
        r matches Ok(v) ==> v@ == trim(text_or_empty(value)),
        r matches Err(m) ==> m@ == "mod.json 的 "@ + field@ + " 不能为空且不能超过 "@ + decimal(
            max_length as nat,
        ) + " 字节；已使用推断元数据。"@,
{
    let raw = match &value {
        Some(s) => to_chars(s.as_str()),
        None => Vec::new(),
    };
    proof {
        assert(raw@ == text_or_empty(value));
    }
    let v = trim_chars(raw.as_slice());
    if v.len() == 0 || !crate::archive::utf8_within(v.as_slice(), max_length) {
        let a = concat_str(concat_str(to_chars("mod.json 的 ").as_slice(), field).as_slice(), " 不能为空且不能超过 ");
        let b = concat(a.as_slice(), decimal_chars(max_length as u64).as_slice());
        let c = concat_str(b.as_slice(), " 字节；已使用推断元数据。");
        return Err(from_chars(c.as_slice()));
    }
    Ok(from_chars(v.as_slice()))
}

/// An optional field: absent or blank is nothing; otherwise its trimmed
/// value cut to `max_length` characters.
pub open spec fn spec_optional_field(value: Option<String>, max_length: usize) -> Option<Seq<char>> {
    match value {
        Some(s) => {
            let t = trim(s@);
            if t.len() == 0 {
                None
            } else {
                Some(t.take(if t.len() < max_length { t.len() as int } else { max_length as int }))
            }
        },
        None => None,
    }
}

pub fn optional_field(value: Option<String>, max_length: usize) -> (r: Option<String>)
    ensures
        crate::conflicts::opt_text(r) == spec_optional_field(value, max_length),
{
    match &value {
        Some(s) => {
            let t = trim_chars(to_chars(s.as_str()).as_slice());
            if t.len() == 0 {
                None
            } else {
                let keep = if t.len() < max_length {
                    t.len()
                } else {
                    max_length
                };
                Some(from_chars(slice_subrange(t.as_slice(), 0, keep)))
            }
        },
        None => None,
    }
}

pub open spec fn id_char(c: char) -> bool {
    ('a' <= c && c <= 'z') || ('A' <= c && c <= 'Z') || ('0' <= c && c <= '9') || c == '.' || c == '_'
        || c == '-'
}

/// An author id: ASCII letters, digits, `.`, `_` and `-`, not beginning or
/// ending with `.`.
pub open spec fn spec_valid_logical_id(v: Seq<char>) -> bool {
    &&& !(v.len() > 0 && v[0] == '.')
    &&& !(v.len() > 0 && v.last() == '.')
    &&& forall|i: int| 0 <= i < v.len() ==> id_char(#[trigger] v[i])
}

/// An author id is valid exactly when it is made of ASCII letters, digits,
/// `.`, `_` and `-` and neither begins nor ends with `.`; so `author.cool-mod`
/// and `a_b-c.d9` are valid and `.x`, `x.` and `a b` are not.
pub proof fn lemma_valid_logical_id_chars(v: Seq<char>)
    ensures
        spec_valid_logical_id(v) <==> (forall|i: int|
            0 <= i < v.len() ==> ('a' <= #[trigger] v[i] <= 'z') || ('A' <= v[i] <= 'Z') || ('0' <= v[i] <= '9')
                || v[i] == '.' || v[i] == '_' || v[i] == '-') && !(v.len() > 0 && v[0] == '.') && !(v.len() > 0
            && v[v.len() - 1] == '.'),
{
}

pub fn valid_logical_id(value: &str) -> (b: bool)
    ensures
        b == spec_valid_logical_id(value@),
{
    let v = to_chars(value);
    if v.len() > 0 && (v[0] == '.' || v[v.len() - 1] == '.') {
        return false;
    }
    let mut i: usize = 0;
    while i < v.len()
        invariant
            i <= v@.len(),
            v@ == value@,
            forall|j: int| 0 <= j < i ==> id_char(#[trigger] v@[j]),
        decreases v@.len() - i,
    {
        let c = v[i];
        let ok = ('a' <= c && c <= 'z') || ('A' <= c && c <= 'Z') || ('0' <= c && c <= '9') || c == '.'
            || c == '_' || c == '-';
        if !ok {
            proof {
                assert(!id_char(v@[i as int]));
            }
            return false;
        }
        i = i + 1;
    }
    true
}

/// The name inferred for a mod folder: its trimmed name without a disabled
/// prefix, or `未命名模组` when nothing remains.
pub open spec fn spec_inferred_name(folder_name: Option<Seq<char>>) -> Seq<char> {
    match folder_name {
        Some(n) => {
            let e = spec_enabled_name(trim(n));
            if e.len() > 0 {
                e
            } else {
                "未命名模组"@
            }
        },
        None => "未命名模组"@,
    }
}

pub fn inferred_name(folder_name: Option<&str>) -> (r: String)
    ensures
        r@ == spec_inferred_name(match folder_name {
            Some(n) => Some(n@),
            None => None,
        }),
{
    match folder_name {
        Some(n) => {
            let t = trim_chars(to_chars(n).as_slice());
            let e = enabled_name_chars(t.as_slice());
            if e.len() > 0 {
                from_chars(e.as_slice())
            } else {
                copy_str("未命名模组")
            }
        },
        None => copy_str("未命名模组"),
    }
}

/// The local identity of a mod without a usable manifest: `local.` and the
/// first 20 hexadecimal digits of the BLAKE3 digest of its lower-cased
/// repository key.
pub open spec fn spec_inferred_logical_id(repository_key: Seq<char>) -> Seq<char> {
    "local."@ + blake3_hex(vstd::utf8::encode_utf8(unicode_lower(repository_key))).take(20)
}

pub fn inferred_logical_id(repository_key: &str) -> (r: String)
    ensures
        r@ == spec_inferred_logical_id(repository_key@),
        r@.len() == 26,
        r@.take(6) == "local."@,
        forall|i: int| 6 <= i < 26 ==> crate::ids::is_lower_hex(#[trigger] r@[i]),
{
    let lower = to_chars(to_lowercase(repository_key).as_str());
    let hex = blake3_hex_chars(utf8_bytes(lower.as_slice()).as_slice());
    let prefix = to_chars("local.");
    proof {
        reveal_strlit("local.");
    }
    let r = from_chars(concat(prefix.as_slice(), slice_subrange(hex.as_slice(), 0, 20)).as_slice());
    proof {
        assert(r@.take(6) =~= "local."@);
        assert forall|i: int| 6 <= i < 26 implies crate::ids::is_lower_hex(#[trigger] r@[i]) by {
            assert(r@[i] == hex@[i - 6]);
        }
    }
    r
}

// ---------------------------------------------------------------------------
// Local overrides
// ---------------------------------------------------------------------------
pub const MAX_OVERRIDE_LENGTH: usize = 512;
pub const MAX_NOTES_LENGTH: usize = 32768;
pub const MAX_TAGS: usize = 64;
pub const MAX_TAG_LENGTH: usize = 64;

/// A local override: absent or blank is nothing; otherwise its trimmed
/// value, which must hold no NUL and at most `max_length` characters (the
/// outer `None` marks a refused value).
pub open spec fn spec_normalize_optional(value: Option<String>, max_length: usize) -> Option<Option<Seq<char>>> {
    match value {
        Some(s) => {
            let t = trim(s@);
            if t.len() == 0 {
                Some(None)
            } else if t.len() > max_length || t.contains('\0') {
                None
            } else {
                Some(Some(t))
            }
        },
        None => Some(None),
    }
}

pub fn normalize_optional(value: Option<String>, label: &str, max_length: usize) -> (r: Result<Option<String>, AppError>)
    ensures
        r is Ok <==> spec_normalize_optional(value, max_length) is Some,
        r matches Ok(v) ==> Some(crate::conflicts::opt_text(v)) == spec_normalize_optional(value, max_length),
        r matches Err(e) ==> e is ModMetadata,
{
    let s = match &value {
        Some(s) => s,
        None => return Ok(None),
    };
    let t = trim_chars(to_chars(s.as_str()).as_slice());
    if t.len() == 0 {
        return Ok(None);
    }
    if t.len() > max_length || chars_contain(t.as_slice(), '\0') {
        proof {
            if !(t@.len() > max_length) {
                assert(t@.contains('\0'));
            }
        }
        let a = concat_str(to_chars(label).as_slice(), "不能包含 NUL 且不能超过 ");
        let b = concat(a.as_slice(), decimal_chars(max_length as u64).as_slice());
        let c = concat_str(b.as_slice(), " 个字符。");
        return Err(AppError::ModMetadata(from_chars(c.as_slice())));
    }
    proof {
        assert(!t@.contains('\0'));
    }
    Ok(Some(from_chars(t.as_slice())))
}

/// A tag is acceptable once trimmed: non-empty, at most 64 characters, no
/// NUL.
pub open spec fn tag_ok(tag: Seq<char>) -> bool {
    let t = trim(tag);
    t.len() > 0 && t.len() <= MAX_TAG_LENGTH && !t.contains('\0')
}

/// Trimmed tags, each kept only when no earlier one has the same lower case.
pub open spec fn dedup_tags(tags: Seq<Seq<char>>) -> Seq<Seq<char>>
    decreases tags.len(),
{
    if tags.len() == 0 {
        Seq::empty()
    } else {
        let rest = dedup_tags(tags.drop_last());
        let t = trim(tags.last());
        if exists|k: int| 0 <= k < rest.len() && unicode_lower(#[trigger] rest[k]) == unicode_lower(t) {
            rest
        } else {
            rest.push(t)
        }
    }
}

pub open spec fn local_metadata_ok(m: LocalModMetadata) -> bool {
    &&& spec_normalize_optional(m.display_name_override, MAX_OVERRIDE_LENGTH) is Some
    &&& spec_normalize_optional(m.category_override, MAX_OVERRIDE_LENGTH) is Some
    &&& spec_normalize_optional(m.description_override, MAX_DESCRIPTION_LENGTH) is Some
    &&& spec_normalize_optional(m.notes, MAX_NOTES_LENGTH) is Some
    &&& m.tags@.len() <= MAX_TAGS
    &&& forall|k: int| 0 <= k < m.tags@.len() ==> tag_ok(#[trigger] m.tags@[k]@)
}

/// Trims, checks and deduplicates (ignoring case) the tags of a mod.
fn normalize_tags(tags_in: Vec<String>) -> (r: Result<Vec<String>, AppError>)
    ensures
        r is Ok <==> tags_in@.len() <= MAX_TAGS && forall|k: int| 0 <= k < tags_in@.len() ==> tag_ok(
            #[trigger] tags_in@[k]@,
        ),
        r matches Ok(kept) ==> crate::conflicts::text_views(kept@) == dedup_tags(
            crate::conflicts::text_views(tags_in@),
        ),
        r matches Err(e) ==> e is ModMetadata,
{
    if tags_in.len() > MAX_TAGS {
        return Err(AppError::ModMetadata(msg("标签数量不能超过 64。")));
    }
    let ghost tv = crate::conflicts::text_views(tags_in@);
    let mut kept: Vec<String> = Vec::new();
    let mut lowered: Vec<Vec<char>> = Vec::new();
    let mut k: usize = 0;
    proof {
        assert(tv.take(0) =~= Seq::<Seq<char>>::empty());
        assert(crate::conflicts::text_views(kept@) =~= Seq::<Seq<char>>::empty());
    }
    while k < tags_in.len()
        invariant
            k <= tags_in@.len(),
            tv == crate::conflicts::text_views(tags_in@),
            forall|q: int| 0 <= q < k ==> tag_ok(#[trigger] tags_in@[q]@),
            crate::conflicts::text_views(kept@) == dedup_tags(tv.take(k as int)),
            lowered@.len() == kept@.len(),
            forall|q: int| 0 <= q < kept@.len() ==> #[trigger] lowered@[q]@ == unicode_lower(kept@[q]@),
        decreases tags_in@.len() - k,
    {
        let t = trim_chars(to_chars(tags_in[k].as_str()).as_slice());
        if t.len() == 0 || t.len() > MAX_TAG_LENGTH || chars_contain(t.as_slice(), '\0') {
            proof {
                assert(!tag_ok(tags_in@[k as int]@));
            }
            return Err(AppError::ModMetadata(msg("标签不能为空、包含 NUL 或超过 64 个字符。")));
        }
        proof {
            assert(tag_ok(tags_in@[k as int]@));
            assert(tv.take(k + 1).drop_last() =~= tv.take(k as int));
            assert(tv.take(k + 1).last() == tags_in@[k as int]@);
        }
        let ts = from_chars(t.as_slice());
        let low = to_chars(to_lowercase(ts.as_str()).as_str());
        let mut seen = false;
        let mut q: usize = 0;
        while q < lowered.len()
            invariant
                q <= lowered@.len(),
                lowered@.len() == kept@.len(),
                forall|j: int| 0 <= j < kept@.len() ==> #[trigger] lowered@[j]@ == unicode_lower(kept@[j]@),
                low@ == unicode_lower(t@),
                seen <==> exists|j: int| 0 <= j < q && unicode_lower(#[trigger] kept@[j]@) == unicode_lower(t@),
            decreases lowered@.len() - q,
        {
            if crate::text::chars_eq(lowered[q].as_slice(), low.as_slice()) {
                seen = true;
            }
            q = q + 1;
        }
        let ghost before = kept@;
        proof {
            let rest = dedup_tags(tv.take(k as int));
            assert(rest == crate::conflicts::text_views(before));
            assert((exists|j: int| 0 <= j < rest.len() && unicode_lower(#[trigger] rest[j]) == unicode_lower(t@))
                == seen) by {
                if seen {
                    let j = choose|j: int| 0 <= j < kept@.len() && unicode_lower(#[trigger] kept@[j]@) == unicode_lower(t@);
                    assert(rest[j] == kept@[j]@);
                }
                if exists|j: int| 0 <= j < rest.len() && unicode_lower(#[trigger] rest[j]) == unicode_lower(t@) {
                    let j = choose|j: int| 0 <= j < rest.len() && unicode_lower(#[trigger] rest[j]) == unicode_lower(t@);
                    assert(rest[j] == kept@[j]@);
                }
            }
        }
        if !seen {
            kept.push(ts);
            lowered.push(low);
            proof {
                assert(crate::conflicts::text_views(kept@) =~= crate::conflicts::text_views(before).push(t@));
            }
        }
        k = k + 1;
    }
    proof {
        assert(tv.take(tv.len() as int) =~= tv);
    }
    Ok(kept)
}

/// Normalizes the local overrides of a mod: blank overrides become absent,
/// overrides are trimmed and bounded, tags are trimmed, bounded and
/// deduplicated regardless of case (the first spelling is kept).
pub fn validate_local_metadata(metadata: LocalModMetadata) -> (r: Result<LocalModMetadata, AppError>)
    ensures
        r is Ok <==> local_metadata_ok(metadata),
        r matches Ok(m) ==> {
            &&& Some(crate::conflicts::opt_text(m.display_name_override)) == spec_normalize_optional(
                metadata.display_name_override,
                MAX_OVERRIDE_LENGTH,
            )
            &&& Some(crate::conflicts::opt_text(m.category_override)) == spec_normalize_optional(
                metadata.category_override,
                MAX_OVERRIDE_LENGTH,
            )
            &&& Some(crate::conflicts::opt_text(m.description_override)) == spec_normalize_optional(
                metadata.description_override,
                MAX_DESCRIPTION_LENGTH,
            )
            &&& Some(crate::conflicts::opt_text(m.notes)) == spec_normalize_optional(
                metadata.notes,
                MAX_NOTES_LENGTH,
            )
            &&& m.favorite == metadata.favorite
            &&& crate::conflicts::text_views(m.tags@) == dedup_tags(
                crate::conflicts::text_views(metadata.tags@),
            )
        },
        r matches Err(e) ==> e is ModMetadata,
{
    let ghost original = metadata;
    let display_name_override = normalize_optional(metadata.display_name_override, "本地显示名称", MAX_OVERRIDE_LENGTH)?;
    let category_override = normalize_optional(metadata.category_override, "本地分类", MAX_OVERRIDE_LENGTH)?;
    let description_override = normalize_optional(metadata.description_override, "本地描述", MAX_DESCRIPTION_LENGTH)?;
    let notes = normalize_optional(metadata.notes, "本地备注", MAX_NOTES_LENGTH)?;
    let kept = normalize_tags(metadata.tags)?;
    Ok(
        LocalModMetadata {
            display_name_override,
            category_override,
            description_override,
            favorite: metadata.favorite,
            notes,
            tags: kept,
        },
    )
}

/// No two kept tags share a lower case.
pub proof fn lemma_dedup_tags_distinct(tags: Seq<Seq<char>>)
    ensures
        forall|i: int, j: int|
            0 <= i < j < dedup_tags(tags).len() ==> unicode_lower(#[trigger] dedup_tags(tags)[i])
                != unicode_lower(#[trigger] dedup_tags(tags)[j]),
    decreases tags.len(),
{
    if tags.len() > 0 {
        lemma_dedup_tags_distinct(tags.drop_last());
        let rest = dedup_tags(tags.drop_last());
        let r = dedup_tags(tags);
        assert forall|i: int, j: int| 0 <= i < j < r.len() implies unicode_lower(#[trigger] r[i]) != unicode_lower(
            #[trigger] r[j],
        ) by {
            if j < rest.len() {
                assert(r[i] == rest[i] && r[j] == rest[j]);
            } else {
                assert(r[i] == rest[i]);
            }
        }
    }
}

// ---------------------------------------------------------------------------
// Stored forms
// ---------------------------------------------------------------------------
pub open spec fn lifecycle_text(value: ModLifecycleState) -> Seq<char> {
    match value {
        ModLifecycleState::Installing => "installing"@,
        ModLifecycleState::Installed => "installed"@,
        ModLifecycleState::Broken => "broken"@,
        ModLifecycleState::Removing => "removing"@,
    }
}

pub fn lifecycle_to_database(value: ModLifecycleState) -> (r: &'static str)
    ensures
        r@ == lifecycle_text(value),
{
    match value {
        ModLifecycleState::Installing => "installing",
        ModLifecycleState::Installed => "installed",
        ModLifecycleState::Broken => "broken",
        ModLifecycleState::Removing => "removing",
    }
}

pub fn lifecycle_from_database(value: &str) -> (r: Result<ModLifecycleState, AppError>)
    ensures
        r matches Ok(s) ==> lifecycle_text(s) == value@,
        r is Err ==> forall|s: ModLifecycleState| lifecycle_text(s) != value@,
        r matches Err(e) ==> e is DataIntegrity,
{
    let v = to_chars(value);
    if crate::text::chars_eq(v.as_slice(), to_chars("installing").as_slice()) {
        Ok(ModLifecycleState::Installing)
    } else if crate::text::chars_eq(v.as_slice(), to_chars("installed").as_slice()) {
        Ok(ModLifecycleState::Installed)
    } else if crate::text::chars_eq(v.as_slice(), to_chars("broken").as_slice()) {
        Ok(ModLifecycleState::Broken)
    } else if crate::text::chars_eq(v.as_slice(), to_chars("removing").as_slice()) {
        Ok(ModLifecycleState::Removing)
    } else {
        let m = concat_str(to_chars("未知的模组生命周期状态：").as_slice(), value);
        Err(AppError::DataIntegrity(from_chars(m.as_slice())))
    }
}

pub open spec fn metadata_source_text(value: MetadataSourceKind) -> Seq<char> {
    match value {
        MetadataSourceKind::ModJson => "mod_json"@,
        MetadataSourceKind::Inferred => "inferred"@,
    }
}

pub fn metadata_source_to_database(value: MetadataSourceKind) -> (r: &'static str)
    ensures
        r@ == metadata_source_text(value),
{
    match value {
        MetadataSourceKind::ModJson => "mod_json",
        MetadataSourceKind::Inferred => "inferred",
    }
}

pub fn metadata_source_from_database(value: &str) -> (r: Result<MetadataSourceKind, AppError>)
    ensures
        r matches Ok(s) ==> metadata_source_text(s) == value@,
        r is Err ==> forall|s: MetadataSourceKind| metadata_source_text(s) != value@,
        r matches Err(e) ==> e is DataIntegrity,
{
    let v = to_chars(value);
    if crate::text::chars_eq(v.as_slice(), to_chars("mod_json").as_slice()) {
        Ok(MetadataSourceKind::ModJson)
    } else if crate::text::chars_eq(v.as_slice(), to_chars("inferred").as_slice()) {
        Ok(MetadataSourceKind::Inferred)
    } else {
        let m = concat_str(to_chars("未知的元数据来源：").as_slice(), value);
        Err(AppError::DataIntegrity(from_chars(m.as_slice())))
    }
}

/// Reading a stored lifecycle state gives back what was written.
pub proof fn lemma_lifecycle_round_trip(value: ModLifecycleState, other: ModLifecycleState)
    ensures
        lifecycle_text(value) == lifecycle_text(other) ==> value == other,
{
    reveal_strlit("installing");
    reveal_strlit("installed");
    reveal_strlit("broken");
    reveal_strlit("removing");
    if value != other {
        assert(lifecycle_text(value).len() != lifecycle_text(other).len());
    }
}

/// An unsigned count as a SQLite integer.
pub fn checked_i64(value: u64, label: &str) -> (r: Result<i64, AppError>)
    ensures
        r matches Ok(v) ==> v == value,
        r is Err <==> value > i64::MAX,
        r matches Err(e) ==> e is DataIntegrity,
{
    if value > i64::MAX as u64 {
        let m = concat_str(to_chars(label).as_slice(), " exceeds SQLite integer range");
        return Err(AppError::DataIntegrity(from_chars(m.as_slice())));
    }
    Ok(value as i64)
}

/// A SQLite integer as an unsigned count.
pub fn non_negative_u64(value: i64, label: &str) -> (r: Result<u64, AppError>)
    ensures
        r matches Ok(v) ==> v == value,
        r is Err <==> value < 0,
        r matches Err(e) ==> e is DataIntegrity,
{
    if value < 0 {
        let m = concat_str(to_chars(label).as_slice(), " is negative in SQLite");
        return Err(AppError::DataIntegrity(from_chars(m.as_slice())));
    }
    Ok(value as u64)
}

/// Decimal digits of a signed number, with `-` when negative.
pub open spec fn signed_decimal(v: int) -> Seq<char> {
    if v < 0 {
        seq!['-'] + decimal((-v) as nat)
    } else {
        decimal(v as nat)
    }
}

fn signed_decimal_chars(v: i64) -> (r: Vec<char>)
    ensures
        r@ == signed_decimal(v as int),
{
    if v < 0 {
        let magnitude: u64 = if v == i64::MIN {
            9223372036854775808u64
        } else {
            (-v) as u64
        };
        let mut r: Vec<char> = Vec::new();
        r.push('-');
        let d = decimal_chars(magnitude);
        r.extend_from_slice(d.as_slice());
        proof {
            assert(r@ =~= seq!['-'] + decimal((-v) as nat));
        }
        r
    } else {
        decimal_chars(v as u64)
    }
}

/// A SQLite integer as a `u32`.
pub fn to_u32(value: i64, label: &str) -> (r: Result<u32, AppError>)
    ensures
        r matches Ok(v) ==> v == value,
        r is Err <==> value < 0 || value > u32::MAX,
        r matches Err(e) ==> e is DataIntegrity,
{
    if value < 0 || value > u32::MAX as i64 {
        let a = concat_str(to_chars(label).as_slice(), " 超出支持范围：");
        let b = concat(a.as_slice(), signed_decimal_chars(value).as_slice());
        return Err(AppError::DataIntegrity(from_chars(b.as_slice())));
    }
    Ok(value as u32)
}

} // verus!
