//! Scanning the repository: the issues a scan reports, the role of each
//! file, the reuse of cached hashes, the fingerprint of a mod's files and
//! the local identities given to folders that share an inferred id.
use vstd::prelude::*;
use crate::error::{msg, AppError};
use crate::ids::{blake3_hex, blake3_hex_chars, utf8_bytes};
use crate::ini_facts::{file_name, file_name_chars, path_extension, path_extension_chars};
use crate::metadata::{
    inferred_logical_id, spec_inferred_logical_id, FileSystemMetadataManager, MetadataSourceKind, ModFile,
};
use crate::path_safety::{storage_chars, storage_form};
use crate::text::{
    chars_eq, chars_eq_ic, concat, concat_str, copy_str, eq_ic, from_chars, lower_chars, lower_seq,
    to_chars, to_lowercase, unicode_lower,
};

verus! {

#[derive(Debug, Clone, Copy, PartialEq, Eq, Structural)]
pub enum ScanIssueLevel {
    Warning,
    Error,
}

/// Something a scan noticed, possibly about one repository folder.
#[derive(Debug, Clone)]
pub struct ScanIssue {
    pub level: ScanIssueLevel,
    pub repository_path: Option<String>,
    pub message: String,
}

impl ScanIssue {
    /// The message, behind `path: ` when the issue concerns a folder.
    pub fn display_message(&self) -> (r: String)
        ensures
            r@ == (match self.repository_path {
                Some(p) => p@ + ": "@ + self.message@,
                None => self.message@,
            }),
    {
        match &self.repository_path {
            Some(p) => {
                let a = concat_str(to_chars(p.as_str()).as_slice(), ": ");
                from_chars(concat_str(a.as_slice(), self.message.as_str()).as_slice())
            },
            None => copy_str(self.message.as_str()),
        }
    }
}

/// A hash remembered from an earlier scan.
#[derive(Debug, Clone)]
pub struct CachedModFile {
    pub size_bytes: u64,
    pub modified_at: i64,
    pub content_hash: String,
}

/// The scanner of the repository.
#[derive(Debug, Clone, Default)]
pub struct FileSystemModScanner {
    pub metadata: FileSystemMetadataManager,
}

impl FileSystemModScanner {
    pub fn new() -> (s: Self) {
        FileSystemModScanner { metadata: FileSystemMetadataManager::new() }
    }
}

/// The totals of one scan.
#[derive(Debug, Clone)]
pub struct ModScanResult {
    pub discovered: u64,
    pub added: u64,
    pub updated: u64,
    pub unchanged: u64,
    pub broken: u64,
    pub missing: u64,
    pub hashed_files: u64,
    pub reused_hashes: u64,
    pub skipped_entries: u64,
    pub duration_ms: u64,
    pub issues: Vec<String>,
}

/// A cached hash is reused when the file kept its size and modification
/// time.
pub fn reuse_cached_hash(cached: Option<&CachedModFile>, size_bytes: u64, modified_at: i64) -> (r: Option<String>)
    ensures
        r is Some <==> (match cached {
            Some(c) => c.size_bytes == size_bytes && c.modified_at == modified_at,
            None => false,
        }),
        r matches Some(h) ==> h@ == cached->0.content_hash@,
{
    match cached {
        Some(c) => if c.size_bytes == size_bytes && c.modified_at == modified_at {
            Some(copy_str(c.content_hash.as_str()))
        } else {
            None
        },
        None => None,
    }
}

// ---------------------------------------------------------------------------
// File roles
// ---------------------------------------------------------------------------
/// The role of a file: its manifest, or by extension a configuration, an
/// image, a texture, model data, or other content.
pub open spec fn spec_file_role(path: Seq<char>) -> Seq<char> {
    let is_manifest = match file_name(path) {
        Some(n) => eq_ic(n, "mod.json"@),
        None => false,
    };
    let ext = match path_extension(path) {
        Some(e) => lower_seq(e),
        None => Seq::empty(),
    };
    if is_manifest {
        "metadata"@
    } else if ext == "ini"@ {
        "configuration"@
    } else if ext == "png"@ || ext == "jpg"@ || ext == "jpeg"@ || ext == "webp"@ {
        "image"@
    } else if ext == "dds"@ {
        "texture"@
    } else if ext == "buf"@ || ext == "ib"@ || ext == "vb"@ {
        "model"@
    } else {
        "content"@
    }
}

fn is_word(s: &[char], w: &str) -> (b: bool)
    ensures
        b == (s@ == w@),
{
    chars_eq(s, to_chars(w).as_slice())
}

pub fn classify_file_role(path: &str) -> (r: String)
    ensures
        r@ == spec_file_role(path@),
{
    let p = to_chars(path);
    let is_manifest = match file_name_chars(p.as_slice()) {
        Some(n) => chars_eq_ic(n.as_slice(), to_chars("mod.json").as_slice()),
        None => false,
    };
    if is_manifest {
        return copy_str("metadata");
    }
    let ext = match path_extension_chars(p.as_slice()) {
        Some(e) => lower_chars(e.as_slice()),
        None => Vec::new(),
    };
    let e = ext.as_slice();
    if is_word(e, "ini") {
        copy_str("configuration")
    } else if is_word(e, "png") || is_word(e, "jpg") || is_word(e, "jpeg") || is_word(e, "webp") {
        copy_str("image")
    } else if is_word(e, "dds") {
        copy_str("texture")
    } else if is_word(e, "buf") || is_word(e, "ib") || is_word(e, "vb") {
        copy_str("model")
    } else {
        copy_str("content")
    }
}

// ---------------------------------------------------------------------------
// Fingerprints
// ---------------------------------------------------------------------------
/// The `count` low bytes of `n`, least significant first.
pub open spec fn le_bytes(n: nat, count: nat) -> Seq<u8>
    decreases count,
{
    if count == 0 {
        Seq::empty()
    } else {
        seq![(n % 256) as u8] + le_bytes(n / 256, (count - 1) as nat)
    }
}

fn le_bytes_exec(n: u64) -> (r: Vec<u8>)
    ensures
        r@ == le_bytes(n as nat, 8),
{
    let mut r: Vec<u8> = Vec::new();
    let mut v: u64 = n;
    let mut k: usize = 0;
    proof {
        assert(r@ + le_bytes(v as nat, 8) =~= le_bytes(n as nat, 8));
    }
    while k < 8
        invariant
            k <= 8,
            r@ + le_bytes(v as nat, (8 - k) as nat) == le_bytes(n as nat, 8),
        decreases 8 - k,
    {
        let b = (v % 256) as u8;
        let ghost before = r@;
        r.push(b);
        proof {
            assert(le_bytes(v as nat, (8 - k) as nat) == seq![b] + le_bytes((v / 256) as nat, (8 - k - 1) as nat));
            assert(r@ + le_bytes((v / 256) as nat, (8 - k - 1) as nat) =~= before + le_bytes(v as nat, (8 - k) as nat));
        }
        v = v / 256;
        k = k + 1;
    }
    proof {
        assert(r@ + le_bytes(v as nat, 0) =~= r@);
    }
    r
}

/// The bytes a mod's fingerprint is taken over: for each file, its path in
/// storage form, a zero byte, its size in eight little-endian bytes, a zero
/// byte, its hash (or `unreadable`) and a `0xff` byte.
pub open spec fn fingerprint_input(files: Seq<ModFile>) -> Seq<u8>
    decreases files.len(),
{
    if files.len() == 0 {
        Seq::empty()
    } else {
        let f = files.last();
        fingerprint_input(files.drop_last()) + vstd::utf8::encode_utf8(storage_form(f.source_path@)) + seq![0u8]
            + le_bytes(f.size_bytes as nat, 8) + seq![0u8] + (match f.content_hash {
            Some(h) => vstd::utf8::encode_utf8(h@),
            None => vstd::utf8::encode_utf8("unreadable"@),
        }) + seq![0xffu8]
    }
}

/// The fingerprint of a mod's files: the BLAKE3 digest of
/// `fingerprint_input` in hexadecimal.
pub fn fingerprint_files(files: &Vec<ModFile>) -> (r: String)
    ensures
        r@ == blake3_hex(fingerprint_input(files@)),
{
    let mut bytes: Vec<u8> = Vec::new();
    let mut k: usize = 0;
    proof {
        assert(files@.take(0) =~= Seq::<ModFile>::empty());
    }
    while k < files.len()
        invariant
            k <= files@.len(),
            bytes@ == fingerprint_input(files@.take(k as int)),
        decreases files@.len() - k,
    {
        let f = &files[k];
        let path = storage_chars(to_chars(f.source_path.as_str()).as_slice());
        let ghost before = bytes@;
        bytes.extend_from_slice(utf8_bytes(path.as_slice()).as_slice());
        bytes.push(0u8);
        bytes.extend_from_slice(le_bytes_exec(f.size_bytes).as_slice());
        bytes.push(0u8);
        let hash_bytes = match &f.content_hash {
            Some(h) => utf8_bytes(to_chars(h.as_str()).as_slice()),
            None => utf8_bytes(to_chars("unreadable").as_slice()),
        };
        bytes.extend_from_slice(hash_bytes.as_slice());
        bytes.push(0xffu8);
        proof {
            assert(files@.take(k + 1).drop_last() =~= files@.take(k as int));
            assert(files@.take(k + 1).last() == files@[k as int]);
            assert(bytes@ =~= fingerprint_input(files@.take(k + 1)));
        }
        k = k + 1;
    }
    proof {
        assert(files@.take(files@.len() as int) =~= files@);
    }
    let hex = blake3_hex_chars(bytes.as_slice());
    from_chars(hex.as_slice())
}

// ---------------------------------------------------------------------------
// Paths met within one mod
// ---------------------------------------------------------------------------
/// The lower-cased storage paths met so far in one mod.
#[derive(Debug)]
pub struct SeenPaths {
    pub keys: Vec<Vec<char>>,
}

impl SeenPaths {
    pub fn new() -> (s: SeenPaths)
        ensures
            s.keys@.len() == 0,
    {
        SeenPaths { keys: Vec::new() }
    }

    /// Records `storage_path`; false when a path equal to it regardless of
    /// case was met before.
    pub fn insert(&mut self, storage_path: &str) -> (fresh: bool)
        ensures
            fresh <==> !crate::order::views(old(self).keys@).contains(unicode_lower(storage_path@)),
            fresh ==> crate::order::views(final(self).keys@) == crate::order::views(old(self).keys@).push(
                unicode_lower(storage_path@),
            ),
            !fresh ==> final(self).keys@ == old(self).keys@,
    {
        let key = to_chars(to_lowercase(storage_path).as_str());
        let ghost v = crate::order::views(self.keys@);
        let mut i: usize = 0;
        while i < self.keys.len()
            invariant
                i <= self.keys@.len(),
                v == crate::order::views(self.keys@),
                key@ == unicode_lower(storage_path@),
                forall|j: int| 0 <= j < i ==> v[j] != key@,
            decreases self.keys@.len() - i,
        {
            if chars_eq(self.keys[i].as_slice(), key.as_slice()) {
                proof {
                    assert(v[i as int] == key@);
                }
                return false;
            }
            i = i + 1;
        }
        self.keys.push(key);
        proof {
            assert(crate::order::views(self.keys@) =~= v.push(unicode_lower(storage_path@)));
        }
        true
    }
}

// ---------------------------------------------------------------------------
// Shared inferred identities
// ---------------------------------------------------------------------------
/// What resolving identities needs of a scanned mod.
#[derive(Debug, Clone)]
pub struct ScannedIdentity {
    pub logical_id: String,
    pub source_kind: MetadataSourceKind,
    pub repository_key: String,
    pub issues: Vec<ScanIssue>,
}

/// Mod `i` shares its logical id (regardless of case) with another mod.
pub open spec fn shares_id(mods: Seq<ScannedIdentity>, i: int) -> bool {
    exists|j: int|
        0 <= j < mods.len() && j != i && unicode_lower(#[trigger] mods[j].logical_id@) == unicode_lower(
            mods[i].logical_id@,
        )
}

/// Some mod whose id is shared has an author manifest, or shares it with one.
pub open spec fn manifest_conflict(mods: Seq<ScannedIdentity>) -> bool {
    exists|i: int|
        0 <= i < mods.len() && shares_id(mods, i) && #[trigger] mods[i].source_kind == MetadataSourceKind::ModJson
}

pub open spec fn shared_identity_message() -> Seq<char> {
    "存在同名启用/禁用目录，已按实际目录分别建立本地身份。"@
}

fn lowered_ids(mods: &Vec<ScannedIdentity>) -> (r: Vec<Vec<char>>)
    ensures
        r@.len() == mods@.len(),
        forall|k: int| 0 <= k < r@.len() ==> #[trigger] r@[k]@ == unicode_lower(mods@[k].logical_id@),
{
    let mut r: Vec<Vec<char>> = Vec::new();
    let mut k: usize = 0;
    while k < mods.len()
        invariant
            k <= mods@.len(),
            r@.len() == k,
            forall|q: int| 0 <= q < k ==> #[trigger] r@[q]@ == unicode_lower(mods@[q].logical_id@),
        decreases mods@.len() - k,
    {
        r.push(to_chars(to_lowercase(mods[k].logical_id.as_str()).as_str()));
        k = k + 1;
    }
    r
}

fn sharing_flags(mods: &Vec<ScannedIdentity>) -> (r: Vec<bool>)
    ensures
        r@.len() == mods@.len(),
        forall|k: int| 0 <= k < r@.len() ==> #[trigger] r@[k] == shares_id(mods@, k),
{
    let low = lowered_ids(mods);
    let mut r: Vec<bool> = Vec::new();
    let mut i: usize = 0;
    while i < mods.len()
        invariant
            i <= mods@.len(),
            low@.len() == mods@.len(),
            forall|k: int| 0 <= k < low@.len() ==> #[trigger] low@[k]@ == unicode_lower(mods@[k].logical_id@),
            r@.len() == i,
            forall|k: int| 0 <= k < i ==> #[trigger] r@[k] == shares_id(mods@, k),
        decreases mods@.len() - i,
    {
        let mut found = false;
        let mut j: usize = 0;
        while j < mods.len()
            invariant
                j <= mods@.len(),
                i < mods@.len(),
                low@.len() == mods@.len(),
                forall|k: int| 0 <= k < low@.len() ==> #[trigger] low@[k]@ == unicode_lower(mods@[k].logical_id@),
                found <==> exists|q: int|
                    0 <= q < j && q != i && unicode_lower(#[trigger] mods@[q].logical_id@) == unicode_lower(
                        mods@[i as int].logical_id@,
                    ),
            decreases mods@.len() - j,
        {
            if j != i && chars_eq(low[j].as_slice(), low[i].as_slice()) {
                found = true;
            }
            j = j + 1;
        }
        r.push(found);
        i = i + 1;
    }
    r
}

/// Gives every mod whose inferred id is shared its own local identity, with
/// a warning; refuses when a shared id comes from an author manifest.
pub fn resolve_duplicate_logical_ids(mods: &mut Vec<ScannedIdentity>) -> (r: Result<(), AppError>)
    ensures
        r is Err <==> manifest_conflict(old(mods)@),
        r matches Err(e) ==> e is ModMetadata,
        r is Ok ==> final(mods)@.len() == old(mods)@.len() && forall|k: int|
            0 <= k < old(mods)@.len() ==> {
                let before = #[trigger] old(mods)@[k];
                let after = final(mods)@[k];
                if shares_id(old(mods)@, k) {
                    &&& after.logical_id@ == spec_inferred_logical_id(before.repository_key@)
                    &&& after.source_kind == before.source_kind
                    &&& after.repository_key == before.repository_key
                    &&& after.issues@.len() == before.issues@.len() + 1
                    &&& after.issues@.drop_last() == before.issues@
                    &&& after.issues@.last().level == ScanIssueLevel::Warning
                    &&& crate::conflicts::opt_text(after.issues@.last().repository_path) == Some(
                        before.repository_key@,
                    )
                    &&& after.issues@.last().message@ == shared_identity_message()
                } else {
                    after == before
                }
            },
{
    let ghost start = mods@;
    let flags = sharing_flags(mods);
    // Refuse first when a shared id belongs to an author manifest.
    let mut i: usize = 0;
    while i < mods.len()
        invariant
            i <= mods@.len(),
            mods@ == start,
            flags@.len() == start.len(),
            forall|k: int| 0 <= k < flags@.len() ==> #[trigger] flags@[k] == shares_id(start, k),
            forall|k: int| 0 <= k < i ==> !(shares_id(start, k) && #[trigger] start[k].source_kind
                == MetadataSourceKind::ModJson),
        decreases mods@.len() - i,
    {
        if flags[i] && mods[i].source_kind == MetadataSourceKind::ModJson {
            let paths = group_paths(mods, i);
            let a = concat_str(to_chars("模组目录 ").as_slice(), paths.as_str());
            let b = concat_str(a.as_slice(), " 使用了相同的作者 ID，请修正后重新扫描。");
            return Err(AppError::ModMetadata(from_chars(b.as_slice())));
        }
        i = i + 1;
    }
    let mut k: usize = 0;
    while k < mods.len()
        invariant
            k <= mods@.len(),
            mods@.len() == start.len(),
            flags@.len() == start.len(),
            forall|q: int| 0 <= q < flags@.len() ==> #[trigger] flags@[q] == shares_id(start, q),
            forall|q: int| k <= q < start.len() ==> #[trigger] mods@[q] == start[q],
            forall|q: int|
                0 <= q < k ==> {
                    let before = #[trigger] start[q];
                    let after = mods@[q];
                    if shares_id(start, q) {
                        &&& after.logical_id@ == spec_inferred_logical_id(before.repository_key@)
                        &&& after.source_kind == before.source_kind
                        &&& after.repository_key == before.repository_key
                        &&& after.issues@.len() == before.issues@.len() + 1
                        &&& after.issues@.drop_last() == before.issues@
                        &&& after.issues@.last().level == ScanIssueLevel::Warning
                        &&& crate::conflicts::opt_text(after.issues@.last().repository_path) == Some(
                            before.repository_key@,
                        )
                        &&& after.issues@.last().message@ == shared_identity_message()
                    } else {
                        after == before
                    }
                },
        decreases mods@.len() - k,
    {
        if flags[k] {
            let mut m = mods.remove(k);
            m.logical_id = inferred_logical_id(m.repository_key.as_str());
            let ghost issues_before = m.issues@;
            m.issues.push(
                ScanIssue {
                    level: ScanIssueLevel::Warning,
                    repository_path: Some(copy_str(m.repository_key.as_str())),
                    message: copy_str("存在同名启用/禁用目录，已按实际目录分别建立本地身份。"),
                },
            );
            proof {
                assert(m.issues@.drop_last() =~= issues_before);
            }
            mods.insert(k, m);
        }
        k = k + 1;
    }
    Ok(())
}

/// The storage forms of the repository keys of the mods whose lower-cased
/// id is `id`, in order.
pub open spec fn group_keys(mods: Seq<ScannedIdentity>, id: Seq<char>) -> Seq<Seq<char>>
    decreases mods.len(),
{
    if mods.len() == 0 {
        Seq::empty()
    } else {
        let rest = group_keys(mods.drop_last(), id);
        if unicode_lower(mods.last().logical_id@) == id {
            rest.push(storage_form(mods.last().repository_key@))
        } else {
            rest
        }
    }
}

/// The repository keys of the mods sharing the id of mod `i`, joined by `、`.
fn group_paths(mods: &Vec<ScannedIdentity>, i: usize) -> (r: String)
    requires
        i < mods@.len(),
    ensures
        r@ == crate::text::join_with(group_keys(mods@, unicode_lower(mods@[i as int].logical_id@)), '、'),
{
    let low = lowered_ids(mods);
    let ghost id = unicode_lower(mods@[i as int].logical_id@);
    let mut out: Vec<char> = Vec::new();
    let mut first = true;
    let mut j: usize = 0;
    proof {
        assert(mods@.take(0) =~= Seq::<ScannedIdentity>::empty());
    }
    while j < mods.len()
        invariant
            j <= mods@.len(),
            i < mods@.len(),
            low@.len() == mods@.len(),
            forall|k: int| 0 <= k < low@.len() ==> #[trigger] low@[k]@ == unicode_lower(mods@[k].logical_id@),
            id == unicode_lower(mods@[i as int].logical_id@),
            out@ == crate::text::join_with(group_keys(mods@.take(j as int), id), '、'),
            first == (group_keys(mods@.take(j as int), id).len() == 0),
        decreases mods@.len() - j,
    {
        let ghost before = out@;
        let ghost parts = group_keys(mods@.take(j as int), id);
        proof {
            let t = mods@.take(j + 1);
            assert(t.drop_last() =~= mods@.take(j as int));
            assert(t.last() == mods@[j as int]);
            assert(low@[j as int]@ == unicode_lower(mods@[j as int].logical_id@));
            assert(low@[i as int]@ == id);
        }
        if chars_eq(low[j].as_slice(), low[i].as_slice()) {
            if !first {
                out.push('、');
            }
            let key = crate::path_safety::storage_chars(to_chars(mods[j].repository_key.as_str()).as_slice());
            out = concat(out.as_slice(), key.as_slice());
            first = false;
            proof {
                let np = parts.push(storage_form(mods@[j as int].repository_key@));
                assert(group_keys(mods@.take(j + 1), id) == np);
                assert(np.drop_last() =~= parts);
                if parts.len() == 0 {
                    assert(out@ =~= np[0]);
                } else {
                    assert(out@ =~= before + seq!['、'] + np.last());
                }
            }
        }
        j = j + 1;
    }
    proof {
        assert(mods@.take(mods@.len() as int) =~= mods@);
    }
    from_chars(out.as_slice())
}

} // verus!
