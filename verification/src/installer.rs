//! Installing a mod: the staging area, the names a new mod folder may take,
//! the issues that block an install and the journal of an install in
//! progress.
use vstd::prelude::*;
use crate::archive::{replaced_name, trailing_dots, unsafe_name_char, utf16_len, ExtractionPolicy};
use crate::error::{msg, AppError};
use crate::ids::{blake3_hex, blake3_hex_chars, decimal, decimal_chars, uuid_chars, uuid_text, utf8_bytes};
use crate::ini_facts::{after_last_dot, file_name, file_name_chars};
use crate::metadata::{ModLifecycleState, MetadataSourceKind};
use crate::names::byte_len;
use crate::path_safety::valid_relative;
use crate::repository::{direct_child_path, repository_path_ok, RepositoryRelativePath, RepositoryRoot};
use crate::scanner::FileSystemModScanner;
use crate::text::{
    chars_eq, chars_eq_ic, concat, concat_str, copy_str, eq_ic, from_chars, is_control, slice_subrange,
    slice_to_vec, to_chars, to_lowercase, trim, trim_chars, unicode_lower,
};

verus! {

pub const OPERATION_MARKER_FILE: &'static str = ".aemm-operation.json";
pub const STAGING_MARKER_FILE: &'static str = ".aemm-staging.json";

#[derive(Debug, Clone, Copy, PartialEq, Eq, Structural)]
pub enum StagingInitializationPolicy {
    EmptyOnly,
    TrustedAemmDefault,
}

/// The staging area, by its canonical path.
#[derive(Debug, Clone)]
pub struct StagingRoot {
    pub canonical_path: String,
}

impl StagingRoot {
    pub fn from_canonical(canonical_path: String) -> (r: StagingRoot)
        ensures
            r.canonical_path == canonical_path,
    {
        StagingRoot { canonical_path }
    }

    pub fn path(&self) -> (r: &str)
        ensures
            r@ == self.canonical_path@,
    {
        self.canonical_path.as_str()
    }
}

/// A record file of an install operation must be a plain name other than
/// the operation's marker.
pub open spec fn operation_file_name_ok(name: Seq<char>) -> bool {
    name.len() > 0 && !name.contains('/') && !name.contains('\\') && !name.contains('\0') && name
        != ".aemm-operation.json"@
}

pub fn validate_operation_file_name(file_name: &str) -> (r: Result<(), AppError>)
    ensures
        r is Ok <==> operation_file_name_ok(file_name@),
        r matches Err(e) ==> e is UnsafePath,
{
    let n = to_chars(file_name);
    if n.len() == 0 || crate::text::chars_contain(n.as_slice(), '/') || crate::text::chars_contain(
        n.as_slice(),
        '\\',
    ) || crate::text::chars_contain(n.as_slice(), '\0') || chars_eq(
        n.as_slice(),
        to_chars(OPERATION_MARKER_FILE).as_slice(),
    ) {
        return Err(AppError::UnsafePath(msg("安装操作记录文件名无效。")));
    }
    proof {
        assert(!n@.contains('/') && !n@.contains('\\') && !n@.contains('\0'));
    }
    Ok(())
}

/// The identity of a mod already in the repository.
#[derive(Debug, Clone)]
pub struct ExistingModIdentity {
    pub logical_id: String,
    pub name: String,
    pub repository_path: String,
    pub content_fingerprint: Option<String>,
    pub lifecycle_state: ModLifecycleState,
}

/// A request to prepare the import of a mod from an archive or a folder.
#[derive(Debug, Clone)]
pub struct PrepareModImport {
    pub source_path: String,
}

/// The stages that import progress reports name.
#[derive(Debug, Clone, Copy, PartialEq, Eq, Structural)]
pub enum ModInstallProgressStage {
    Inspecting,
    Extracting,
    Analyzing,
    Ready,
    Committing,
    Synchronizing,
    RollingBack,
    Completed,
}

/// The stages an install passes through.
#[derive(Debug, Clone, Copy, PartialEq, Eq, Structural)]
pub enum InstallJournalState {
    Prepared,
    Committing,
    RepositoryCommitted,
    DatabaseSynced,
}

/// The installer: the repository, the staging area, the scanner and the
/// extraction policy it works with.
#[derive(Debug, Clone)]
pub struct SafeModInstaller {
    pub repository: RepositoryRoot,
    pub staging: StagingRoot,
    pub scanner: FileSystemModScanner,
    pub extraction_policy: ExtractionPolicy,
}

impl SafeModInstaller {
    /// An installer with the default extraction policy.
    pub fn new(repository: RepositoryRoot, staging: StagingRoot) -> (i: Self)
        ensures
            i.repository == repository,
            i.staging == staging,
            i.extraction_policy.max_entries == 20000,
            i.extraction_policy.max_total_bytes == 2147483648,
            i.extraction_policy.max_file_bytes == 536870912,
            i.extraction_policy.max_compression_ratio == 1000,
            i.extraction_policy.max_path_length == 1024,
            i.extraction_policy.max_path_components == 64,
    {
        SafeModInstaller {
            repository,
            staging,
            scanner: FileSystemModScanner::new(),
            extraction_policy: ExtractionPolicy::default(),
        }
    }

    /// The same installer with another extraction policy.
    pub fn with_policy(self, policy: ExtractionPolicy) -> (i: Self)
        ensures
            i.repository == self.repository,
            i.staging == self.staging,
            i.extraction_policy == policy,
    {
        SafeModInstaller { extraction_policy: policy, ..self }
    }
}

// ---------------------------------------------------------------------------
// Names
// ---------------------------------------------------------------------------
/// `Path::file_stem`: the file name without its extension.
pub open spec fn file_stem(path: Seq<char>) -> Option<Seq<char>> {
    match file_name(path) {
        Some(n) => {
            let k = after_last_dot(n);
            Some(if k <= 1 {
                n
            } else {
                n.take(k - 1)
            })
        },
        None => None,
    }
}

/// The name an inferred mod is given from its source: the stem of the
/// source's name (or `Imported Mod` when blank), trimmed, at most 512
/// characters.
pub open spec fn spec_source_stem(source_name: Seq<char>) -> Seq<char> {
    let v = match file_stem(source_name) {
        Some(s) => if trim(s).len() > 0 {
            s
        } else {
            "Imported Mod"@
        },
        None => "Imported Mod"@,
    };
    let t = trim(v);
    t.take(if t.len() < 512 {
        t.len() as int
    } else {
        512
    })
}

pub fn source_stem(source_name: &str) -> (r: String)
    ensures
        r@ == spec_source_stem(source_name@),
{
    let chars = to_chars(source_name);
    let stem: Option<Vec<char>> = match file_name_chars(chars.as_slice()) {
        Some(n) => {
            let k = crate::ini_facts::last_dot_end(n.as_slice());
            proof {
                crate::ini_facts::lemma_after_last_dot(n@);
            }
            if k <= 1 {
                Some(n)
            } else {
                Some(slice_to_vec(slice_subrange(n.as_slice(), 0, k - 1)))
            }
        },
        None => None,
    };
    let v = match stem {
        Some(s) => if trim_chars(s.as_slice()).len() > 0 {
            s
        } else {
            to_chars("Imported Mod")
        },
        None => to_chars("Imported Mod"),
    };
    let t = trim_chars(v.as_slice());
    let keep = if t.len() < 512 {
        t.len()
    } else {
        512
    };
    from_chars(slice_subrange(t.as_slice(), 0, keep))
}

/// The repository folder name for a mod id: unsafe characters become `_`;
/// trimmed, without trailing dots and spaces; a name longer than 96 UTF-16
/// units keeps its first 80 characters; an empty or unsafe result becomes
/// `mod-` and the first 16 hexadecimal digits of the BLAKE3 digest of the id.
pub open spec fn spec_safe_destination_name(value: Seq<char>) -> Seq<char> {
    let t0 = trim(replaced_name(value));
    let t = t0.take(t0.len() - trailing_dots(t0));
    let b = if utf16_len(t) > 96 {
        t.take(if t.len() < 80 {
            t.len() as int
        } else {
            80
        })
    } else {
        t
    };
    if b.len() > 0 && valid_relative(b) {
        b
    } else {
        "mod-"@ + blake3_hex(vstd::utf8::encode_utf8(value)).take(16)
    }
}

proof fn lemma_trailing_dots_bound(s: Seq<char>)
    ensures
        trailing_dots(s) <= s.len(),
    decreases s.len(),
{
    if s.len() > 0 && (s.last() == '.' || s.last() == ' ') {
        lemma_trailing_dots_bound(s.drop_last());
    }
}

pub fn safe_destination_name(value: &str) -> (r: String)
    ensures
        r@ == spec_safe_destination_name(value@),
{
    let chars = to_chars(value);
    let mut replaced: Vec<char> = Vec::new();
    let mut i: usize = 0;
    while i < chars.len()
        invariant
            i <= chars@.len(),
            replaced@ =~= replaced_name(chars@.take(i as int)),
        decreases chars@.len() - i,
    {
        let c = chars[i];
        let unsafe_char = is_control(c) || c == '<' || c == '>' || c == ':' || c == '"' || c == '/' || c
            == '\\' || c == '|' || c == '?' || c == '*';
        replaced.push(if unsafe_char { '_' } else { c });
        i = i + 1;
    }
    proof {
        assert(chars@.take(chars@.len() as int) =~= chars@);
    }
    let t0 = trim_chars(replaced.as_slice());
    let ghost tv = t0@;
    let mut n = t0.len();
    proof {
        lemma_trailing_dots_bound(tv);
        assert(tv.take(n as int) =~= tv);
    }
    while n > 0 && (t0[n - 1] == '.' || t0[n - 1] == ' ')
        invariant
            n <= tv.len(),
            tv == t0@,
            trailing_dots(tv) == trailing_dots(tv.take(n as int)) + (tv.len() - n),
        decreases n,
    {
        proof {
            assert(tv.take(n as int).drop_last() =~= tv.take(n - 1));
        }
        n = n - 1;
    }
    let mut name = slice_to_vec(slice_subrange(t0.as_slice(), 0, n));
    if !crate::archive::utf16_within(name.as_slice(), 96) {
        let keep = if name.len() < 80 {
            name.len()
        } else {
            80
        };
        name = slice_to_vec(slice_subrange(name.as_slice(), 0, keep));
    }
    if name.len() > 0 && crate::path_safety::is_valid_relative(name.as_slice()) {
        return from_chars(name.as_slice());
    }
    let hex = blake3_hex_chars(utf8_bytes(chars.as_slice()).as_slice());
    from_chars(concat(to_chars("mod-").as_slice(), slice_subrange(hex.as_slice(), 0, 16)).as_slice())
}

/// `str::get(..n)` or the whole string: the characters before byte `n` when
/// that is a character boundary, else all of `s`.
pub open spec fn byte_prefix(s: Seq<char>, n: nat) -> Seq<char> {
    if exists|k: int| 0 <= k <= s.len() && byte_len(#[trigger] s.take(k)) == n {
        s.take(choose|k: int| 0 <= k <= s.len() && byte_len(#[trigger] s.take(k)) == n)
    } else {
        s
    }
}

fn byte_prefix_chars(s: &[char], n: usize) -> (r: Vec<char>)
    ensures
        r@ == byte_prefix(s@, n as nat),
{
    let mut total: usize = 0;
    let mut i: usize = 0;
    proof {
        assert(s@.take(0) =~= Seq::<char>::empty());
    }
    while i < s.len() && total < n
        invariant
            i <= s.len(),
            total == byte_len(s@.take(i as int)),
            total <= n,
            forall|k: int| 0 <= k < i ==> byte_len(#[trigger] s@.take(k)) < n,
        decreases s.len() - i,
    {
        let c = s[i];
        let w: usize = if (c as u32) < 0x80 {
            1
        } else if (c as u32) < 0x800 {
            2
        } else if (c as u32) < 0x10000 {
            3
        } else {
            4
        };
        proof {
            assert(s@.take(i + 1).drop_last() =~= s@.take(i as int));
            assert(s@.take(i + 1).last() == c);
        }
        if w > n - total {
            // Byte `n` falls inside this character: no boundary there.
            proof {
                assert forall|k: int| 0 <= k <= s@.len() implies byte_len(#[trigger] s@.take(k)) != n by {
                    if k <= i {
                        if k < i {
                        }
                    } else {
                        crate::names::lemma_byte_len_take_mono(s@, i + 1, k);
                    }
                }
            }
            return slice_to_vec(s);
        }
        total = total + w;
        i = i + 1;
    }
    if total == n {
        proof {
            let k = choose|k: int| 0 <= k <= s@.len() && byte_len(#[trigger] s@.take(k)) == n;
            if k < i {
            } else if k > i {
                crate::names::lemma_byte_len_take_mono(s@, i as int, k);
            }
        }
        slice_to_vec(slice_subrange(s, 0, i))
    } else {
        proof {
            assert forall|k: int| 0 <= k <= s@.len() implies byte_len(#[trigger] s@.take(k)) != n by {
                if k < i {
                } else if k == i {
                } else {
                    assert(false);
                }
            }
            assert(s@.take(s@.len() as int) =~= s@);
        }
        slice_to_vec(s)
    }
}

/// The names a mod folder may take, in order: the safe base name, the base
/// with `-` and the first 8 bytes of the fingerprint, then that name with
/// `-2` up to `-999`.
pub open spec fn destination_candidate(base: Seq<char>, fingerprint: Seq<char>, j: int) -> Seq<char> {
    let suffixed = base + seq!['-'] + byte_prefix(fingerprint, 8);
    if j == 0 {
        base
    } else if j == 1 {
        suffixed
    } else {
        suffixed + seq!['-'] + decimal(j as nat)
    }
}

/// No occupied name equals `name` regardless of case.
pub open spec fn name_free(occupied: Seq<String>, name: Seq<char>) -> bool {
    forall|k: int| 0 <= k < occupied.len() ==> unicode_lower(#[trigger] occupied[k]@) != unicode_lower(name)
}

fn is_free(occupied: &Vec<String>, occupied_lower: &Vec<Vec<char>>, name: &[char]) -> (b: bool)
    requires
        occupied_lower@.len() == occupied@.len(),
        forall|q: int| 0 <= q < occupied@.len() ==> #[trigger] occupied_lower@[q]@ == unicode_lower(occupied@[q]@),
    ensures
        b == name_free(occupied@, name@),
{
    let low = to_chars(to_lowercase(from_chars(name).as_str()).as_str());
    let mut k: usize = 0;
    while k < occupied_lower.len()
        invariant
            k <= occupied_lower@.len(),
            occupied_lower@.len() == occupied@.len(),
            forall|q: int| 0 <= q < occupied@.len() ==> #[trigger] occupied_lower@[q]@ == unicode_lower(occupied@[q]@),
            low@ == unicode_lower(name@),
            forall|q: int| 0 <= q < k ==> unicode_lower(#[trigger] occupied@[q]@) != unicode_lower(name@),
        decreases occupied_lower@.len() - k,
    {
        if chars_eq(occupied_lower[k].as_slice(), low.as_slice()) {
            proof {
                assert(occupied_lower@[k as int]@ == unicode_lower(occupied@[k as int]@));
            }
            return false;
        }
        proof {
            assert(occupied_lower@[k as int]@ == unicode_lower(occupied@[k as int]@));
        }
        k = k + 1;
    }
    true
}

/// Chooses the repository folder of a new mod: the first candidate name
/// (see `destination_candidate`) that no entry of the repository
/// (`occupied`) already takes regardless of case.
pub fn choose_destination_name(occupied: &Vec<String>, logical_id: &str, fingerprint: &str) -> (r: Result<
    String,
    AppError,
>)
    ensures
        ({
            let base = spec_safe_destination_name(logical_id@);
            &&& r matches Ok(n) ==> exists|j: int|
                0 <= j < 1000 && n@ == destination_candidate(base, fingerprint@, j) && name_free(occupied@, n@)
                    && forall|i: int| 0 <= i < j ==> !name_free(
                    occupied@,
                    #[trigger] destination_candidate(base, fingerprint@, i),
                )
            &&& r is Err <==> forall|j: int| 0 <= j < 1000 ==> !name_free(
                occupied@,
                #[trigger] destination_candidate(base, fingerprint@, j),
            )
            &&& r matches Err(e) ==> e is ModInstall
        }),
{
    let mut lowered: Vec<Vec<char>> = Vec::new();
    let mut k: usize = 0;
    while k < occupied.len()
        invariant
            k <= occupied@.len(),
            lowered@.len() == k,
            forall|q: int| 0 <= q < k ==> #[trigger] lowered@[q]@ == unicode_lower(occupied@[q]@),
        decreases occupied@.len() - k,
    {
        lowered.push(to_chars(to_lowercase(occupied[k].as_str()).as_str()));
        k = k + 1;
    }
    let ghost base_spec = spec_safe_destination_name(logical_id@);
    let base = to_chars(safe_destination_name(logical_id).as_str());
    proof {
        assert(forall|q: int| 0 <= q < occupied@.len() ==> #[trigger] lowered@[q]@ == unicode_lower(occupied@[q]@));
    }
    if is_free(occupied, &lowered, base.as_slice()) {
        let n = from_chars(base.as_slice());
        proof {
            assert(base@ == destination_candidate(base_spec, fingerprint@, 0));
            assert(n@ == destination_candidate(base_spec, fingerprint@, 0) && name_free(occupied@, n@));
        }
        return Ok(n);
    }
    let fp = byte_prefix_chars(to_chars(fingerprint).as_slice(), 8);
    let mut suffixed = slice_to_vec(base.as_slice());
    suffixed.push('-');
    let suffixed = concat(suffixed.as_slice(), fp.as_slice());
    proof {
        assert(!name_free(occupied@, destination_candidate(base_spec, fingerprint@, 0)));
        assert(suffixed@ =~= base_spec + seq!['-'] + byte_prefix(fingerprint@, 8));
    }
    if is_free(occupied, &lowered, suffixed.as_slice()) {
        let n = from_chars(suffixed.as_slice());
        proof {
            assert(suffixed@ == destination_candidate(base_spec, fingerprint@, 1));
            assert(n@ == destination_candidate(base_spec, fingerprint@, 1) && name_free(occupied@, n@));
            assert(forall|i: int| 0 <= i < 1 ==> !name_free(
                occupied@,
                #[trigger] destination_candidate(base_spec, fingerprint@, i),
            ));
        }
        return Ok(n);
    }
    let mut index: u64 = 2;
    while index <= 999
        invariant
            2 <= index <= 1000,
            base_spec == spec_safe_destination_name(logical_id@),
            base@ == base_spec,
            suffixed@ == base_spec + seq!['-'] + byte_prefix(fingerprint@, 8),
            lowered@.len() == occupied@.len(),
            forall|q: int| 0 <= q < occupied@.len() ==> #[trigger] lowered@[q]@ == unicode_lower(occupied@[q]@),
            forall|i: int| 0 <= i < index ==> !name_free(
                occupied@,
                #[trigger] destination_candidate(base_spec, fingerprint@, i),
            ),
        decreases 1000 - index,
    {
        let mut candidate = slice_to_vec(suffixed.as_slice());
        candidate.push('-');
        let candidate = concat(candidate.as_slice(), decimal_chars(index).as_slice());
        proof {
            assert(candidate@ =~= destination_candidate(base_spec, fingerprint@, index as int));
        }
        if is_free(occupied, &lowered, candidate.as_slice()) {
            let n = from_chars(candidate.as_slice());
            proof {
                let j = index as int;
                assert(n@ == destination_candidate(base_spec, fingerprint@, j) && name_free(occupied@, n@));
            }
            return Ok(n);
        }
        index = index + 1;
    }
    Err(AppError::ModInstall(msg("无法为模组生成唯一的仓库目录名称。")))
}

// ---------------------------------------------------------------------------
// Blocking issues and messages
// ---------------------------------------------------------------------------
pub open spec fn lifecycle_debug(s: ModLifecycleState) -> Seq<char> {
    match s {
        ModLifecycleState::Installing => "Installing"@,
        ModLifecycleState::Installed => "Installed"@,
        ModLifecycleState::Broken => "Broken"@,
        ModLifecycleState::Removing => "Removing"@,
    }
}

fn lifecycle_debug_text(s: ModLifecycleState) -> (r: &'static str)
    ensures
        r@ == lifecycle_debug(s),
{
    match s {
        ModLifecycleState::Installing => "Installing",
        ModLifecycleState::Installed => "Installed",
        ModLifecycleState::Broken => "Broken",
        ModLifecycleState::Removing => "Removing",
    }
}

/// What blocks installing a candidate: every existing mod with the same id
/// (regardless of ASCII case), and every one with the same content.
pub open spec fn blocking_issues(logical_id: Seq<char>, fingerprint: Seq<char>, existing: Seq<ExistingModIdentity>) -> Seq<
    Seq<char>,
>
    decreases existing.len(),
{
    if existing.len() == 0 {
        Seq::empty()
    } else {
        let rest = blocking_issues(logical_id, fingerprint, existing.drop_last());
        let e = existing.last();
        let a = if eq_ic(e.logical_id@, logical_id) {
            seq!["已存在相同模组 ID："@ + e.logical_id@ + "（状态："@ + lifecycle_debug(e.lifecycle_state) + "）。"@]
        } else {
            Seq::empty()
        };
        let b = if crate::conflicts::opt_text(e.content_fingerprint) == Some(fingerprint) {
            seq!["仓库中的 "@ + e.name@ + " 与待安装内容完全相同。"@]
        } else {
            Seq::empty()
        };
        rest + a + b
    }
}

pub fn duplicate_blocking_issues(logical_id: &str, fingerprint: &str, existing: &Vec<ExistingModIdentity>) -> (r: Vec<
    String,
>)
    ensures
        crate::conflicts::text_views(r@) == blocking_issues(logical_id@, fingerprint@, existing@),
{
    let id = to_chars(logical_id);
    let fp = to_chars(fingerprint);
    let mut issues: Vec<String> = Vec::new();
    let mut k: usize = 0;
    proof {
        assert(existing@.take(0) =~= Seq::<ExistingModIdentity>::empty());
        assert(crate::conflicts::text_views(issues@) =~= Seq::<Seq<char>>::empty());
    }
    while k < existing.len()
        invariant
            k <= existing@.len(),
            id@ == logical_id@,
            fp@ == fingerprint@,
            crate::conflicts::text_views(issues@) == blocking_issues(logical_id@, fingerprint@, existing@.take(k as int)),
        decreases existing@.len() - k,
    {
        let e = &existing[k];
        let ghost before = crate::conflicts::text_views(issues@);
        proof {
            assert(existing@.take(k + 1).drop_last() =~= existing@.take(k as int));
            assert(existing@.take(k + 1).last() == existing@[k as int]);
        }
        let same_id = chars_eq_ic(to_chars(e.logical_id.as_str()).as_slice(), id.as_slice());
        let ghost a: Seq<Seq<char>> = if same_id {
            seq!["已存在相同模组 ID："@ + e.logical_id@ + "（状态："@ + lifecycle_debug(e.lifecycle_state) + "）。"@]
        } else {
            Seq::empty()
        };
        if same_id {
            let m1 = concat_str(to_chars("已存在相同模组 ID：").as_slice(), e.logical_id.as_str());
            let m2 = concat_str(m1.as_slice(), "（状态：");
            let m3 = concat_str(m2.as_slice(), lifecycle_debug_text(e.lifecycle_state));
            let m4 = concat_str(m3.as_slice(), "）。");
            issues.push(from_chars(m4.as_slice()));
            proof {
                assert(crate::conflicts::text_views(issues@) =~= before + a);
            }
        } else {
            proof {
                assert(crate::conflicts::text_views(issues@) =~= before + a);
            }
        }
        let same_content = match &e.content_fingerprint {
            Some(f) => chars_eq(to_chars(f.as_str()).as_slice(), fp.as_slice()),
            None => false,
        };
        let ghost mid = crate::conflicts::text_views(issues@);
        if same_content {
            let n1 = concat_str(to_chars("仓库中的 ").as_slice(), e.name.as_str());
            let n2 = concat_str(n1.as_slice(), " 与待安装内容完全相同。");
            issues.push(from_chars(n2.as_slice()));
            proof {
                assert(crate::conflicts::text_views(issues@) =~= mid + seq!["仓库中的 "@ + e.name@ + " 与待安装内容完全相同。"@]);
            }
        } else {
            proof {
                assert(crate::conflicts::text_views(issues@) =~= mid + Seq::<Seq<char>>::empty());
            }
        }
        k = k + 1;
    }
    proof {
        assert(existing@.take(existing@.len() as int) =~= existing@);
    }
    issues
}

/// Messages, each kept only when no earlier kept one has the same lower
/// case.
pub open spec fn dedup_lower(messages: Seq<Seq<char>>) -> Seq<Seq<char>>
    decreases messages.len(),
{
    if messages.len() == 0 {
        Seq::empty()
    } else {
        let rest = dedup_lower(messages.drop_last());
        let m = messages.last();
        if exists|k: int| 0 <= k < rest.len() && unicode_lower(#[trigger] rest[k]) == unicode_lower(m) {
            rest
        } else {
            rest.push(m)
        }
    }
}

/// Dropping repeated messages leaves some message exactly when there was
/// one.
pub proof fn lemma_dedup_lower_empty(messages: Seq<Seq<char>>)
    ensures
        (dedup_lower(messages).len() == 0) == (messages.len() == 0),
    decreases messages.len(),
{
    if messages.len() > 0 {
        lemma_dedup_lower_empty(messages.drop_last());
    }
}

/// Removes every message equal to an earlier one regardless of case.
pub fn deduplicate_messages(messages: &mut Vec<String>)
    ensures
        crate::conflicts::text_views(final(messages)@) == dedup_lower(crate::conflicts::text_views(old(messages)@)),
{
    let ghost mv = crate::conflicts::text_views(messages@);
    let mut kept: Vec<String> = Vec::new();
    let mut lowered: Vec<Vec<char>> = Vec::new();
    let mut k: usize = 0;
    proof {
        assert(mv.take(0) =~= Seq::<Seq<char>>::empty());
        assert(crate::conflicts::text_views(kept@) =~= Seq::<Seq<char>>::empty());
    }
    while k < messages.len()
        invariant
            k <= messages@.len(),
            mv == crate::conflicts::text_views(messages@),
            crate::conflicts::text_views(kept@) == dedup_lower(mv.take(k as int)),
            lowered@.len() == kept@.len(),
            forall|q: int| 0 <= q < kept@.len() ==> #[trigger] lowered@[q]@ == unicode_lower(kept@[q]@),
        decreases messages@.len() - k,
    {
        let t = to_chars(messages[k].as_str());
        proof {
            assert(mv.take(k + 1).drop_last() =~= mv.take(k as int));
            assert(mv.take(k + 1).last() == t@);
        }
        let low = to_chars(to_lowercase(messages[k].as_str()).as_str());
        let mut seen = false;
        let mut q: usize = 0;
        while q < lowered.len()
            invariant
                q <= lowered@.len(),
                lowered@.len() == kept@.len(),
                forall|j: int| 0 <= j < kept@.len() ==> #[trigger] lowered@[j]@ == unicode_lower(kept@[j]@),
                low@ == unicode_lower(t@),
                seen <==> exists|j: int| 0 <= j < q && unicode_lower(#[trigger] kept@[j]@) == unicode_lower(t@),
            decreases lowered@.len() - q,
        {
            if chars_eq(lowered[q].as_slice(), low.as_slice()) {
                seen = true;
            }
            q = q + 1;
        }
        let ghost before = kept@;
        proof {
            let rest = dedup_lower(mv.take(k as int));
            assert(rest == crate::conflicts::text_views(before));
            assert((exists|j: int| 0 <= j < rest.len() && unicode_lower(#[trigger] rest[j]) == unicode_lower(t@))
                == seen) by {
                if seen {
                    let j = choose|j: int| 0 <= j < kept@.len() && unicode_lower(#[trigger] kept@[j]@) == unicode_lower(t@);
                    assert(rest[j] == kept@[j]@);
                }
                if exists|j: int| 0 <= j < rest.len() && unicode_lower(#[trigger] rest[j]) == unicode_lower(t@) {
                    let j = choose|j: int| 0 <= j < rest.len() && unicode_lower(#[trigger] rest[j]) == unicode_lower(t@);
                    assert(rest[j] == kept@[j]@);
                }
            }
        }
        if !seen {
            kept.push(from_chars(t.as_slice()));
            lowered.push(low);
            proof {
                assert(crate::conflicts::text_views(kept@) =~= crate::conflicts::text_views(before).push(t@));
            }
        }
        k = k + 1;
    }
    proof {
        assert(mv.take(mv.len() as int) =~= mv);
    }
    *messages = kept;
}

// ---------------------------------------------------------------------------
// The install journal
// ---------------------------------------------------------------------------
pub const INSTALL_JOURNAL_VERSION: u32 = 1;

/// A journal read back for an operation is acceptable: the current version,
/// the operation's id throughout, a direct repository folder as destination
/// and a safe relative candidate path.
pub fn validate_journal(
    schema_version: u32,
    journal_operation_id: u128,
    plan_operation_id: u128,
    destination_relative_path: &str,
    candidate_relative_path: &str,
    operation_id: u128,
) -> (r: Result<(), AppError>)
    ensures
        r is Ok <==> schema_version == INSTALL_JOURNAL_VERSION && journal_operation_id == operation_id
            && plan_operation_id == operation_id && repository_path_ok(destination_relative_path@)
            && direct_child_path(destination_relative_path@) && valid_relative(candidate_relative_path@),
        r matches Err(e) ==> (if schema_version != INSTALL_JOURNAL_VERSION || journal_operation_id
            != operation_id || plan_operation_id != operation_id {
            e is DataIntegrity
        } else {
            e is UnsafePath
        }),
{
    if schema_version != INSTALL_JOURNAL_VERSION || journal_operation_id != operation_id || plan_operation_id
        != operation_id {
        return Err(AppError::DataIntegrity(msg("安装操作日志版本或 ID 不一致。")));
    }
    let destination = RepositoryRelativePath::new(destination_relative_path)?;
    if !destination.is_direct_child() {
        return Err(AppError::UnsafePath(msg("安装日志中的仓库目标不是直属模组目录。")));
    }
    crate::path_safety::validate_relative_path(candidate_relative_path)
}

/// The repository path an install copies into before it is renamed.
pub open spec fn partial_name(operation_id: u128) -> Seq<char> {
    ".aemm-install-"@ + uuid_text(operation_id) + ".partial"@
}

pub fn partial_relative_path(operation_id: u128) -> (r: Result<RepositoryRelativePath, AppError>)
    ensures
        r is Ok <==> repository_path_ok(partial_name(operation_id)),
        r matches Ok(p) ==> p.path@ == partial_name(operation_id),
        r matches Err(e) ==> e is UnsafePath,
{
    let a = concat(to_chars(".aemm-install-").as_slice(), uuid_chars(operation_id).as_slice());
    let b = concat_str(a.as_slice(), ".partial");
    let name = from_chars(b.as_slice());
    RepositoryRelativePath::new(name.as_str())
}

/// A rename failed because source and destination lie on different volumes.
pub fn is_cross_volume_error(crosses_devices: bool, raw_os_error: Option<i32>) -> (b: bool)
    ensures
        b == (crosses_devices || raw_os_error == Some(17i32)),
{
    crosses_devices || match raw_os_error {
        Some(code) => code == 17,
        None => false,
    }
}

/// The identity an inferred candidate receives: `local.` and the first 20
/// bytes of its fingerprint, named after its source.
pub fn inferred_identity(fingerprint: &str, source_stem: &str) -> (r: (String, String))
    ensures
        r.0@ == "local."@ + byte_prefix(fingerprint@, 20),
        r.1@ == source_stem@,
{
    let fp = byte_prefix_chars(to_chars(fingerprint).as_slice(), 20);
    (from_chars(concat(to_chars("local.").as_slice(), fp.as_slice()).as_slice()), copy_str(source_stem))
}


// ---------------------------------------------------------------------------
// Plan assembly and checks before commit
// ---------------------------------------------------------------------------
pub open spec fn count_note(entry_count: u64, file_count: nat) -> Seq<Seq<char>> {
    if entry_count > file_count {
        seq!["包内共检查 "@ + decimal(entry_count as nat) + " 个条目，最终模组根目录包含 "@ + decimal(file_count) + " 个文件。"@]
    } else {
        Seq::empty()
    }
}

/// Another mod shows the same name regardless of ASCII case under a
/// different id.
pub open spec fn same_name_other_id(name: Seq<char>, logical_id: Seq<char>, existing: Seq<ExistingModIdentity>) -> bool {
    exists|k: int|
        0 <= k < existing.len() && eq_ic(#[trigger] existing[k].name@, name) && !eq_ic(existing[k].logical_id@, logical_id)
}

pub open spec fn same_name_note(name: Seq<char>, logical_id: Seq<char>, existing: Seq<ExistingModIdentity>) -> Seq<Seq<char>> {
    if same_name_other_id(name, logical_id, existing) {
        seq!["仓库中已有同显示名称但不同 ID 的模组，请确认它们并非同一模组。"@]
    } else {
        Seq::empty()
    }
}

pub open spec fn broken_note(broken: bool) -> Seq<Seq<char>> {
    if broken {
        seq!["模组扫描发现无法安全读取的文件。"@]
    } else {
        Seq::empty()
    }
}

fn append_all(out: &mut Vec<String>, more: &Vec<String>)
    ensures
        crate::conflicts::text_views(final(out)@) == crate::conflicts::text_views(old(out)@) + crate::conflicts::text_views(more@),
{
    let ghost start = crate::conflicts::text_views(out@);
    let mut k: usize = 0;
    proof {
        assert(start + crate::conflicts::text_views(more@).take(0) =~= start);
    }
    while k < more.len()
        invariant
            k <= more@.len(),
            crate::conflicts::text_views(out@) == start + crate::conflicts::text_views(more@).take(k as int),
        decreases more@.len() - k,
    {
        let ghost before = out@;
        out.push(copy_str(more[k].as_str()));
        proof {
            assert(crate::conflicts::text_views(more@).take(k + 1) =~= crate::conflicts::text_views(more@).take(
                k as int,
            ).push(more@[k as int]@));
            assert(crate::conflicts::text_views(out@) =~= crate::conflicts::text_views(before).push(more@[k as int]@));
        }
        k = k + 1;
    }
    proof {
        assert(crate::conflicts::text_views(more@).take(more@.len() as int) =~= crate::conflicts::text_views(more@));
    }
}

fn push_message(out: &mut Vec<String>, m: String)
    ensures
        crate::conflicts::text_views(final(out)@) == crate::conflicts::text_views(old(out)@) + seq![m@],
{
    let ghost before = out@;
    out.push(m);
    proof {
        assert(crate::conflicts::text_views(out@) =~= crate::conflicts::text_views(before) + seq![m@]);
    }
}

fn has_same_name_other_id(name: &str, logical_id: &str, existing: &Vec<ExistingModIdentity>) -> (b: bool)
    ensures
        b == same_name_other_id(name@, logical_id@, existing@),
{
    let n = to_chars(name);
    let id = to_chars(logical_id);
    let mut k: usize = 0;
    while k < existing.len()
        invariant
            k <= existing@.len(),
            n@ == name@,
            id@ == logical_id@,
            forall|q: int|
                0 <= q < k ==> !(eq_ic(#[trigger] existing@[q].name@, name@) && !eq_ic(existing@[q].logical_id@, logical_id@)),
        decreases existing@.len() - k,
    {
        let e = &existing[k];
        if chars_eq_ic(to_chars(e.name.as_str()).as_slice(), n.as_slice()) && !chars_eq_ic(
            to_chars(e.logical_id.as_str()).as_slice(),
            id.as_slice(),
        ) {
            proof {
                assert(eq_ic(existing@[k as int].name@, name@));
            }
            return true;
        }
        k = k + 1;
    }
    false
}

/// The warnings and the blocking issues of an import plan. The warnings are
/// those gathered so far, the staging notes, the scan's messages, a note
/// when the archive held more entries than the mod has files, and a note
/// when another mod shows the same name under a different id. The blocking
/// issues are the duplicates found and a note when the scan found unreadable
/// files. Both lists keep each message once regardless of case. The plan
/// can be installed exactly when there is no blocking issue.
pub fn plan_messages(
    warnings: Vec<String>,
    staged_warnings: &Vec<String>,
    scan_messages: &Vec<String>,
    entry_count: u64,
    file_count: usize,
    name: &str,
    logical_id: &str,
    fingerprint: &str,
    broken: bool,
    existing: &Vec<ExistingModIdentity>,
) -> (r: (Vec<String>, Vec<String>, bool))
    ensures
        crate::conflicts::text_views(r.0@) == dedup_lower(
            crate::conflicts::text_views(warnings@) + crate::conflicts::text_views(staged_warnings@)
                + crate::conflicts::text_views(scan_messages@) + count_note(entry_count, file_count as nat)
                + same_name_note(name@, logical_id@, existing@),
        ),
        crate::conflicts::text_views(r.1@) == dedup_lower(
            blocking_issues(logical_id@, fingerprint@, existing@) + broken_note(broken),
        ),
        r.2 == (r.1@.len() == 0),
        r.2 == (blocking_issues(logical_id@, fingerprint@, existing@).len() == 0 && !broken),
{
    let mut all = warnings;
    let ghost w0 = crate::conflicts::text_views(all@);
    append_all(&mut all, staged_warnings);
    append_all(&mut all, scan_messages);
    let ghost w1 = crate::conflicts::text_views(all@);
    let files = file_count as u64;
    if entry_count > files {
        let a = concat(to_chars("包内共检查 ").as_slice(), decimal_chars(entry_count).as_slice());
        let b = concat_str(a.as_slice(), " 个条目，最终模组根目录包含 ");
        let c = concat(b.as_slice(), decimal_chars(files).as_slice());
        let d = concat_str(c.as_slice(), " 个文件。");
        push_message(&mut all, from_chars(d.as_slice()));
    } else {
        proof {
            assert(crate::conflicts::text_views(all@) =~= w1 + Seq::<Seq<char>>::empty());
        }
    }
    let ghost w2 = crate::conflicts::text_views(all@);
    if has_same_name_other_id(name, logical_id, existing) {
        push_message(&mut all, msg("仓库中已有同显示名称但不同 ID 的模组，请确认它们并非同一模组。"));
    } else {
        proof {
            assert(crate::conflicts::text_views(all@) =~= w2 + Seq::<Seq<char>>::empty());
        }
    }
    proof {
        assert(crate::conflicts::text_views(all@) =~= w0 + crate::conflicts::text_views(staged_warnings@)
            + crate::conflicts::text_views(scan_messages@) + count_note(entry_count, file_count as nat)
            + same_name_note(name@, logical_id@, existing@));
    }
    let mut blocking = duplicate_blocking_issues(logical_id, fingerprint, existing);
    let ghost b0 = crate::conflicts::text_views(blocking@);
    if broken {
        push_message(&mut blocking, msg("模组扫描发现无法安全读取的文件。"));
    } else {
        proof {
            assert(crate::conflicts::text_views(blocking@) =~= b0 + Seq::<Seq<char>>::empty());
        }
    }
    deduplicate_messages(&mut all);
    deduplicate_messages(&mut blocking);
    let can_install = blocking.len() == 0;
    proof {
        let raw = blocking_issues(logical_id@, fingerprint@, existing@) + broken_note(broken);
        lemma_dedup_lower_empty(raw);
        assert(crate::conflicts::text_views(blocking@).len() == blocking@.len());
        if broken {
            assert(broken_note(broken).len() > 0);
        } else {
            assert(broken_note(broken).len() == 0);
        }
    }
    (all, blocking, can_install)
}

/// Before committing, the staged content must still be what the plan
/// describes: same fingerprint, same id regardless of ASCII case, same size
/// and number of files.
pub fn check_candidate_matches_plan(
    candidate_fingerprint: &str,
    candidate_logical_id: &str,
    candidate_size: u64,
    candidate_file_count: usize,
    plan_fingerprint: &str,
    plan_logical_id: &str,
    plan_size: u64,
    plan_file_count: u64,
) -> (r: Result<(), AppError>)
    ensures
        r is Ok <==> candidate_fingerprint@ == plan_fingerprint@ && eq_ic(candidate_logical_id@, plan_logical_id@)
            && candidate_size == plan_size && candidate_file_count == plan_file_count,
        r matches Err(e) ==> e is ModInstall,
{
    let count = candidate_file_count as u64;
    if !chars_eq(to_chars(candidate_fingerprint).as_slice(), to_chars(plan_fingerprint).as_slice())
        || !chars_eq_ic(to_chars(candidate_logical_id).as_slice(), to_chars(plan_logical_id).as_slice())
        || candidate_size != plan_size || count != plan_file_count {
        return Err(AppError::ModInstall(msg("暂存内容在确认前发生变化，已拒绝提交；请重新导入。")));
    }
    Ok(())
}

/// Two paths overlap: equal, or one lies below the other (compared by
/// components).
pub open spec fn paths_overlap(a: Seq<char>, b: Seq<char>) -> bool {
    crate::path_safety::components(a) == crate::path_safety::components(b)
        || crate::path_safety::strictly_below(a, b) || crate::path_safety::strictly_below(b, a)
}

fn overlap(a: &str, b: &str) -> (r: bool)
    ensures
        r == paths_overlap(a@, b@),
{
    let x = crate::path_safety::component_list(to_chars(a).as_slice());
    let y = crate::path_safety::component_list(to_chars(b).as_slice());
    proof {
        assert(crate::order::views(x@) =~= crate::path_safety::components(a@));
        assert(crate::order::views(y@) =~= crate::path_safety::components(b@));
    }
    let mut same = x.len() == y.len();
    proof {
        if !same {
            assert(crate::order::views(x@).len() != crate::order::views(y@).len());
        }
    }
    let mut k: usize = 0;
    while same && k < x.len()
        invariant
            k <= x@.len(),
            same ==> x@.len() == y@.len(),
            same ==> forall|q: int| 0 <= q < k ==> x@[q]@ == y@[q]@,
            !same ==> crate::order::views(x@) != crate::order::views(y@),
        decreases x@.len() - k,
    {
        if !chars_eq(x[k].as_slice(), y[k].as_slice()) {
            proof {
                assert(crate::order::views(x@)[k as int] != crate::order::views(y@)[k as int]);
            }
            same = false;
        }
        k = k + 1;
    }
    proof {
        if same {
            assert(crate::order::views(x@) =~= crate::order::views(y@));
        }
    }
    same || crate::path_safety::is_strictly_below(a, b) || crate::path_safety::is_strictly_below(b, a)
}

/// The import source must neither be, lie inside nor contain the repository
/// or the staging directory (compared as canonical paths).
pub fn check_source_boundary(source: &str, repository: &str, staging: &str) -> (r: Result<(), AppError>)
    ensures
        r is Ok <==> !paths_overlap(source@, repository@) && !paths_overlap(source@, staging@),
        r matches Err(e) ==> e is UnsafePath,
{
    if overlap(source, repository) {
        return Err(AppError::UnsafePath(msg("导入源不能与模组仓库相同、位于其中或包含它。")));
    }
    if overlap(source, staging) {
        return Err(AppError::UnsafePath(msg("导入源不能与安装暂存目录相同、位于其中或包含它。")));
    }
    Ok(())
}


// ---------------------------------------------------------------------------
// Committing a prepared install
// ---------------------------------------------------------------------------
/// A journal may be committed only while it is `Prepared` and its plan
/// allows the install with no blocking issue.
pub fn check_commit_ready(state: InstallJournalState, can_install: bool, blocking_issues: usize) -> (r: Result<
    (),
    AppError,
>)
    ensures
        r is Ok <==> state == InstallJournalState::Prepared && can_install && blocking_issues == 0,
        r matches Err(e) ==> e is ModInstall,
{
    if state != InstallJournalState::Prepared {
        return Err(AppError::ModInstall(msg("安装操作不处于可提交状态，请重新导入。")));
    }
    if !can_install || blocking_issues != 0 {
        return Err(AppError::ModInstall(msg("安装计划包含阻止项，不能提交。")));
    }
    Ok(())
}

/// Everything a commit checks before it touches the repository: the
/// journal and plan as `check_commit_ready` asks, no duplicate found since
/// the plan was made, and no existing destination, which is never
/// overwritten.
pub fn check_commit_allowed(
    state: InstallJournalState,
    can_install: bool,
    blocking_issues: usize,
    new_duplicates: &Vec<String>,
    destination_exists: bool,
) -> (r: Result<(), AppError>)
    ensures
        r is Ok <==> state == InstallJournalState::Prepared && can_install && blocking_issues == 0
            && new_duplicates@.len() == 0 && !destination_exists,
        r matches Err(e) ==> e is ModInstall,
{
    check_commit_ready(state, can_install, blocking_issues)?;
    if new_duplicates.len() > 0 {
        let mut m = to_chars("提交前发现新的重复模组：");
        let mut i: usize = 0;
        while i < new_duplicates.len()
            invariant
                i <= new_duplicates@.len(),
            decreases new_duplicates@.len() - i,
        {
            if i > 0 {
                m = concat_str(m.as_slice(), "；");
            }
            m = concat(m.as_slice(), to_chars(new_duplicates[i].as_str()).as_slice());
            i = i + 1;
        }
        return Err(AppError::ModInstall(from_chars(m.as_slice())));
    }
    if destination_exists {
        return Err(AppError::ModInstall(msg("安装目标已存在；AEMM 不会覆盖任何现有模组。")));
    }
    Ok(())
}

/// The place a commit has reached.
#[derive(Debug, Clone, Copy, PartialEq, Eq, Structural)]
pub enum CommitStage {
    /// The journal is to be marked `Committing`.
    MarkCommitting,
    /// The candidate is to be renamed into the repository.
    Moving,
    /// The rename crossed volumes: no partial copy of this operation may
    /// already lie in the repository.
    CheckingPartial,
    /// The candidate is to be copied into the partial folder.
    Copying,
    /// The partial copy is to be scanned and its fingerprint compared.
    Verifying,
    /// The verified partial copy is to be renamed to the destination.
    Renaming,
    /// The journal is to be marked `RepositoryCommitted`.
    Recording,
    /// The mod stands in the repository and the journal says so.
    Done,
}

/// The next outside step of a commit.
#[derive(Debug, Clone, Copy, PartialEq, Eq, Structural)]
pub enum CommitAction {
    /// Write the journal with state `Committing`.
    WriteJournalCommitting,
    /// Rename the candidate to the destination; report a rename refused
    /// because it crosses volumes with `crossed_volumes`.
    MoveIntoRepository,
    /// Succeed when the partial folder does not exist.
    CheckPartialFree,
    /// Copy the candidate into the partial folder.
    CopyToPartial,
    /// Scan the partial folder and report its fingerprint with
    /// `copy_checked`.
    VerifyCopy,
    /// Rename the partial folder to the destination.
    RenamePartial,
    /// Write the journal with state `RepositoryCommitted` and the transfer
    /// kind (`copied` or moved).
    WriteJournalCommitted { copied: bool },
    /// Remove the partial folder (its removal failing changes nothing).
    RemovePartial,
    /// Undo the transfer that the receipt describes.
    RollBackReceipt { copied: bool },
    /// Stop: the commit failed, with the error of the failed step.
    Fail,
    /// Stop: the commit succeeded.
    Finish,
}

/// The progress of one commit.
#[derive(Debug, Clone, Copy, PartialEq, Eq, Structural)]
pub struct InstallCommitRun {
    pub stage: CommitStage,
    pub copied: bool,
    pub failed: bool,
    pub cleaned: bool,
}

impl InstallCommitRun {
    /// Only a copy that was renamed into place counts as copied; cleanup
    /// follows a failure, and nothing fails once the commit is done.
    pub open spec fn wf(self) -> bool {
        &&& self.copied ==> (self.stage == CommitStage::Recording || self.stage == CommitStage::Done)
        &&& self.cleaned ==> self.failed
        &&& self.failed ==> self.stage != CommitStage::Done
    }

    /// The stages at which a partial copy may lie in the repository.
    pub open spec fn partial_present(self) -> bool {
        self.stage == CommitStage::Copying || self.stage == CommitStage::Verifying || self.stage
            == CommitStage::Renaming
    }

    pub open spec fn action(self) -> CommitAction {
        if self.failed {
            if self.partial_present() && !self.cleaned {
                CommitAction::RemovePartial
            } else if self.stage == CommitStage::Recording && !self.cleaned {
                CommitAction::RollBackReceipt { copied: self.copied }
            } else {
                CommitAction::Fail
            }
        } else {
            match self.stage {
                CommitStage::MarkCommitting => CommitAction::WriteJournalCommitting,
                CommitStage::Moving => CommitAction::MoveIntoRepository,
                CommitStage::CheckingPartial => CommitAction::CheckPartialFree,
                CommitStage::Copying => CommitAction::CopyToPartial,
                CommitStage::Verifying => CommitAction::VerifyCopy,
                CommitStage::Renaming => CommitAction::RenamePartial,
                CommitStage::Recording => CommitAction::WriteJournalCommitted { copied: self.copied },
                CommitStage::Done => CommitAction::Finish,
            }
        }
    }

    /// The stage that follows `stage` when its step succeeds.
    pub open spec fn next_stage(stage: CommitStage) -> CommitStage {
        match stage {
            CommitStage::MarkCommitting => CommitStage::Moving,
            CommitStage::Moving => CommitStage::Recording,
            CommitStage::CheckingPartial => CommitStage::Copying,
            CommitStage::Copying => CommitStage::Verifying,
            CommitStage::Verifying => CommitStage::Renaming,
            CommitStage::Renaming => CommitStage::Recording,
            _ => CommitStage::Done,
        }
    }

    /// A commit whose checks passed, not yet started.
    pub fn new() -> (s: Self)
        ensures
            s.wf(),
            s == (InstallCommitRun { stage: CommitStage::MarkCommitting, copied: false, failed: false, cleaned: false }),
    {
        InstallCommitRun { stage: CommitStage::MarkCommitting, copied: false, failed: false, cleaned: false }
    }

    /// The next step to perform.
    pub fn next_action(&self) -> (a: CommitAction)
        ensures
            a == self.action(),
    {
        if self.failed {
            let partial = match self.stage {
                CommitStage::Copying | CommitStage::Verifying | CommitStage::Renaming => true,
                _ => false,
            };
            if partial && !self.cleaned {
                CommitAction::RemovePartial
            } else if self.stage == CommitStage::Recording && !self.cleaned {
                CommitAction::RollBackReceipt { copied: self.copied }
            } else {
                CommitAction::Fail
            }
        } else {
            match self.stage {
                CommitStage::MarkCommitting => CommitAction::WriteJournalCommitting,
                CommitStage::Moving => CommitAction::MoveIntoRepository,
                CommitStage::CheckingPartial => CommitAction::CheckPartialFree,
                CommitStage::Copying => CommitAction::CopyToPartial,
                CommitStage::Verifying => CommitAction::VerifyCopy,
                CommitStage::Renaming => CommitAction::RenamePartial,
                CommitStage::Recording => CommitAction::WriteJournalCommitted { copied: self.copied },
                CommitStage::Done => CommitAction::Finish,
            }
        }
    }

    /// Records that the step `action()` named succeeded: a forward step
    /// moves to the next stage (a rename out of the partial folder makes the
    /// transfer a copy); a cleanup step is marked done.
    pub fn succeeded(&mut self)
        requires
            old(self).wf(),
            old(self).action() != CommitAction::Fail,
            old(self).action() != CommitAction::Finish,
        ensures
            final(self).wf(),
            ({
                let s = *old(self);
                if s.failed {
                    *final(self) == InstallCommitRun { cleaned: true, ..s }
                } else {
                    *final(self) == InstallCommitRun {
                        stage: Self::next_stage(s.stage),
                        copied: s.copied || s.stage == CommitStage::Renaming,
                        ..s
                    }
                }
            }),
    {
        if self.failed {
            self.cleaned = true;
        } else {
            if self.stage == CommitStage::Renaming {
                self.copied = true;
            }
            self.stage = match self.stage {
                CommitStage::MarkCommitting => CommitStage::Moving,
                CommitStage::Moving => CommitStage::Recording,
                CommitStage::CheckingPartial => CommitStage::Copying,
                CommitStage::Copying => CommitStage::Verifying,
                CommitStage::Verifying => CommitStage::Renaming,
                CommitStage::Renaming => CommitStage::Recording,
                _ => CommitStage::Done,
            };
        }
    }

    /// Records that the rename into the repository was refused because it
    /// crosses volumes: the commit goes on by copying.
    pub fn crossed_volumes(&mut self)
        requires
            old(self).wf(),
            old(self).action() == CommitAction::MoveIntoRepository,
        ensures
            final(self).wf(),
            *final(self) == (InstallCommitRun { stage: CommitStage::CheckingPartial, ..*old(self) }),
    {
        self.stage = CommitStage::CheckingPartial;
    }

    /// Records that the step `action()` named failed. A forward step fails
    /// the commit (a partial copy or a transfer already made is then undone
    /// first); a failed cleanup is passed over.
    pub fn step_failed(&mut self)
        requires
            old(self).wf(),
            old(self).action() != CommitAction::Fail,
            old(self).action() != CommitAction::Finish,
        ensures
            final(self).wf(),
            ({
                let s = *old(self);
                if s.failed {
                    *final(self) == InstallCommitRun { cleaned: true, ..s }
                } else {
                    *final(self) == InstallCommitRun { failed: true, ..s }
                }
            }),
    {
        if self.failed {
            self.cleaned = true;
        } else {
            self.failed = true;
        }
    }

    /// Records the fingerprint of the scanned partial copy: the step
    /// succeeds only when it equals the candidate's.
    pub fn copy_checked(&mut self, copy_fingerprint: &str, candidate_fingerprint: &str)
        requires
            old(self).wf(),
            old(self).action() == CommitAction::VerifyCopy,
        ensures
            final(self).wf(),
            copy_fingerprint@ == candidate_fingerprint@ ==> *final(self) == (InstallCommitRun {
                stage: CommitStage::Renaming,
                ..*old(self)
            }),
            copy_fingerprint@ != candidate_fingerprint@ ==> *final(self) == (InstallCommitRun {
                failed: true,
                ..*old(self)
            }),
    {
        if chars_eq(to_chars(copy_fingerprint).as_slice(), to_chars(candidate_fingerprint).as_slice()) {
            self.succeeded();
        } else {
            self.step_failed();
        }
    }
}

/// A commit never writes `RepositoryCommitted` before the mod stands at its
/// destination, and every failure after a partial copy was begun removes
/// that copy before the commit stops.
pub proof fn lemma_commit_failure_cleans_up(s: InstallCommitRun)
    requires
        s.wf(),
        s.failed,
        !s.cleaned,
    ensures
        s.partial_present() ==> s.action() == CommitAction::RemovePartial,
        s.stage == CommitStage::Recording ==> s.action() == (CommitAction::RollBackReceipt { copied: s.copied }),
        !s.partial_present() && s.stage != CommitStage::Recording ==> s.action() == CommitAction::Fail,
{
}

/// A commit that never fails passes, in order, through marking the journal,
/// the transfer, and recording it; a copy is verified before it is renamed
/// into place.
pub proof fn lemma_commit_success_path(s: InstallCommitRun)
    requires
        s.wf(),
        !s.failed,
    ensures
        s.stage == CommitStage::MarkCommitting ==> s.action() == CommitAction::WriteJournalCommitting,
        s.stage == CommitStage::Verifying ==> InstallCommitRun::next_stage(s.stage) == CommitStage::Renaming,
        s.stage == CommitStage::Renaming ==> InstallCommitRun::next_stage(s.stage) == CommitStage::Recording,
        s.stage == CommitStage::Recording ==> InstallCommitRun::next_stage(s.stage) == CommitStage::Done,
        s.stage == CommitStage::Done ==> s.action() == CommitAction::Finish,
{
}

} // verus!
