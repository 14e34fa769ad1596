//! The copying deployment strategy: each enabled mod is copied into a
//! managed folder of the EFMI `Mods` directory that carries an ownership
//! record. This module holds its naming rules, the checks of its plans and
//! records, and the building of a plan from a scan.
use vstd::prelude::*;
use crate::archive::{leading_cur_dir, proper_segments};
use crate::deployment::{DeploymentContext, DeploymentEntry, DeploymentManifest, DeploymentPlan, EFMI_COPY_STRATEGY_ID};
use crate::error::{msg, AppError};
use crate::ids::{blake3_hex, hex_digit_vec, hex_digits, ContentHasher};
use crate::ini_facts::{has_ini_extension, spec_has_ini_extension};
use crate::metadata::ModFile;
use crate::order::{compare_chars, lex_lt, lemma_lex_total, lemma_lex_transitive, lemma_lex_irreflexive};
use crate::path_safety::{named_segments, segments, split_segments, storage_chars, storage_form, valid_relative};
use crate::repository::{repository_path_ok, RepositoryRelativePath};
use crate::scanner::FileSystemModScanner;
use crate::text::{
    chars_eq, chars_starts_with, concat, concat_str, copy_str, eq_ic, from_chars, is_ascii_hex, starts_with,
    to_chars, to_lowercase, trim_end, unicode_lower,
};

verus! {

pub const MANIFEST_SCHEMA_VERSION: u32 = 1;

/// The ownership record inside every managed folder.
pub const DEPLOYMENT_MARKER_FILE: &'static str = ".aemm-deployment.json";

pub const DEPLOYMENT_MARKER_KIND: &'static str = "aemm-efmi-deployment";

/// Managed folders that EFMI loads.
pub const ACTIVE_PREFIX: &'static str = "AEMM_";

/// Folders being filled; EFMI skips them.
pub const PENDING_PREFIX: &'static str = "DISABLED_AEMM_PENDING_";

/// Folders being removed; EFMI skips them.
pub const REVOKE_PREFIX: &'static str = "DISABLED_AEMM_REVOKE_";

pub const MAX_INI_BYTES: u64 = 1048576;

pub const MAX_MARKER_BYTES: u64 = 16777216;

/// The copying strategy, bound to a verified EFMI `Mods` directory.
#[derive(Debug, Clone)]
pub struct EfmiCopyDeploymentStrategy {
    mods_root: String,
    scanner: FileSystemModScanner,
}

impl EfmiCopyDeploymentStrategy {
    /// The strategy for a `Mods` directory that has been verified as the
    /// direct `Mods` folder of an EFMI root with the required include policy.
    pub fn new(mods_root: String) -> (s: Self)
        ensures
            s.root_path() == mods_root@,
    {
        EfmiCopyDeploymentStrategy { mods_root, scanner: FileSystemModScanner::new() }
    }

    pub closed spec fn root_path(&self) -> Seq<char> {
        self.mods_root@
    }

    pub fn mods_root(&self) -> (r: &str)
        ensures
            r@ == self.root_path(),
    {
        self.mods_root.as_str()
    }
}

// ---------------------------------------------------------------------------
// Names
// ---------------------------------------------------------------------------
/// The 32 lowercase hexadecimal digits of a UUID without hyphens.
pub open spec fn simple_uuid(id: u128) -> Seq<char> {
    hex_digits(id as nat, 32)
}

pub open spec fn spec_active_directory_name(mod_id: u128) -> Seq<char> {
    ACTIVE_PREFIX@ + simple_uuid(mod_id)
}

pub open spec fn spec_pending_directory_name(operation_id: u128) -> Seq<char> {
    PENDING_PREFIX@ + simple_uuid(operation_id) + ".partial"@
}

pub open spec fn spec_tombstone_directory_name(mod_id: u128, operation_id: u128) -> Seq<char> {
    REVOKE_PREFIX@ + simple_uuid(mod_id) + "_"@ + simple_uuid(operation_id) + ".revoke"@
}

/// The managed folder of a mod.
pub fn active_directory_name(mod_id: u128) -> (r: String)
    ensures
        r@ == spec_active_directory_name(mod_id),
{
    let v = concat(to_chars(ACTIVE_PREFIX).as_slice(), hex_digit_vec(mod_id).as_slice());
    from_chars(v.as_slice())
}

/// The folder a deployment is assembled in before it is renamed into place.
pub fn pending_directory_name(operation_id: u128) -> (r: String)
    ensures
        r@ == spec_pending_directory_name(operation_id),
{
    let v = concat(to_chars(PENDING_PREFIX).as_slice(), hex_digit_vec(operation_id).as_slice());
    let v = concat_str(v.as_slice(), ".partial");
    from_chars(v.as_slice())
}

/// The folder a revoked deployment is moved to until it is removed.
pub fn tombstone_directory_name(mod_id: u128, operation_id: u128) -> (r: String)
    ensures
        r@ == spec_tombstone_directory_name(mod_id, operation_id),
{
    let v = concat(to_chars(REVOKE_PREFIX).as_slice(), hex_digit_vec(mod_id).as_slice());
    let v = concat_str(v.as_slice(), "_");
    let v = concat(v.as_slice(), hex_digit_vec(operation_id).as_slice());
    let v = concat_str(v.as_slice(), ".revoke");
    from_chars(v.as_slice())
}

/// A safe relative path of exactly one name.
pub open spec fn copy_child_ok(p: Seq<char>) -> bool {
    repository_path_ok(p) && proper_segments(p).len() == 1
}

/// Accepts a path that names a direct folder of `Mods` and returns it.
pub fn direct_child_name(path: &str) -> (r: Result<String, AppError>)
    ensures
        r is Ok <==> copy_child_ok(path@),
        r matches Ok(p) ==> p@ == path@,
        r matches Err(e) ==> e is UnsafePath,
{
    let rel = RepositoryRelativePath::new(path)?;
    if !rel.is_direct_child() {
        return Err(AppError::UnsafePath(msg("EFMI 部署目录必须是 Mods 中的直属相对目录。")));
    }
    Ok(copy_str(path))
}

pub open spec fn owned_name(name: Seq<char>) -> bool {
    starts_with(name, ACTIVE_PREFIX@) || starts_with(name, PENDING_PREFIX@) || starts_with(name, REVOKE_PREFIX@)
}

/// A folder of `Mods` whose name marks it as possibly managed.
pub fn is_owned_directory_name(name: &str) -> (b: bool)
    ensures
        b == owned_name(name@),
{
    let n = to_chars(name);
    chars_starts_with(n.as_slice(), to_chars(ACTIVE_PREFIX).as_slice()) || chars_starts_with(
        n.as_slice(),
        to_chars(PENDING_PREFIX).as_slice(),
    ) || chars_starts_with(n.as_slice(), to_chars(REVOKE_PREFIX).as_slice())
}

/// The folder that is about to be removed for `manifest_directory` may be:
/// the mod's own managed folder, or a pending or revoked folder.
pub open spec fn cleanup_name_ok(name: Seq<char>, manifest_directory: Seq<char>) -> bool {
    if starts_with(name, ACTIVE_PREFIX@) {
        name == manifest_directory
    } else {
        starts_with(name, PENDING_PREFIX@) || starts_with(name, REVOKE_PREFIX@)
    }
}

/// Checks the folder a cleanup would remove against the record it removes
/// it for.
pub fn check_cleanup_directory(relative: &str, manifest_directory: &str) -> (r: Result<String, AppError>)
    ensures
        r is Ok <==> copy_child_ok(relative@) && copy_child_ok(manifest_directory@) && cleanup_name_ok(
            relative@,
            manifest_directory@,
        ),
        r matches Ok(n) ==> n@ == relative@,
        r matches Err(e) ==> e is UnsafePath,
{
    let name = direct_child_name(relative)?;
    let active = direct_child_name(manifest_directory)?;
    let n = to_chars(name.as_str());
    let a = to_chars(active.as_str());
    let is_active = chars_starts_with(n.as_slice(), to_chars(ACTIVE_PREFIX).as_slice());
    let recognized = chars_starts_with(n.as_slice(), to_chars(PENDING_PREFIX).as_slice()) || chars_starts_with(
        n.as_slice(),
        to_chars(REVOKE_PREFIX).as_slice(),
    );
    if (is_active && !chars_eq(n.as_slice(), a.as_slice())) || (!is_active && !recognized) {
        return Err(AppError::UnsafePath(msg("部署清理目录名与清单所有权范围不一致。")));
    }
    Ok(name)
}

/// Checks the folder a finished revoke removes: a direct folder named as a
/// revoked one.
pub fn check_revoke_tombstone(relative: &str) -> (r: Result<String, AppError>)
    ensures
        r is Ok <==> copy_child_ok(relative@) && starts_with(relative@, REVOKE_PREFIX@),
        r matches Ok(n) ==> n@ == relative@,
        r matches Err(e) ==> e is UnsafePath,
{
    let name = direct_child_name(relative)?;
    if !chars_starts_with(to_chars(name.as_str()).as_slice(), to_chars(REVOKE_PREFIX).as_slice()) {
        return Err(AppError::UnsafePath(msg("拒绝清理不符合 AEMM 撤销命名约定的目录。")));
    }
    Ok(name)
}

// ---------------------------------------------------------------------------
// Keys and path comparison
// ---------------------------------------------------------------------------
/// The key under which destinations are compared: `/` separators, lower case.
pub open spec fn relative_key(p: Seq<char>) -> Seq<char> {
    unicode_lower(storage_form(p))
}

pub fn normalized_relative_key(path: &str) -> (r: String)
    ensures
        r@ == relative_key(path@),
        crate::text::all_ascii(storage_form(path@)) ==> r@ == crate::text::lower_seq(storage_form(path@)),
{
    let s = from_chars(storage_chars(to_chars(path).as_slice()).as_slice());
    to_lowercase(s.as_str())
}

pub open spec fn is_path_sep(c: char) -> bool {
    c == '\\' || c == '/'
}

/// The path without its trailing separators.
pub open spec fn without_trailing_seps(p: Seq<char>) -> Seq<char>
    decreases p.len(),
{
    if p.len() > 0 && is_path_sep(p.last()) {
        without_trailing_seps(p.drop_last())
    } else {
        p
    }
}

fn trailing_trimmed(p: &[char]) -> (r: usize)
    ensures
        r <= p@.len(),
        p@.take(r as int) == without_trailing_seps(p@),
{
    let mut n = p.len();
    proof {
        assert(p@.take(n as int) =~= p@);
    }
    while n > 0 && (p[n - 1] == '\\' || p[n - 1] == '/')
        invariant
            n <= p@.len(),
            without_trailing_seps(p@.take(n as int)) == without_trailing_seps(p@),
        decreases n,
    {
        proof {
            assert(p@.take(n as int).drop_last() =~= p@.take(n - 1));
        }
        n = n - 1;
    }
    n
}

/// Two paths name the same place, regardless of ASCII case and trailing
/// separators.
pub fn paths_equal(left: &str, right: &str) -> (b: bool)
    ensures
        b == eq_ic(without_trailing_seps(left@), without_trailing_seps(right@)),
{
    let l = to_chars(left);
    let r = to_chars(right);
    let nl = trailing_trimmed(l.as_slice());
    let nr = trailing_trimmed(r.as_slice());
    crate::text::chars_eq_ic(crate::text::slice_subrange(l.as_slice(), 0, nl), crate::text::slice_subrange(r.as_slice(), 0, nr))
}

// ---------------------------------------------------------------------------
// Entries, records and plans
// ---------------------------------------------------------------------------
/// 64 hexadecimal digits: a BLAKE3 hash in text.
pub open spec fn valid_hash(h: Seq<char>) -> bool {
    h.len() == 64 && forall|i: int| 0 <= i < 64 ==> is_ascii_hex(#[trigger] h[i])
}

fn is_valid_hash(h: &str) -> (b: bool)
    ensures
        b == valid_hash(h@),
{
    let c = to_chars(h);
    if c.len() != 64 {
        return false;
    }
    let mut i: usize = 0;
    while i < 64
        invariant
            c@ == h@,
            c@.len() == 64,
            i <= 64,
            forall|k: int| 0 <= k < i ==> is_ascii_hex(#[trigger] c@[k]),
        decreases 64 - i,
    {
        let x = c[i];
        if !(('0' <= x && x <= '9') || ('a' <= x && x <= 'f') || ('A' <= x && x <= 'F')) {
            proof {
                assert(!is_ascii_hex(c@[i as int]));
            }
            return false;
        }
        i = i + 1;
    }
    true
}

pub open spec fn entry_path_bad(e: DeploymentEntry) -> bool {
    !valid_relative(e.source_relative@) || !valid_relative(e.destination_relative@)
}

/// Entry `k` is the first to fail: a bad path, a bad hash, or a destination
/// that an earlier entry already takes regardless of case.
pub open spec fn entry_bad(es: Seq<DeploymentEntry>, k: int) -> bool {
    ||| entry_path_bad(es[k])
    ||| !valid_hash(es[k].content_hash@)
    ||| exists|j: int| 0 <= j < k && #[trigger] relative_key(es[j].destination_relative@) == relative_key(
        es[k].destination_relative@,
    )
}

pub open spec fn entries_valid(es: Seq<DeploymentEntry>) -> bool {
    forall|k: int| 0 <= k < es.len() ==> !entry_bad(es, k)
}

/// The first entry that fails.
pub open spec fn first_bad_entry(es: Seq<DeploymentEntry>) -> int {
    choose|k: int| 0 <= k < es.len() && entry_bad(es, k) && forall|j: int| 0 <= j < k ==> !entry_bad(es, j)
}

/// Checks every entry: safe relative paths on both sides, a well-formed
/// hash, and destinations that differ regardless of case. The first failing
/// entry decides the error: an unsafe path, or a data-integrity error.
pub fn validate_entries(entries: &Vec<DeploymentEntry>) -> (r: Result<(), AppError>)
    ensures
        r is Ok <==> entries_valid(entries@),
        r matches Err(e) ==> (e is UnsafePath <==> entry_path_bad(entries@[first_bad_entry(entries@)])),
        r matches Err(e) ==> e is UnsafePath || e is DataIntegrity,
{
    let ghost es = entries@;
    let mut keys: Vec<String> = Vec::new();
    let mut i: usize = 0;
    while i < entries.len()
        invariant
            es == entries@,
            i <= es.len(),
            keys@.len() == i,
            forall|k: int| 0 <= k < i ==> #[trigger] keys@[k]@ == relative_key(es[k].destination_relative@),
            forall|k: int| 0 <= k < i ==> !entry_bad(es, k),
        decreases es.len() - i,
    {
        let e = &entries[i];
        let bad_path = crate::path_safety::validate_relative_path(e.source_relative.as_str()).is_err()
            || crate::path_safety::validate_relative_path(e.destination_relative.as_str()).is_err();
        let mut dup = false;
        let key = normalized_relative_key(e.destination_relative.as_str());
        let kc = to_chars(key.as_str());
        let mut j: usize = 0;
        while j < keys.len()
            invariant
                j <= keys@.len(),
                dup ==> exists|m: int| 0 <= m < keys@.len() && #[trigger] keys@[m]@ == kc@,
                !dup ==> forall|m: int| 0 <= m < j ==> #[trigger] keys@[m]@ != kc@,
            decreases keys@.len() - j,
        {
            if chars_eq(to_chars(keys[j].as_str()).as_slice(), kc.as_slice()) {
                dup = true;
            }
            j = j + 1;
        }
        let good_hash = is_valid_hash(e.content_hash.as_str());
        if bad_path || !good_hash || dup {
            proof {
                if dup {
                    let m = choose|m: int| 0 <= m < keys@.len() && #[trigger] keys@[m]@ == kc@;
                    assert(relative_key(es[m].destination_relative@) == relative_key(es[i as int].destination_relative@));
                }
                assert(entry_bad(es, i as int));
                let f = first_bad_entry(es);
                assert(0 <= f < es.len() && entry_bad(es, f) && forall|j: int| 0 <= j < f ==> !entry_bad(es, j));
                if f < i {
                } else if f > i {
                    assert(!entry_bad(es, i as int));
                }
                assert(f == i);
            }
            if bad_path {
                return Err(AppError::UnsafePath(msg("路径必须是安全的相对路径，不能包含父级、根目录或设备前缀。")));
            }
            if !good_hash {
                let m = concat_str(to_chars("部署条目 ").as_slice(), e.destination_relative.as_str());
                let m = concat_str(m.as_slice(), " 的 BLAKE3 Hash 无效。");
                return Err(AppError::DataIntegrity(from_chars(m.as_slice())));
            }
            return Err(AppError::DataIntegrity(msg("部署清单包含大小写不敏感的重复目标。")));
        }
        proof {
            assert forall|m: int| 0 <= m < i implies #[trigger] relative_key(es[m].destination_relative@) != relative_key(
                es[i as int].destination_relative@,
            ) by {
                assert(keys@[m]@ != kc@);
            }
            assert(!entry_bad(es, i as int));
        }
        keys.push(key);
        i = i + 1;
    }
    Ok(())
}

/// Checks the shape of a deployment record: the version and strategy this
/// implementation writes, a direct destination folder, and valid entries.
pub fn validate_manifest_shape(manifest: &DeploymentManifest) -> (r: Result<(), AppError>)
    ensures
        r is Ok <==> manifest.schema_version == MANIFEST_SCHEMA_VERSION && manifest.strategy_id@
            == EFMI_COPY_STRATEGY_ID@ && copy_child_ok(manifest.destination_directory@) && entries_valid(
            manifest.entries@,
        ),
        r matches Err(e) ==> e is UnsafePath || e is DataIntegrity,
        r matches Err(e) ==> (manifest.schema_version != MANIFEST_SCHEMA_VERSION || manifest.strategy_id@
            != EFMI_COPY_STRATEGY_ID@ ==> e is DataIntegrity),
{
    if manifest.schema_version != MANIFEST_SCHEMA_VERSION || !chars_eq(
        to_chars(manifest.strategy_id.as_str()).as_slice(),
        to_chars(EFMI_COPY_STRATEGY_ID).as_slice(),
    ) {
        return Err(AppError::DataIntegrity(msg("部署清单版本或策略不受当前实现支持。")));
    }
    direct_child_name(manifest.destination_directory.as_str())?;
    validate_entries(&manifest.entries)
}

/// The plan belongs to this context: same strategy, profile, mod and source
/// content.
pub open spec fn plan_matches_context(plan: &DeploymentPlan, context: &DeploymentContext) -> bool {
    &&& plan.strategy_id@ == EFMI_COPY_STRATEGY_ID@
    &&& plan.profile_id == context.profile_id
    &&& plan.mod_id == context.mod_id
    &&& plan.source_content_fingerprint@ == context.source_content_fingerprint@
}

/// Checks a plan before it is carried out: it must belong to the context,
/// name a direct destination folder, hold at least one entry, and its
/// entries must be valid.
pub fn validate_plan(plan: &DeploymentPlan, context: &DeploymentContext) -> (r: Result<(), AppError>)
    ensures
        r is Ok <==> plan_matches_context(plan, context) && copy_child_ok(plan.destination_directory@)
            && plan.entries@.len() > 0 && entries_valid(plan.entries@),
        !plan_matches_context(plan, context) ==> (r matches Err(e) && e is DataIntegrity),
        plan_matches_context(plan, context) && !copy_child_ok(plan.destination_directory@) ==> (r matches Err(e)
            && e is UnsafePath),
        plan_matches_context(plan, context) && copy_child_ok(plan.destination_directory@) && plan.entries@.len()
            == 0 ==> (r matches Err(e) && e is ModInstall),
        plan_matches_context(plan, context) && copy_child_ok(plan.destination_directory@) && plan.entries@.len()
            > 0 && !entries_valid(plan.entries@) ==> (r matches Err(e) && (e is UnsafePath <==> entry_path_bad(
            plan.entries@[first_bad_entry(plan.entries@)],
        )) && (e is UnsafePath || e is DataIntegrity)),
{
    let same_strategy = chars_eq(
        to_chars(plan.strategy_id.as_str()).as_slice(),
        to_chars(EFMI_COPY_STRATEGY_ID).as_slice(),
    );
    let same_source = chars_eq(
        to_chars(plan.source_content_fingerprint.as_str()).as_slice(),
        to_chars(context.source_content_fingerprint.as_str()).as_slice(),
    );
    if !same_strategy || plan.profile_id != context.profile_id || plan.mod_id != context.mod_id || !same_source {
        return Err(AppError::DataIntegrity(msg("部署计划与当前模组上下文不一致。")));
    }
    direct_child_name(plan.destination_directory.as_str())?;
    if plan.entries.len() == 0 {
        return Err(AppError::ModInstall(msg("空模组不能部署。")));
    }
    validate_entries(&plan.entries)
}

// ---------------------------------------------------------------------------
// Building a plan from a scan
// ---------------------------------------------------------------------------
/// An entry as plain values: source, destination, size and hash.
pub type EntryView = (Seq<char>, Seq<char>, u64, Seq<char>);

pub open spec fn entry_view(e: DeploymentEntry) -> EntryView {
    (e.source_relative@, e.destination_relative@, e.size_bytes, e.content_hash@)
}

pub open spec fn entry_views(s: Seq<DeploymentEntry>) -> Seq<EntryView> {
    s.map_values(|e: DeploymentEntry| entry_view(e))
}

/// The entry of one scanned file: copied to the same relative place.
pub open spec fn file_entry(f: ModFile) -> EntryView {
    (f.source_path@, f.source_path@, f.size_bytes, f.content_hash->0@)
}

pub open spec fn entry_key(e: EntryView) -> Seq<char> {
    relative_key(e.1)
}

/// Inserts `x` after every element whose key does not sort after its own.
pub open spec fn insert_stable(s: Seq<EntryView>, x: EntryView) -> Seq<EntryView>
    decreases s.len(),
{
    if s.len() == 0 {
        seq![x]
    } else if lex_lt(entry_key(x), entry_key(s.last())) {
        insert_stable(s.drop_last(), x).push(s.last())
    } else {
        s.push(x)
    }
}

/// The entries ordered by key, equal keys kept in their original order.
pub open spec fn sort_by_key(s: Seq<EntryView>) -> Seq<EntryView>
    decreases s.len(),
{
    if s.len() == 0 {
        s
    } else {
        insert_stable(sort_by_key(s.drop_last()), s.last())
    }
}

/// A file is rejected from a plan when its path is unsafe, when it uses the
/// name of the ownership record, or when it has no hash.
pub open spec fn file_error_kind(f: ModFile) -> Option<u8> {
    if !valid_relative(f.source_path@) {
        Some(0)
    } else if named_segments(f.source_path@).contains(DEPLOYMENT_MARKER_FILE@) {
        Some(1)
    } else if f.content_hash is None {
        Some(2)
    } else {
        None
    }
}

pub open spec fn files_ok(files: Seq<ModFile>) -> bool {
    forall|k: int| 0 <= k < files.len() ==> #[trigger] file_error_kind(files[k]) is None
}

pub open spec fn first_bad_file(files: Seq<ModFile>) -> int {
    choose|k: int| 0 <= k < files.len() && #[trigger] file_error_kind(files[k]) is Some && forall|j: int|
        0 <= j < k ==> file_error_kind(files[j]) is None
}

pub open spec fn has_ini_file(files: Seq<ModFile>) -> bool {
    exists|k: int| 0 <= k < files.len() && spec_has_ini_extension(#[trigger] files[k].source_path@)
}

/// The entries a clean scan yields, in scan order.
pub open spec fn scan_entries(files: Seq<ModFile>) -> Seq<EntryView> {
    files.map_values(|f: ModFile| file_entry(f))
}

fn contains_marker_name(path: &str) -> (b: bool)
    ensures
        b == named_segments(path@).contains(DEPLOYMENT_MARKER_FILE@),
{
    let c = to_chars(path);
    let segs = segments(c.as_slice());
    let marker = to_chars(DEPLOYMENT_MARKER_FILE);
    let ghost named = named_segments(c@);
    let ghost pred = crate::path_safety::named_pred();
    let ghost ss = split_segments(c@);
    let mut i: usize = 0;
    proof {
        assert(ss.take(0).filter(pred) =~= Seq::<Seq<char>>::empty());
    }
    while i < segs.len()
        invariant
            i <= segs@.len(),
            c@ == path@,
            segs@.len() == ss.len(),
            ss == split_segments(c@),
            pred == crate::path_safety::named_pred(),
            forall|j: int| 0 <= j < segs@.len() ==> #[trigger] segs@[j]@ == ss[j],
            marker@ == DEPLOYMENT_MARKER_FILE@,
            !ss.take(i as int).filter(pred).contains(marker@),
        decreases segs@.len() - i,
    {
        proof {
            assert(ss.take(i + 1) =~= ss.take(i as int).push(ss[i as int]));
            ss.take(i as int).lemma_filter_push(ss[i as int], pred);
        }
        if segs[i].len() > 0 && chars_eq(segs[i].as_slice(), marker.as_slice()) {
            proof {
                let f = ss.take(i + 1).filter(pred);
                assert(f.last() == marker@);
                Seq::<Seq<char>>::filter_distributes_over_add(ss.take(i + 1), ss.skip(i + 1), pred);
                assert(ss =~= ss.take(i + 1) + ss.skip(i + 1));
                let whole = ss.filter(pred);
                assert(whole[f.len() - 1] == marker@);
            }
            return true;
        }
        proof {
            let f = ss.take(i + 1).filter(pred);
            if f.contains(marker@) {
                let q = choose|q: int| 0 <= q < f.len() && f[q] == marker@;
                if ss[i as int].len() > 0 {
                    assert(q < f.len() - 1 ==> ss.take(i as int).filter(pred)[q] == marker@);
                }
            }
        }
        i = i + 1;
    }
    proof {
        assert(ss.take(ss.len() as int) =~= ss);
    }
    false
}

fn entry_key_chars(e: &DeploymentEntry) -> (r: Vec<char>)
    ensures
        r@ == entry_key(entry_view(*e)),
{
    to_chars(normalized_relative_key(e.destination_relative.as_str()).as_str())
}

/// Inserts `x` into `v` as `insert_stable` does.
fn insert_entry(v: &mut Vec<DeploymentEntry>, x: DeploymentEntry)
    ensures
        entry_views(final(v)@) == insert_stable(entry_views(old(v)@), entry_view(x)),
{
    let ghost s0 = entry_views(v@);
    let ghost xv = entry_view(x);
    let xk = entry_key_chars(&x);
    let mut pos = v.len();
    proof {
        assert(s0.take(pos as int) =~= s0);
        assert(s0.skip(pos as int) =~= Seq::<EntryView>::empty());
        assert(insert_stable(s0, xv) =~= insert_stable(s0.take(pos as int), xv) + s0.skip(pos as int));
    }
    let mut done = false;
    while pos > 0 && !done
        invariant
            pos <= v@.len(),
            s0 == entry_views(v@),
            s0.len() == v@.len(),
            xv == entry_view(x),
            xk@ == entry_key(xv),
            insert_stable(s0, xv) == insert_stable(s0.take(pos as int), xv) + s0.skip(pos as int),
            done ==> insert_stable(s0.take(pos as int), xv) == s0.take(pos as int).push(xv),
        decreases pos + (if done { 0int } else { 1int }),
    {
        let k = entry_key_chars(&v[pos - 1]);
        proof {
            assert(s0[pos - 1] == entry_view(v@[pos - 1]));
        }
        if compare_chars(xk.as_slice(), k.as_slice()) < 0 {
            proof {
                let t = s0.take(pos as int);
                assert(t.last() == s0[pos - 1]);
                assert(t.drop_last() =~= s0.take(pos - 1));
                assert(insert_stable(t, xv) == insert_stable(s0.take(pos - 1), xv).push(s0[pos - 1]));
                assert(insert_stable(s0.take(pos - 1), xv).push(s0[pos - 1]) + s0.skip(pos as int)
                    =~= insert_stable(s0.take(pos - 1), xv) + s0.skip(pos - 1));
            }
            pos = pos - 1;
        } else {
            proof {
                let t = s0.take(pos as int);
                assert(t.last() == s0[pos - 1]);
                assert(insert_stable(t, xv) == t.push(xv));
            }
            done = true;
        }
    }
    proof {
        let t = s0.take(pos as int);
        if !done {
            assert(t.len() == 0);
            assert(insert_stable(t, xv) == seq![xv]);
            assert(insert_stable(t, xv) =~= t.push(xv));
        }
    }
    let ghost before = v@;
    v.insert(pos, x);
    proof {
        assert(v@ =~= before.take(pos as int).push(x) + before.skip(pos as int));
        assert(entry_views(v@) =~= s0.take(pos as int).push(xv) + s0.skip(pos as int));
    }
}

/// Builds the entries of a deployment plan from a scan of the mod folder.
///
/// A scan that found problems, or whose fingerprint no longer matches the
/// one the deployment was requested for, is refused, as is a mod without an
/// `.ini` file. Every file is then checked in order (see `file_error_kind`);
/// the entries are ordered by destination key.
pub fn plan_entries(files: &Vec<ModFile>, scan_broken: bool, scan_fingerprint: &str, expected_fingerprint: &str) -> (r: Result<
    Vec<DeploymentEntry>,
    AppError,
>)
    ensures
        scan_broken ==> (r matches Err(e) && e is ModInstall),
        !scan_broken && scan_fingerprint@ != expected_fingerprint@ ==> (r matches Err(e) && e is DataIntegrity),
        !scan_broken && scan_fingerprint@ == expected_fingerprint@ && !has_ini_file(files@) ==> (r matches Err(e)
            && e is ModInstall),
        !scan_broken && scan_fingerprint@ == expected_fingerprint@ && has_ini_file(files@) ==> ({
            if files_ok(files@) {
                r matches Ok(v) && entry_views(v@) == sort_by_key(scan_entries(files@))
            } else {
                let k = file_error_kind(files@[first_bad_file(files@)])->0;
                r matches Err(e) && (if k == 2 {
                    e is DataIntegrity
                } else {
                    e is UnsafePath
                })
            }
        }),
{
    if scan_broken {
        return Err(AppError::ModInstall(msg("模组当前文件快照不完整，不能安全部署。")));
    }
    if !chars_eq(to_chars(scan_fingerprint).as_slice(), to_chars(expected_fingerprint).as_slice()) {
        return Err(AppError::DataIntegrity(msg("模组仓库内容已在扫描后发生变化；请先重新扫描再启用。")));
    }
    let ghost fs = files@;
    let mut found_ini = false;
    let mut i: usize = 0;
    while i < files.len() && !found_ini
        invariant
            fs == files@,
            i <= fs.len(),
            found_ini ==> has_ini_file(fs),
            !found_ini ==> forall|k: int| 0 <= k < i ==> !spec_has_ini_extension(#[trigger] fs[k].source_path@),
        decreases fs.len() - i,
    {
        if has_ini_extension(to_chars(files[i].source_path.as_str()).as_slice()) {
            found_ini = true;
        }
        i = i + 1;
    }
    if !found_ini {
        return Err(AppError::ModInstall(msg("该目录没有 EFMI 可递归加载的 INI 文件，已拒绝启用。")));
    }
    let mut entries: Vec<DeploymentEntry> = Vec::new();
    let mut i: usize = 0;
    while i < files.len()
        invariant
            fs == files@,
            !scan_broken,
            scan_fingerprint@ == expected_fingerprint@,
            has_ini_file(fs),
            i <= fs.len(),
            forall|k: int| 0 <= k < i ==> #[trigger] file_error_kind(fs[k]) is None,
            entry_views(entries@) == sort_by_key(scan_entries(fs.take(i as int))),
        decreases fs.len() - i,
    {
        let f = &files[i];
        let bad: Option<u8> = if crate::path_safety::validate_relative_path(f.source_path.as_str()).is_err() {
            Some(0)
        } else if contains_marker_name(f.source_path.as_str()) {
            Some(1)
        } else if f.content_hash.is_none() {
            Some(2)
        } else {
            None
        };
        proof {
            assert(bad == file_error_kind(fs[i as int]));
        }
        match bad {
            Some(kind) => {
                proof {
                    let b = first_bad_file(fs);
                    assert(0 <= b < fs.len() && file_error_kind(fs[b]) is Some && forall|j: int|
                        0 <= j < b ==> file_error_kind(fs[j]) is None) by {
                        assert(file_error_kind(fs[i as int]) is Some);
                    }
                    if b < i {
                    } else if b > i {
                        assert(file_error_kind(fs[i as int]) is None);
                    }
                    assert(b == i);
                }
                if kind == 2 {
                    let m = concat_str(to_chars("模组文件 ").as_slice(), f.source_path.as_str());
                    let m = concat_str(m.as_slice(), " 缺少内容 Hash，请重新扫描。");
                    return Err(AppError::DataIntegrity(from_chars(m.as_slice())));
                } else if kind == 1 {
                    return Err(AppError::UnsafePath(msg("模组包含 AEMM 保留文件名 .aemm-deployment.json，不能部署。")));
                } else {
                    return Err(AppError::UnsafePath(msg("路径必须是安全的相对路径，不能包含父级、根目录或设备前缀。")));
                }
            },
            None => {},
        }
        let hash = match &f.content_hash {
            Some(h) => copy_str(h.as_str()),
            None => copy_str(""),
        };
        let entry = DeploymentEntry {
            source_relative: copy_str(f.source_path.as_str()),
            destination_relative: copy_str(f.source_path.as_str()),
            size_bytes: f.size_bytes,
            content_hash: hash,
        };
        proof {
            assert(fs.take(i + 1).drop_last() =~= fs.take(i as int));
            assert(scan_entries(fs.take(i + 1)).drop_last() =~= scan_entries(fs.take(i as int)));
            assert(scan_entries(fs.take(i + 1)).last() == file_entry(fs[i as int]));
            assert(entry_view(entry) == file_entry(fs[i as int]));
        }
        insert_entry(&mut entries, entry);
        i = i + 1;
    }
    proof {
        assert(fs.take(fs.len() as int) =~= fs);
    }
    Ok(entries)
}


// ---------------------------------------------------------------------------
// Content checks of deployed files
// ---------------------------------------------------------------------------
/// The content fed to `content` is what `entry` records: same size and same
/// BLAKE3 digest.
pub open spec fn content_matches(entry: DeploymentEntry, actual_size: u64, content: Seq<u8>) -> bool {
    actual_size == entry.size_bytes && blake3_hex(content) == entry.content_hash@
}

fn text3(a: &str, b: &str, c: &str) -> (r: String)
    ensures
        r@ == a@ + b@ + c@,
{
    from_chars(concat_str(concat_str(to_chars(a).as_slice(), b).as_slice(), c).as_slice())
}

/// Before a deployed file is removed it must be unchanged: its size and the
/// digest of its content (fed to `content`) must be those its entry records.
pub fn check_deployed_content(entry: &DeploymentEntry, actual_size: u64, content: &ContentHasher) -> (r: Result<
    (),
    AppError,
>)
    ensures
        r is Ok <==> content_matches(*entry, actual_size, content@),
        r matches Err(e) ==> e is DataIntegrity,
{
    if actual_size != entry.size_bytes {
        return Err(
            AppError::DataIntegrity(text3("部署文件 ", entry.destination_relative.as_str(), " 的尺寸已变化；拒绝自动删除。")),
        );
    }
    let hash = content.finish_hex();
    if !chars_eq(to_chars(hash.as_str()).as_slice(), to_chars(entry.content_hash.as_str()).as_slice()) {
        return Err(
            AppError::DataIntegrity(text3("部署文件 ", entry.destination_relative.as_str(), " 已被外部修改；拒绝自动删除。")),
        );
    }
    Ok(())
}

/// After a file was copied for deployment, the bytes copied (fed to
/// `content`) must be the size and digest its entry records.
pub fn check_copied_content(entry: &DeploymentEntry, copied: u64, content: &ContentHasher) -> (r: Result<(), AppError>)
    ensures
        r is Ok <==> content_matches(*entry, copied, content@),
        r matches Err(e) ==> e is DataIntegrity,
{
    let hash = content.finish_hex();
    if copied != entry.size_bytes || !chars_eq(
        to_chars(hash.as_str()).as_slice(),
        to_chars(entry.content_hash.as_str()).as_slice(),
    ) {
        return Err(
            AppError::DataIntegrity(text3("源文件 ", entry.source_relative.as_str(), " 的尺寸或 Hash 与部署计划不一致。")),
        );
    }
    Ok(())
}

/// Counts `read` more bytes of a file being copied: the running total may
/// never pass the size its entry records, or the source changed meanwhile.
pub fn check_copy_progress(entry: &DeploymentEntry, copied: u64, read: u64) -> (r: Result<u64, AppError>)
    ensures
        r is Ok <==> copied + read <= entry.size_bytes,
        r matches Ok(t) ==> t == copied + read && t <= entry.size_bytes,
        r matches Err(e) ==> e is DataIntegrity,
{
    let total = match copied.checked_add(read) {
        Some(t) => t,
        None => return Err(AppError::DataIntegrity(msg("部署文件尺寸溢出。"))),
    };
    if total > entry.size_bytes {
        return Err(
            AppError::DataIntegrity(text3("源文件 ", entry.source_relative.as_str(), " 在部署期间发生变化。")),
        );
    }
    Ok(total)
}

} // verus!
