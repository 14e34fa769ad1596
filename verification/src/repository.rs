//! The mod repository: the paths it accepts for mods, where a mod's folder
//! goes, and how a removal is staged and recovered.
use vstd::prelude::*;
use crate::archive::{leading_cur_dir, proper_segments};
use crate::error::{msg, AppError};
use crate::ids::{uuid_chars, uuid_text};
use crate::path_safety::{
    is_valid_relative, join_chars, join_path, segments, split_segments, storage_chars, storage_form,
    strictly_below, is_strictly_below, valid_relative,
};
use crate::text::{chars_eq, concat, copy_str, from_chars, starts_with, to_chars};

verus! {

pub const REPOSITORY_MARKER_FILE: &'static str = ".aemm-repository.json";
pub const REMOVAL_TOMBSTONE_PREFIX: &'static str = ".aemm-remove-";

/// Whether a repository may take over a directory that lacks its marker.
#[derive(Debug, Clone, Copy, PartialEq, Eq, Structural)]
pub enum RepositoryInitializationPolicy {
    /// Only an empty directory may become a repository.
    EmptyOnly,
    /// The application's own default directory may be taken over.
    TrustedAemmDefault,
    /// An EFMI `Mods` directory serves as the repository in place.
    ExternalEfmiMods,
}

/// How an interrupted removal was resolved.
#[derive(Debug, Clone, Copy, PartialEq, Eq, Structural)]
pub enum PendingRemovalRecovery {
    OriginalPresent,
    Restored,
    Missing,
}

/// A safe path relative to the repository root.
#[derive(Debug, Clone, PartialEq, Eq)]
pub struct RepositoryRelativePath {
    pub path: String,
}

/// A repository path is a safe relative path that does not begin with `.`.
pub open spec fn repository_path_ok(p: Seq<char>) -> bool {
    valid_relative(p) && !leading_cur_dir(p)
}

impl RepositoryRelativePath {
    pub fn new(path: &str) -> (r: Result<RepositoryRelativePath, AppError>)
        ensures
            r is Ok <==> repository_path_ok(path@),
            r matches Ok(p) ==> p.path@ == path@,
            r matches Err(e) ==> e is UnsafePath,
    {
        let chars = to_chars(path);
        crate::path_safety::validate_relative_chars(chars.as_slice())?;
        let parts = segments(chars.as_slice());
        proof {
            crate::path_safety::lemma_split_nonempty(chars@);
            assert(parts@[0]@ == split_segments(chars@)[0]);
        }
        if parts[0].len() == 1 && parts[0][0] == '.' {
            proof {
                assert(parts@[0]@ =~= crate::path_safety::dot());
            }
            return Err(AppError::UnsafePath(msg("仓库相对路径不能包含当前目录组件。")));
        }
        proof {
            if split_segments(chars@)[0] == crate::path_safety::dot() {
                assert(parts@[0]@[0] == '.');
            }
        }
        Ok(RepositoryRelativePath { path: copy_str(path) })
    }

    pub fn as_path(&self) -> (r: &str)
        ensures
            r@ == self.path@,
    {
        self.path.as_str()
    }

    /// The path with `/` separators.
    pub fn storage_key(&self) -> (r: String)
        ensures
            r@ == storage_form(self.path@),
    {
        crate::path_safety::storage_path(self.path.as_str())
    }

    /// The path names a direct child of the root: it has one component.
    pub fn is_direct_child(&self) -> (b: bool)
        ensures
            b == (proper_segments(self.path@).len() == 1),
    {
        let chars = to_chars(self.path.as_str());
        let list = crate::archive::proper_segment_list(chars.as_slice());
        list.len() == 1
    }
}

pub open spec fn direct_child_path(p: Seq<char>) -> bool {
    proper_segments(p).len() == 1
}

/// The name of the staging folder of a mod being removed.
pub open spec fn spec_removal_tombstone_name(mod_id: u128) -> Seq<char> {
    ".aemm-remove-"@ + uuid_text(mod_id)
}

pub fn removal_tombstone_name(mod_id: u128) -> (r: String)
    ensures
        r@ == spec_removal_tombstone_name(mod_id),
{
    let id = uuid_chars(mod_id);
    from_chars(concat(to_chars(".aemm-remove-").as_slice(), id.as_slice()).as_slice())
}

/// A removal in progress: the mod's folder and the folder it is staged in.
#[derive(Debug, Clone, PartialEq, Eq)]
pub struct RepositoryRemoval {
    pub mod_id: u128,
    pub original_relative: RepositoryRelativePath,
    pub tombstone_relative: RepositoryRelativePath,
}

impl RepositoryRemoval {
    /// Both folders must be direct children of the root and the staging
    /// folder must carry the mod's tombstone name.
    pub fn new(
        mod_id: u128,
        original_relative: RepositoryRelativePath,
        tombstone_relative: RepositoryRelativePath,
    ) -> (r: Result<RepositoryRemoval, AppError>)
        ensures
            r is Ok <==> direct_child_path(original_relative.path@) && direct_child_path(
                tombstone_relative.path@,
            ) && storage_form(tombstone_relative.path@) == spec_removal_tombstone_name(mod_id),
            r matches Ok(v) ==> v.mod_id == mod_id && v.original_relative == original_relative
                && v.tombstone_relative == tombstone_relative,
            r matches Err(e) ==> e is UnsafePath,
    {
        let key = tombstone_relative.storage_key();
        let expected = removal_tombstone_name(mod_id);
        let a = to_chars(key.as_str());
        let b = to_chars(expected.as_str());
        if !original_relative.is_direct_child() || !tombstone_relative.is_direct_child() || !chars_eq(
            a.as_slice(),
            b.as_slice(),
        ) {
            return Err(AppError::UnsafePath(msg("模组移除路径必须是匹配 UUID 的仓库直属目录。")));
        }
        Ok(RepositoryRemoval { mod_id, original_relative, tombstone_relative })
    }
}

/// The repository root, by its canonical path.
#[derive(Debug, Clone)]
pub struct RepositoryRoot {
    pub canonical_path: String,
}

pub const REPOSITORY_MARKER_KIND: &'static str = "aemm-mod-repository";
pub const REPOSITORY_MARKER_VERSION: u32 = 1;
pub const MAX_MARKER_BYTES: u64 = 4096;

/// What opening a repository directory leads to.
#[derive(Debug, Clone, Copy, PartialEq, Eq, Structural)]
pub enum TakeoverAction {
    /// The directory already carries a valid marker and is used as it is.
    UseExisting,
    /// The directory is taken over: the marker is written.
    CreateMarker,
}

/// Whether a directory may serve as the repository. A marker that is there
/// must be valid; without one, a non-empty directory is refused under
/// `EmptyOnly`, and otherwise the marker is created.
pub fn decide_takeover(
    marker_exists: bool,
    marker_valid: bool,
    policy: RepositoryInitializationPolicy,
    has_entries: bool,
) -> (r: Result<TakeoverAction, AppError>)
    ensures
        marker_exists ==> (r is Ok <==> marker_valid),
        marker_exists && marker_valid ==> r == Ok::<TakeoverAction, AppError>(TakeoverAction::UseExisting),
        !marker_exists ==> (r is Ok <==> !(policy is EmptyOnly && has_entries)),
        !marker_exists && !(policy is EmptyOnly && has_entries) ==> r == Ok::<TakeoverAction, AppError>(
            TakeoverAction::CreateMarker,
        ),
        r matches Err(e) ==> e is UnsafePath,
{
    if marker_exists {
        if marker_valid {
            Ok(TakeoverAction::UseExisting)
        } else {
            Err(AppError::UnsafePath(msg("模组仓库所有权标记无效或大小异常。")))
        }
    } else if policy == RepositoryInitializationPolicy::EmptyOnly && has_entries {
        Err(
            AppError::UnsafePath(
                msg("拒绝接管缺少 AEMM 所有权标记的非空目录；请使用空目录或已初始化的仓库。"),
            ),
        )
    } else {
        Ok(TakeoverAction::CreateMarker)
    }
}

/// Whether a marker file found in the directory is the repository's own: a
/// regular file, no link, at most `MAX_MARKER_BYTES`, of the repository's
/// kind and schema version.
pub fn check_marker(is_link: bool, is_file: bool, size: u64, kind: &str, schema_version: u32) -> (r: Result<
    (),
    AppError,
>)
    ensures
        r is Ok <==> !is_link && is_file && size <= MAX_MARKER_BYTES && kind@ == REPOSITORY_MARKER_KIND@
            && schema_version == REPOSITORY_MARKER_VERSION,
        r matches Err(e) ==> e is UnsafePath,
{
    if is_link {
        return Err(AppError::UnsafePath(msg("模组仓库所有权标记不能是链接或重解析点。")));
    }
    if !is_file || size > MAX_MARKER_BYTES {
        return Err(AppError::UnsafePath(msg("模组仓库所有权标记无效或大小异常。")));
    }
    let k = to_chars(kind);
    let expected = to_chars(REPOSITORY_MARKER_KIND);
    if !chars_eq(k.as_slice(), expected.as_slice()) || schema_version != REPOSITORY_MARKER_VERSION {
        return Err(AppError::UnsafePath(msg("模组仓库所有权标记类型或版本不受支持。")));
    }
    Ok(())
}

/// A mod folder must be a direct child other than the marker file.
pub open spec fn mod_root_ok(relative: Seq<char>) -> bool {
    direct_child_path(relative) && storage_form(relative) != ".aemm-repository.json"@
}

impl RepositoryRoot {
    pub fn from_canonical(canonical_path: String) -> (r: RepositoryRoot)
        ensures
            r.canonical_path == canonical_path,
    {
        RepositoryRoot { canonical_path }
    }

    pub fn path(&self) -> (r: &str)
        ensures
            r@ == self.canonical_path@,
    {
        self.canonical_path.as_str()
    }

    fn check_mod_root(relative: &RepositoryRelativePath) -> (b: bool)
        ensures
            b == mod_root_ok(relative.path@),
    {
        let key = relative.storage_key();
        let a = to_chars(key.as_str());
        let marker = to_chars(REPOSITORY_MARKER_FILE);
        relative.is_direct_child() && !chars_eq(a.as_slice(), marker.as_slice())
    }

    /// Where the folder of a mod at `relative` goes.
    pub fn planned_mod_path(&self, relative: &RepositoryRelativePath) -> (r: Result<String, AppError>)
        ensures
            r is Ok <==> mod_root_ok(relative.path@),
            r matches Ok(p) ==> p@ == join_path(self.canonical_path@, relative.path@),
            r matches Err(e) ==> e is UnsafePath,
    {
        if !Self::check_mod_root(relative) {
            return Err(AppError::UnsafePath(msg("安装目标必须是仓库中的直属模组目录。")));
        }
        let root = to_chars(self.canonical_path.as_str());
        let rel = to_chars(relative.path.as_str());
        Ok(from_chars(join_chars(root.as_slice(), rel.as_slice()).as_slice()))
    }

    /// Accepts the existing folder of a mod, given the canonical form of the
    /// joined path and whether it is a directory: it must be a direct child
    /// other than the marker, resolve strictly below the root, and be a
    /// directory.
    pub fn resolve_existing_mod_root(
        &self,
        relative: &RepositoryRelativePath,
        canonical_candidate: &str,
        is_directory: bool,
    ) -> (r: Result<String, AppError>)
        ensures
            r is Ok <==> mod_root_ok(relative.path@) && strictly_below(
                self.canonical_path@,
                canonical_candidate@,
            ) && is_directory,
            r matches Ok(p) ==> p@ == canonical_candidate@,
            r matches Err(e) ==> e is UnsafePath,
    {
        if !Self::check_mod_root(relative) {
            return Err(AppError::UnsafePath(msg("模组根目录必须是仓库中的直属子目录。")));
        }
        if !is_strictly_below(self.canonical_path.as_str(), canonical_candidate) {
            return Err(AppError::UnsafePath(msg("仓库条目解析到了仓库根目录之外。")));
        }
        if !is_directory {
            return Err(AppError::UnsafePath(msg("模组根路径不是目录。")));
        }
        Ok(copy_str(canonical_candidate))
    }
}

/// What to do with an interrupted removal, by which folders exist.
#[derive(Debug, Clone, Copy, PartialEq, Eq, Structural)]
pub enum RemovalRecoveryStep {
    /// Only the original folder exists: check it and keep it.
    KeepOriginal,
    /// Only the staging folder exists: move it back.
    RestoreFromTombstone,
    /// Neither exists.
    NothingLeft,
}

pub fn plan_removal_recovery(original_exists: bool, tombstone_exists: bool) -> (r: Result<
    RemovalRecoveryStep,
    AppError,
>)
    ensures
        original_exists && !tombstone_exists ==> r == Ok::<RemovalRecoveryStep, AppError>(
            RemovalRecoveryStep::KeepOriginal,
        ),
        !original_exists && tombstone_exists ==> r == Ok::<RemovalRecoveryStep, AppError>(
            RemovalRecoveryStep::RestoreFromTombstone,
        ),
        !original_exists && !tombstone_exists ==> r == Ok::<RemovalRecoveryStep, AppError>(
            RemovalRecoveryStep::NothingLeft,
        ),
        original_exists && tombstone_exists ==> (r matches Err(e) && e is UnsafePath),
{
    match (original_exists, tombstone_exists) {
        (true, false) => Ok(RemovalRecoveryStep::KeepOriginal),
        (false, true) => Ok(RemovalRecoveryStep::RestoreFromTombstone),
        (false, false) => Ok(RemovalRecoveryStep::NothingLeft),
        (true, true) => Err(AppError::UnsafePath(msg("待恢复模组的原目录和移除暂存目录同时存在；已保留两者供人工检查。"))),
    }
}

/// The staging folder of every removed mod carries the removal prefix, so a
/// repository scan recognizes it and skips it.
pub proof fn lemma_tombstone_name_starts_with_prefix(mod_id: u128)
    ensures
        starts_with(spec_removal_tombstone_name(mod_id), ".aemm-remove-"@),
{
    let n = spec_removal_tombstone_name(mod_id);
    assert(n.take(".aemm-remove-"@.len() as int) =~= ".aemm-remove-"@);
}

} // verus!
