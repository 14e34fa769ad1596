//! Small rules of the application services: batches of mods to enable or
//! disable, warnings shown once, the repository policy of a configured
//! folder, and checks on stored deployment records.
use vstd::prelude::*;
use crate::conflicts::text_views;
use crate::deployment::DeploymentManifest;
use crate::error::{msg, AppError};
use crate::ini_facts::{file_name, file_name_chars};
use crate::path_safety::{storage_chars, storage_form};
use crate::repository::RepositoryInitializationPolicy;
use crate::settings::{normalized_path_key, spec_normalized_path_key};
use crate::text::{chars_eq, chars_eq_ic, copy_str, eq_ic, from_chars, to_chars};

verus! {

/// The most mods one enable or disable request may name.
pub const MAX_BATCH_DEPLOYMENTS: usize = 256;

/// `s` without repeated elements, each kept where it first appears.
pub open spec fn first_occurrences<A>(s: Seq<A>) -> Seq<A>
    decreases s.len(),
{
    if s.len() == 0 {
        s
    } else {
        let rest = first_occurrences(s.drop_last());
        if s.drop_last().contains(s.last()) {
            rest
        } else {
            rest.push(s.last())
        }
    }
}

proof fn lemma_first_occurrences_contains<A>(s: Seq<A>, x: A)
    ensures
        first_occurrences(s).contains(x) <==> s.contains(x),
    decreases s.len(),
{
    if s.len() > 0 {
        let d = s.drop_last();
        let l = s.last();
        lemma_first_occurrences_contains(d, x);
        let rest = first_occurrences(d);
        assert(s =~= d.push(l));
        assert(s.contains(x) <==> d.contains(x) || x == l) by {
            if s.contains(x) {
                let k = choose|k: int| 0 <= k < s.len() && s[k] == x;
                if k < d.len() {
                    assert(d[k] == x);
                }
            }
            if d.contains(x) {
                let k = choose|k: int| 0 <= k < d.len() && d[k] == x;
                assert(s[k] == x);
            }
            if x == l {
                assert(s[s.len() - 1] == x);
            }
        }
        if !d.contains(l) {
            let p = rest.push(l);
            assert(p.contains(x) <==> rest.contains(x) || x == l) by {
                if p.contains(x) {
                    let k = choose|k: int| 0 <= k < p.len() && p[k] == x;
                    if k < rest.len() {
                        assert(rest[k] == x);
                    }
                }
                if rest.contains(x) {
                    let k = choose|k: int| 0 <= k < rest.len() && rest[k] == x;
                    assert(p[k] == x);
                }
                if x == l {
                    assert(p[p.len() - 1] == x);
                }
            }
        }
    }
}

/// Keeping first occurrences leaves every element exactly once: nothing is
/// lost, nothing is added, nothing repeats.
pub proof fn lemma_first_occurrences_unique<A>(s: Seq<A>)
    ensures
        forall|x: A| first_occurrences(s).contains(x) <==> s.contains(x),
        forall|i: int, j: int|
            0 <= i < j < first_occurrences(s).len() ==> first_occurrences(s)[i] != first_occurrences(s)[j],
    decreases s.len(),
{
    assert forall|x: A| first_occurrences(s).contains(x) <==> s.contains(x) by {
        lemma_first_occurrences_contains(s, x);
    }
    if s.len() > 0 {
        let d = s.drop_last();
        lemma_first_occurrences_unique(d);
        let rest = first_occurrences(d);
        if !d.contains(s.last()) {
            let p = rest.push(s.last());
            assert forall|i: int, j: int| 0 <= i < j < p.len() implies p[i] != p[j] by {
                if j == p.len() - 1 {
                    assert(p[i] == rest[i]);
                    assert(rest.contains(rest[i]));
                } else {
                    assert(p[i] == rest[i] && p[j] == rest[j]);
                }
            }
        }
    }
}

/// Checks the mods of an enable or disable request: at least one and at most
/// `MAX_BATCH_DEPLOYMENTS`, each kept once in first-seen order.
pub fn validate_batch(mod_ids: Vec<u128>) -> (r: Result<Vec<u128>, AppError>)
    ensures
        mod_ids@.len() == 0 || mod_ids@.len() > MAX_BATCH_DEPLOYMENTS <==> r is Err,
        r matches Err(e) ==> e is Deployment,
        r matches Ok(v) ==> v@ == first_occurrences(mod_ids@),
{
    if mod_ids.len() == 0 {
        return Err(AppError::Deployment(msg("请至少选择一个模组。")));
    }
    if mod_ids.len() > MAX_BATCH_DEPLOYMENTS {
        return Err(AppError::Deployment(msg("单次最多启停 256 个模组。")));
    }
    let ghost s = mod_ids@;
    let mut unique: Vec<u128> = Vec::new();
    let mut i: usize = 0;
    while i < mod_ids.len()
        invariant
            s == mod_ids@,
            i <= s.len(),
            unique@ == first_occurrences(s.take(i as int)),
        decreases s.len() - i,
    {
        let id = mod_ids[i];
        let mut seen = false;
        let mut k: usize = 0;
        while k < unique.len()
            invariant
                k <= unique@.len(),
                seen <==> exists|m: int| 0 <= m < k && unique@[m] == id,
            decreases unique@.len() - k,
        {
            if unique[k] == id {
                seen = true;
            }
            k = k + 1;
        }
        proof {
            let t = s.take(i + 1);
            assert(t.drop_last() =~= s.take(i as int));
            assert(t.last() == id);
            lemma_first_occurrences_contains(s.take(i as int), id);
            if seen {
                let m = choose|m: int| 0 <= m < k && unique@[m] == id;
                assert(unique@.contains(id));
            } else {
                assert(!unique@.contains(id));
            }
        }
        if !seen {
            unique.push(id);
        }
        i = i + 1;
    }
    proof {
        assert(s.take(s.len() as int) =~= s);
    }
    Ok(unique)
}

/// The warnings, each shown once, in first-seen order.
pub fn deduplicate_warnings(warnings: Vec<String>) -> (r: Vec<String>)
    ensures
        text_views(r@) == first_occurrences(text_views(warnings@)),
{
    let ghost s = text_views(warnings@);
    let mut unique: Vec<String> = Vec::new();
    let mut i: usize = 0;
    while i < warnings.len()
        invariant
            s == text_views(warnings@),
            i <= s.len(),
            text_views(unique@) == first_occurrences(s.take(i as int)),
        decreases s.len() - i,
    {
        let w = to_chars(warnings[i].as_str());
        let mut seen = false;
        let mut k: usize = 0;
        while k < unique.len()
            invariant
                k <= unique@.len(),
                seen <==> exists|m: int| 0 <= m < k && unique@[m]@ == w@,
            decreases unique@.len() - k,
        {
            if chars_eq(to_chars(unique[k].as_str()).as_slice(), w.as_slice()) {
                seen = true;
            }
            k = k + 1;
        }
        proof {
            let t = s.take(i + 1);
            assert(t.drop_last() =~= s.take(i as int));
            assert(t.last() == w@);
            lemma_first_occurrences_contains(s.take(i as int), w@);
            if seen {
                let m = choose|m: int| 0 <= m < k && unique@[m]@ == w@;
                assert(text_views(unique@)[m] == w@);
            } else {
                assert forall|m: int| 0 <= m < text_views(unique@).len() implies text_views(unique@)[m] != w@ by {
                    assert(unique@[m]@ != w@);
                }
            }
        }
        if !seen {
            let ghost old_u = unique@;
            unique.push(from_chars(w.as_slice()));
            proof {
                assert(text_views(unique@) =~= text_views(old_u).push(w@));
            }
        }
        i = i + 1;
    }
    proof {
        assert(s.take(s.len() as int) =~= s);
    }
    unique
}

/// The first issue, or the fallback when there is none.
pub fn first_issue(issues: &Vec<String>, fallback: &str) -> (r: String)
    ensures
        r@ == (if issues@.len() > 0 {
            issues@[0]@
        } else {
            fallback@
        }),
{
    if issues.len() > 0 {
        copy_str(issues[0].as_str())
    } else {
        copy_str(fallback)
    }
}

/// The policy for opening the configured repository folder: an EFMI `Mods`
/// folder is used in place, the application's default folder may be taken
/// over, and any other folder must be empty.
pub open spec fn spec_repository_policy(path: Seq<char>, default_path: Seq<char>) -> RepositoryInitializationPolicy {
    if file_name(path) matches Some(n) && eq_ic(n, "Mods"@) {
        RepositoryInitializationPolicy::ExternalEfmiMods
    } else if spec_normalized_path_key(path) == spec_normalized_path_key(default_path) {
        RepositoryInitializationPolicy::TrustedAemmDefault
    } else {
        RepositoryInitializationPolicy::EmptyOnly
    }
}

/// Two paths are the same place regardless of case, separator style and
/// trailing separators.
pub fn paths_equal_case_insensitive(left: &str, right: &str) -> (b: bool)
    ensures
        b == (spec_normalized_path_key(left@) == spec_normalized_path_key(right@)),
{
    let l = normalized_path_key(left);
    let r = normalized_path_key(right);
    chars_eq(to_chars(l.as_str()).as_slice(), to_chars(r.as_str()).as_slice())
}

pub fn repository_policy(path: &str, default_path: &str) -> (r: RepositoryInitializationPolicy)
    ensures
        r == spec_repository_policy(path@, default_path@),
{
    let is_mods = match file_name_chars(to_chars(path).as_slice()) {
        Some(n) => chars_eq_ic(n.as_slice(), to_chars("Mods").as_slice()),
        None => false,
    };
    if is_mods {
        RepositoryInitializationPolicy::ExternalEfmiMods
    } else if paths_equal_case_insensitive(path, default_path) {
        RepositoryInitializationPolicy::TrustedAemmDefault
    } else {
        RepositoryInitializationPolicy::EmptyOnly
    }
}

/// A stored deployment record must belong to the profile it is read for.
pub fn validate_manifest_identity(manifest: &DeploymentManifest, profile_id: u128) -> (r: Result<(), AppError>)
    ensures
        r is Ok <==> manifest.profile_id == profile_id,
        r matches Err(e) ==> e is DataIntegrity,
{
    if manifest.profile_id != profile_id {
        return Err(AppError::DataIntegrity(msg("部署清单不属于当前 Profile。")));
    }
    Ok(())
}

/// A path equals a stored path, comparing `/`-separated forms regardless of
/// ASCII case.
pub fn paths_equal_storage(path: &str, stored: &str) -> (b: bool)
    ensures
        b == eq_ic(storage_form(path@), storage_form(stored@)),
{
    let a = storage_chars(to_chars(path).as_slice());
    let b = storage_chars(to_chars(stored).as_slice());
    chars_eq_ic(a.as_slice(), b.as_slice())
}

/// The folder name a deployment record of the in-place strategy names.
pub fn manifest_directory_name(manifest: &DeploymentManifest) -> (r: Result<String, AppError>)
    ensures
        r matches Ok(n) ==> file_name(manifest.destination_directory@) == Some(n@),
        r is Err <==> file_name(manifest.destination_directory@) is None,
        r matches Err(e) ==> e is DataIntegrity,
{
    match file_name_chars(to_chars(manifest.destination_directory.as_str()).as_slice()) {
        Some(n) => Ok(from_chars(n.as_slice())),
        None => Err(AppError::DataIntegrity(msg("EFMI 原地状态清单缺少有效目录名称。"))),
    }
}

/// The most mods one uninstall request may name.
pub const MAX_REMOVAL_BATCH: usize = 256;

/// Checks the mods of an uninstall request: at most `MAX_REMOVAL_BATCH`,
/// each kept once in first-seen order (an empty request removes nothing).
pub fn validate_removal_batch(mod_ids: Vec<u128>) -> (r: Result<Vec<u128>, AppError>)
    ensures
        mod_ids@.len() > MAX_REMOVAL_BATCH <==> r is Err,
        r matches Err(e) ==> e is ModInstall,
        r matches Ok(v) ==> v@ == first_occurrences(mod_ids@),
{
    if mod_ids.len() > MAX_REMOVAL_BATCH {
        return Err(AppError::ModInstall(msg("一次最多卸载 256 个模组。")));
    }
    if mod_ids.len() == 0 {
        return Ok(mod_ids);
    }
    let r = validate_batch(mod_ids);
    match r {
        Ok(v) => Ok(v),
        Err(_) => Err(AppError::ModInstall(msg("一次最多卸载 256 个模组。"))),
    }
}

pub open spec fn preview_cleanup_warning_text(mod_id: u128) -> Seq<char> {
    "模组 "@ + crate::ids::uuid_text(mod_id) + " 已卸载，但本地预览图未能清理；详情请查看日志。"@
}

/// The warning for an uninstalled mod whose local preview could not be
/// removed.
pub fn preview_cleanup_warning(mod_id: u128) -> (r: String)
    ensures
        r@ == preview_cleanup_warning_text(mod_id),
{
    let v = crate::text::concat(to_chars("模组 ").as_slice(), crate::ids::uuid_chars(mod_id).as_slice());
    let v = crate::text::concat_str(v.as_slice(), " 已卸载，但本地预览图未能清理；详情请查看日志。");
    from_chars(v.as_slice())
}

pub open spec fn removal_cleanup_warning_text(mod_id: u128) -> Seq<char> {
    "模组 "@ + crate::ids::uuid_text(mod_id) + " 已从数据库移除，但文件清理将在下次启动时重试。"@
}

/// The warning for an uninstalled mod whose files are left for the next
/// start to remove.
pub fn removal_cleanup_warning(mod_id: u128) -> (r: String)
    ensures
        r@ == removal_cleanup_warning_text(mod_id),
{
    let v = crate::text::concat(to_chars("模组 ").as_slice(), crate::ids::uuid_chars(mod_id).as_slice());
    let v = crate::text::concat_str(v.as_slice(), " 已从数据库移除，但文件清理将在下次启动时重试。");
    from_chars(v.as_slice())
}

/// Which storage folders a request changes: each compared with the
/// current one regardless of case, separator style and trailing separators.
pub fn storage_changes(current: &crate::settings::StorageSettings, requested: &crate::settings::StorageSettings) -> (r: (
    bool,
    bool,
))
    ensures
        r.0 == (spec_normalized_path_key(current.repository_path@) != spec_normalized_path_key(
            requested.repository_path@,
        )),
        r.1 == (spec_normalized_path_key(current.staging_path@) != spec_normalized_path_key(requested.staging_path@)),
{
    (
        !paths_equal_case_insensitive(current.repository_path.as_str(), requested.repository_path.as_str()),
        !paths_equal_case_insensitive(current.staging_path.as_str(), requested.staging_path.as_str()),
    )
}

/// The current folders may only be given up when nothing depends on them:
/// no installed mod and no content in a repository being changed, no
/// unfinished install in a staging folder being changed.
pub fn check_storage_release(
    repository_changed: bool,
    installed_mods: u64,
    repository_has_content: bool,
    staging_changed: bool,
    pending_operations: usize,
) -> (r: Result<(), AppError>)
    ensures
        r is Ok <==> !(repository_changed && (installed_mods != 0 || repository_has_content)) && !(staging_changed
            && pending_operations != 0),
        r matches Err(e) ==> e is ConfigValidation,
{
    if repository_changed && (installed_mods != 0 || repository_has_content) {
        return Err(AppError::ConfigValidation(msg("更改模组仓库前必须先卸载全部模组并清空旧仓库；AEMM 不会隐式搬运或遗留数据库引用。")));
    }
    if staging_changed && pending_operations != 0 {
        return Err(AppError::ConfigValidation(msg("存在未完成的安装事务，暂时不能更改临时目录。")));
    }
    Ok(())
}

/// The policy for opening a staging folder: the application's default may
/// be taken over, any other folder must be empty.
pub fn staging_policy(path: &str, default_path: &str) -> (r: crate::installer::StagingInitializationPolicy)
    ensures
        r == (if spec_normalized_path_key(path@) == spec_normalized_path_key(default_path@) {
            crate::installer::StagingInitializationPolicy::TrustedAemmDefault
        } else {
            crate::installer::StagingInitializationPolicy::EmptyOnly
        }),
{
    if paths_equal_case_insensitive(path, default_path) {
        crate::installer::StagingInitializationPolicy::TrustedAemmDefault
    } else {
        crate::installer::StagingInitializationPolicy::EmptyOnly
    }
}

/// New storage folders are taken over only when the repository holds no
/// unfinished uninstall and the staging folder no unfinished install.
pub fn check_new_storage(removal_tombstones: usize, pending_operations: usize) -> (r: Result<(), AppError>)
    ensures
        r is Ok <==> removal_tombstones == 0 && pending_operations == 0,
        r matches Err(e) ==> e is ConfigValidation,
{
    if removal_tombstones != 0 {
        return Err(AppError::ConfigValidation(msg("新仓库包含未完成的模组卸载暂存目录，必须先使用原数据库恢复。")));
    }
    if pending_operations != 0 {
        return Err(AppError::ConfigValidation(msg("新临时目录包含其他未完成的安装事务，已拒绝接管。")));
    }
    Ok(())
}

} // verus!
