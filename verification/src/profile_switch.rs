//! Switching the active profile: the plan, the checks made while preparing
//! and committing it, and the run that revokes the source profile's
//! deployments, deploys the target profile's mods, commits, and cleans up,
//! undoing everything done so far when a step before the commit fails.
use vstd::prelude::*;
use crate::deployment::{DeploymentEntry, DeploymentManifest, EFMI_DIRECT_STRATEGY_ID};
use crate::error::{msg, AppError};
use crate::ids::{uuid_chars, uuid_text};
use crate::ini_facts::{file_name, file_name_chars};
use crate::text::{chars_eq, concat, concat_str, copy_str, from_chars, to_chars};

verus! {

/// What a profile switch will do: revoke the deployments of the source
/// profile and deploy the enabled mods of the target profile, in load order.
pub struct ProfileSwitchPlan {
    pub source_profile_id: u128,
    pub target_profile_id: u128,
    pub source_manifests: Vec<DeploymentManifest>,
    pub target_mod_ids: Vec<u128>,
    pub warnings: Vec<String>,
}

/// The plan when the target is already the active profile: nothing to do.
pub fn already_active_plan(profile_id: u128) -> (p: ProfileSwitchPlan)
    ensures
        p.source_profile_id == profile_id,
        p.target_profile_id == profile_id,
        p.source_manifests@.len() == 0,
        p.target_mod_ids@.len() == 0,
        p.warnings@.len() == 1,
        p.warnings@[0]@ == "所选 Profile 已经处于活动状态。"@,
{
    let mut warnings: Vec<String> = Vec::new();
    warnings.push(msg("所选 Profile 已经处于活动状态。"));
    ProfileSwitchPlan {
        source_profile_id: profile_id,
        target_profile_id: profile_id,
        source_manifests: Vec::new(),
        target_mod_ids: Vec::new(),
        warnings,
    }
}

/// A stored deployment record must belong to the profile and mod whose row
/// holds it.
pub fn check_manifest_owner(manifest: &DeploymentManifest, profile_id: u128, mod_id: u128) -> (r: Result<(), AppError>)
    ensures
        r is Ok <==> manifest.profile_id == profile_id && manifest.mod_id == mod_id,
        r matches Err(e) ==> e is DataIntegrity,
{
    if manifest.profile_id != profile_id || manifest.mod_id != mod_id {
        return Err(AppError::DataIntegrity(msg("部署清单 JSON 与 Profile/模组列不一致。")));
    }
    Ok(())
}

/// Before a switch, the source profile must have exactly one deployment
/// record per enabled mod, and the target profile none.
pub fn check_deployment_counts(source_manifests: usize, source_records: i64, target_records: i64) -> (r: Result<
    (),
    AppError,
>)
    ensures
        r is Ok <==> source_records == source_manifests && target_records == 0,
        r matches Err(e) ==> e is DataIntegrity,
{
    let n = source_manifests as u64;
    if n > 9223372036854775807u64 {
        return Err(AppError::DataIntegrity(msg("活动部署数量超出 SQLite 支持范围。")));
    }
    let expected = n as i64;
    if source_records != expected {
        return Err(AppError::DataIntegrity(msg("活动 Profile 的启用状态与部署记录不一致。")));
    }
    if target_records != 0 {
        return Err(AppError::DataIntegrity(msg("非活动目标 Profile 意外包含部署记录。")));
    }
    Ok(())
}

/// A mod the target profile enables can be deployed only when it is
/// installed and has a content fingerprint.
pub fn check_target_mod(lifecycle_state: &str, content_fingerprint: Option<&str>) -> (r: Result<(), AppError>)
    ensures
        r is Ok <==> lifecycle_state@ == "installed"@ && (content_fingerprint matches Some(f) && f@.len() > 0),
        r matches Err(e) ==> e is Profile,
{
    let installed = chars_eq(to_chars(lifecycle_state).as_slice(), to_chars("installed").as_slice());
    let has_fingerprint = match content_fingerprint {
        Some(f) => to_chars(f).len() > 0,
        None => false,
    };
    if !installed || !has_fingerprint {
        return Err(AppError::Profile(msg("目标 Profile 引用的模组当前不可部署，请先重新扫描或修复仓库。")));
    }
    Ok(())
}

/// The deployments made for the switch must match the plan one for one:
/// same count, and each for the target profile and the planned mod.
pub open spec fn target_matches(plan: &ProfileSwitchPlan, targets: Seq<DeploymentManifest>, k: int) -> bool {
    targets[k].profile_id == plan.target_profile_id && targets[k].mod_id == plan.target_mod_ids@[k]
}

pub open spec fn targets_match(plan: &ProfileSwitchPlan, targets: Seq<DeploymentManifest>) -> bool {
    &&& targets.len() == plan.target_mod_ids@.len()
    &&& forall|k: int| 0 <= k < targets.len() ==> #[trigger] target_matches(plan, targets, k)
}

/// A switch to the active profile itself commits nothing: the database is
/// left as it is and no check on the deployments is made.
pub fn commit_switch_required(plan: &ProfileSwitchPlan) -> (b: bool)
    ensures
        b == (plan.source_profile_id != plan.target_profile_id),
{
    plan.source_profile_id != plan.target_profile_id
}

pub fn check_target_manifests(plan: &ProfileSwitchPlan, targets: &Vec<DeploymentManifest>) -> (r: Result<(), AppError>)
    ensures
        r is Ok <==> targets_match(plan, targets@),
        r matches Err(e) ==> e is DataIntegrity,
{
    if targets.len() != plan.target_mod_ids.len() {
        return Err(AppError::DataIntegrity(msg("目标部署结果与 Profile 计划数量不一致。")));
    }
    let mut k: usize = 0;
    while k < targets.len()
        invariant
            k <= targets@.len(),
            targets@.len() == plan.target_mod_ids@.len(),
            forall|q: int| 0 <= q < k ==> #[trigger] target_matches(plan, targets@, q),
        decreases targets@.len() - k,
    {
        if targets[k].profile_id != plan.target_profile_id || targets[k].mod_id != plan.target_mod_ids[k] {
            proof {
                assert(!target_matches(plan, targets@, k as int));
            }
            return Err(AppError::DataIntegrity(msg("目标部署清单与 Profile 切换计划不一致。")));
        }
        proof {
            assert(target_matches(plan, targets@, k as int));
        }
        k = k + 1;
    }
    Ok(())
}

/// A deployment record as plain values.
pub struct ManifestView {
    pub schema_version: u32,
    pub id: u128,
    pub profile_id: u128,
    pub mod_id: u128,
    pub strategy_id: Seq<char>,
    pub destination_root: Seq<char>,
    pub destination_directory: Seq<char>,
    pub source_content_fingerprint: Seq<char>,
    pub entries: Seq<(Seq<char>, Seq<char>, u64, Seq<char>)>,
    pub created_at: i64,
}

pub open spec fn entry_plain(e: DeploymentEntry) -> (Seq<char>, Seq<char>, u64, Seq<char>) {
    (e.source_relative@, e.destination_relative@, e.size_bytes, e.content_hash@)
}

pub open spec fn manifest_plain(m: DeploymentManifest) -> ManifestView {
    ManifestView {
        schema_version: m.schema_version,
        id: m.id,
        profile_id: m.profile_id,
        mod_id: m.mod_id,
        strategy_id: m.strategy_id@,
        destination_root: m.destination_root@,
        destination_directory: m.destination_directory@,
        source_content_fingerprint: m.source_content_fingerprint@,
        entries: m.entries@.map_values(|e: DeploymentEntry| entry_plain(e)),
        created_at: m.created_at,
    }
}

fn same_text(a: &str, b: &str) -> (r: bool)
    ensures
        r == (a@ == b@),
{
    chars_eq(to_chars(a).as_slice(), to_chars(b).as_slice())
}

/// Two deployment records are the same, field by field.
pub fn same_manifest(a: &DeploymentManifest, b: &DeploymentManifest) -> (r: bool)
    ensures
        r == (manifest_plain(*a) == manifest_plain(*b)),
{
    let ghost ea = a.entries@.map_values(|e: DeploymentEntry| entry_plain(e));
    let ghost eb = b.entries@.map_values(|e: DeploymentEntry| entry_plain(e));
    if a.schema_version != b.schema_version || a.id != b.id || a.profile_id != b.profile_id || a.mod_id != b.mod_id
        || a.created_at != b.created_at || !same_text(a.strategy_id.as_str(), b.strategy_id.as_str()) || !same_text(
        a.destination_root.as_str(),
        b.destination_root.as_str(),
    ) || !same_text(a.destination_directory.as_str(), b.destination_directory.as_str()) || !same_text(
        a.source_content_fingerprint.as_str(),
        b.source_content_fingerprint.as_str(),
    ) {
        return false;
    }
    if a.entries.len() != b.entries.len() {
        proof {
            assert(ea.len() != eb.len());
        }
        return false;
    }
    let mut k: usize = 0;
    while k < a.entries.len()
        invariant
            k <= a.entries@.len(),
            a.entries@.len() == b.entries@.len(),
            ea == a.entries@.map_values(|e: DeploymentEntry| entry_plain(e)),
            eb == b.entries@.map_values(|e: DeploymentEntry| entry_plain(e)),
            forall|q: int| 0 <= q < k ==> ea[q] == eb[q],
        decreases a.entries@.len() - k,
    {
        let x = &a.entries[k];
        let y = &b.entries[k];
        if x.size_bytes != y.size_bytes || !same_text(x.source_relative.as_str(), y.source_relative.as_str())
            || !same_text(x.destination_relative.as_str(), y.destination_relative.as_str()) || !same_text(
            x.content_hash.as_str(),
            y.content_hash.as_str(),
        ) {
            proof {
                assert(ea[k as int] != eb[k as int]);
            }
            return false;
        }
        k = k + 1;
    }
    proof {
        assert(ea =~= eb);
    }
    true
}

/// The record the database holds for `mod_id`: with several, the last one
/// read wins.
pub open spec fn current_for(current: Seq<DeploymentManifest>, mod_id: u128) -> Option<ManifestView>
    decreases current.len(),
{
    if current.len() == 0 {
        None
    } else if current.last().mod_id == mod_id {
        Some(manifest_plain(current.last()))
    } else {
        current_for(current.drop_last(), mod_id)
    }
}

/// The number of different mods among the records.
pub open spec fn distinct_mods(current: Seq<DeploymentManifest>) -> nat
    decreases current.len(),
{
    if current.len() == 0 {
        0
    } else if current_for(current.drop_last(), current.last().mod_id) is Some {
        distinct_mods(current.drop_last())
    } else {
        distinct_mods(current.drop_last()) + 1
    }
}

/// At commit time the source profile's records must still be the ones the
/// plan was made from.
pub open spec fn source_unchanged(plan: &ProfileSwitchPlan, current: Seq<DeploymentManifest>) -> bool {
    &&& distinct_mods(current) == plan.source_manifests@.len()
    &&& forall|k: int|
        0 <= k < plan.source_manifests@.len() ==> current_for(current, #[trigger] plan.source_manifests@[k].mod_id)
            == Some(manifest_plain(plan.source_manifests@[k]))
}

fn current_record(current: &Vec<DeploymentManifest>, mod_id: u128) -> (r: Option<usize>)
    ensures
        r matches Some(i) ==> i < current@.len() && current_for(current@, mod_id) == Some(manifest_plain(current@[i as int])),
        r is None ==> current_for(current@, mod_id) is None,
{
    let mut n = current.len();
    proof {
        assert(current@.take(n as int) =~= current@);
    }
    while n > 0
        invariant
            n <= current@.len(),
            current_for(current@, mod_id) == current_for(current@.take(n as int), mod_id),
        decreases n,
    {
        let ghost t = current@.take(n as int);
        proof {
            assert(t.drop_last() =~= current@.take(n - 1));
            assert(t.last() == current@[n - 1]);
        }
        if current[n - 1].mod_id == mod_id {
            return Some(n - 1);
        }
        n = n - 1;
    }
    None
}

fn count_distinct(current: &Vec<DeploymentManifest>) -> (r: u64)
    ensures
        r == distinct_mods(current@),
{
    let mut count: u64 = 0;
    let mut i: usize = 0;
    while i < current.len()
        invariant
            i <= current@.len(),
            count == distinct_mods(current@.take(i as int)),
            count <= i,
        decreases current@.len() - i,
    {
        let ghost t = current@.take(i + 1);
        proof {
            assert(t.drop_last() =~= current@.take(i as int));
            assert(t.last() == current@[i as int]);
        }
        let mut seen = false;
        let mut n = i;
        while n > 0
            invariant
                n <= i,
                i < current@.len(),
                current_for(current@.take(i as int), current@[i as int].mod_id) is Some <==> (seen
                    || current_for(current@.take(n as int), current@[i as int].mod_id) is Some),
            decreases n,
        {
            let ghost u = current@.take(n as int);
            proof {
                assert(u.drop_last() =~= current@.take(n - 1));
                assert(u.last() == current@[n - 1]);
            }
            if current[n - 1].mod_id == current[i].mod_id {
                seen = true;
            }
            n = n - 1;
        }
        if !seen {
            count = count + 1;
        }
        i = i + 1;
    }
    proof {
        assert(current@.take(current@.len() as int) =~= current@);
    }
    count
}

/// Checks, at commit time, that the source profile's deployment records are
/// still those of the plan.
pub fn check_source_unchanged(plan: &ProfileSwitchPlan, current: &Vec<DeploymentManifest>) -> (r: Result<
    (),
    AppError,
>)
    ensures
        r is Ok <==> source_unchanged(plan, current@),
        r matches Err(e) ==> e is DataIntegrity,
{
    let distinct = count_distinct(current);
    if distinct != plan.source_manifests.len() as u64 {
        return Err(AppError::DataIntegrity(msg("提交切换前源 Profile 部署记录已发生变化。")));
    }
    let mut k: usize = 0;
    while k < plan.source_manifests.len()
        invariant
            k <= plan.source_manifests@.len(),
            distinct_mods(current@) == plan.source_manifests@.len(),
            forall|q: int|
                0 <= q < k ==> current_for(current@, #[trigger] plan.source_manifests@[q].mod_id) == Some(
                    manifest_plain(plan.source_manifests@[q]),
                ),
        decreases plan.source_manifests@.len() - k,
    {
        let m = &plan.source_manifests[k];
        let same = match current_record(current, m.mod_id) {
            Some(i) => same_manifest(&current[i], m),
            None => false,
        };
        if !same {
            return Err(AppError::DataIntegrity(msg("提交切换前源 Profile 部署记录已发生变化。")));
        }
        k = k + 1;
    }
    Ok(())
}

/// The repository paths a committed switch records for mods kept in place
/// by the direct strategy: each revoked source folder now carries the
/// `DISABLED_` prefix, each deployed target folder its plain name.
pub open spec fn path_update(m: DeploymentManifest, disabled: bool) -> Option<(u128, Seq<char>)> {
    if m.strategy_id@ == EFMI_DIRECT_STRATEGY_ID@ {
        match file_name(m.destination_directory@) {
            Some(n) => Some((m.mod_id, if disabled {
                "DISABLED_"@ + n
            } else {
                n
            })),
            None => None,
        }
    } else {
        None
    }
}

pub open spec fn updates_of(ms: Seq<DeploymentManifest>, disabled: bool) -> Seq<(u128, Seq<char>)>
    decreases ms.len(),
{
    if ms.len() == 0 {
        Seq::empty()
    } else {
        let rest = updates_of(ms.drop_last(), disabled);
        match path_update(ms.last(), disabled) {
            Some(u) => rest.push(u),
            None => rest,
        }
    }
}

/// A direct-strategy record without a folder name.
pub open spec fn nameless_direct(ms: Seq<DeploymentManifest>) -> bool {
    exists|k: int|
        0 <= k < ms.len() && #[trigger] ms[k].strategy_id@ == EFMI_DIRECT_STRATEGY_ID@ && file_name(
            ms[k].destination_directory@,
        ) is None
}

fn push_updates(ms: &Vec<DeploymentManifest>, disabled: bool, out: &mut Vec<(u128, String)>) -> (r: Result<(), AppError>)
    ensures
        r is Ok <==> !nameless_direct(ms@),
        r matches Err(e) ==> e is DataIntegrity,
        r is Ok ==> final(out)@.map_values(|u: (u128, String)| (u.0, u.1@)) == old(out)@.map_values(
            |u: (u128, String)| (u.0, u.1@),
        ) + updates_of(ms@, disabled),
{
    let ghost start = out@.map_values(|u: (u128, String)| (u.0, u.1@));
    let mut k: usize = 0;
    proof {
        assert(ms@.take(0) =~= Seq::<DeploymentManifest>::empty());
        assert(start + updates_of(ms@.take(0), disabled) =~= start);
    }
    while k < ms.len()
        invariant
            k <= ms@.len(),
            out@.map_values(|u: (u128, String)| (u.0, u.1@)) == start + updates_of(ms@.take(k as int), disabled),
            forall|q: int|
                0 <= q < k ==> !(#[trigger] ms@[q].strategy_id@ == EFMI_DIRECT_STRATEGY_ID@ && file_name(
                    ms@[q].destination_directory@,
                ) is None),
        decreases ms@.len() - k,
    {
        let m = &ms[k];
        proof {
            assert(ms@.take(k + 1).drop_last() =~= ms@.take(k as int));
            assert(ms@.take(k + 1).last() == ms@[k as int]);
        }
        if same_text(m.strategy_id.as_str(), EFMI_DIRECT_STRATEGY_ID) {
            match file_name_chars(to_chars(m.destination_directory.as_str()).as_slice()) {
                Some(n) => {
                    let value = if disabled {
                        from_chars(concat(to_chars("DISABLED_").as_slice(), n.as_slice()).as_slice())
                    } else {
                        from_chars(n.as_slice())
                    };
                    let ghost before = out@;
                    out.push((m.mod_id, value));
                    proof {
                        assert(out@.map_values(|u: (u128, String)| (u.0, u.1@)) =~= before.map_values(
                            |u: (u128, String)| (u.0, u.1@),
                        ).push((m.mod_id, value@)));
                    }
                },
                None => {
                    return Err(AppError::DataIntegrity(msg("EFMI 原地状态清单缺少有效目录名称。")));
                },
            }
        }
        k = k + 1;
    }
    proof {
        assert(ms@.take(ms@.len() as int) =~= ms@);
    }
    Ok(())
}

/// The repository path updates of a committed switch: first the revoked
/// source records, then the deployed target records, each in order.
pub fn repository_path_updates(plan: &ProfileSwitchPlan, targets: &Vec<DeploymentManifest>) -> (r: Result<
    Vec<(u128, String)>,
    AppError,
>)
    ensures
        r is Ok <==> !nameless_direct(plan.source_manifests@) && !nameless_direct(targets@),
        r matches Err(e) ==> e is DataIntegrity,
        r matches Ok(v) ==> v@.map_values(|u: (u128, String)| (u.0, u.1@)) == updates_of(
            plan.source_manifests@,
            true,
        ) + updates_of(targets@, false),
{
    let mut out: Vec<(u128, String)> = Vec::new();
    proof {
        assert(out@.map_values(|u: (u128, String)| (u.0, u.1@)) =~= Seq::<(u128, Seq<char>)>::empty());
    }
    push_updates(&plan.source_manifests, true, &mut out)?;
    push_updates(targets, false, &mut out)?;
    proof {
        assert(Seq::<(u128, Seq<char>)>::empty() + updates_of(plan.source_manifests@, true) =~= updates_of(
            plan.source_manifests@,
            true,
        ));
    }
    Ok(out)
}

// ---------------------------------------------------------------------------
// Running a switch
// ---------------------------------------------------------------------------
/// The next outside step of a switch.
#[derive(Debug, Clone, Copy, PartialEq, Eq, Structural)]
pub enum SwitchAction {
    /// Revoke the deployment of source record `i` (plan the revoke, then
    /// begin it).
    RevokeSource(usize),
    /// Deploy target mod `j` (build its context, plan, deploy).
    DeployTarget(usize),
    /// Commit the switch in the database.
    Commit,
    /// Remove the revoked folder of source record `i` for good.
    FinalizeSource(usize),
    /// Undo the target deployments `0..deployed` in reverse order, then
    /// restore the revoked sources `0..revoked` in reverse order.
    RollBack { deployed: usize, revoked: usize },
    /// Nothing is left to do.
    Finish,
}

/// The progress of a switch.
#[derive(Debug, Clone, Copy, PartialEq, Eq, Structural)]
pub struct ProfileSwitchRun {
    pub sources: usize,
    pub targets: usize,
    pub revoked: usize,
    pub deployed: usize,
    pub committed: bool,
    pub finalized: usize,
    pub failed: bool,
}

impl ProfileSwitchRun {
    /// Every step happens in order: all revokes, then all deployments, then
    /// the commit, then the cleanups; a failure can only come before the
    /// commit.
    pub open spec fn wf(self) -> bool {
        &&& self.revoked <= self.sources
        &&& self.deployed <= self.targets
        &&& self.deployed > 0 ==> self.revoked == self.sources
        &&& self.committed ==> self.revoked == self.sources && self.deployed == self.targets
        &&& self.finalized <= self.sources
        &&& self.finalized > 0 ==> self.committed
        &&& self.failed ==> !self.committed
    }

    pub open spec fn action(self) -> SwitchAction {
        if self.failed {
            SwitchAction::RollBack { deployed: self.deployed, revoked: self.revoked }
        } else if self.revoked < self.sources {
            SwitchAction::RevokeSource(self.revoked)
        } else if self.deployed < self.targets {
            SwitchAction::DeployTarget(self.deployed)
        } else if !self.committed {
            SwitchAction::Commit
        } else if self.finalized < self.sources {
            SwitchAction::FinalizeSource(self.finalized)
        } else {
            SwitchAction::Finish
        }
    }

    /// A switch of `sources` revokes and `targets` deployments, not yet
    /// started.
    pub fn new(sources: usize, targets: usize) -> (s: Self)
        ensures
            s.wf(),
            s == (ProfileSwitchRun {
                sources,
                targets,
                revoked: 0,
                deployed: 0,
                committed: false,
                finalized: 0,
                failed: false,
            }),
    {
        ProfileSwitchRun { sources, targets, revoked: 0, deployed: 0, committed: false, finalized: 0, failed: false }
    }

    /// The next step to perform.
    pub fn next_action(&self) -> (a: SwitchAction)
        ensures
            a == self.action(),
    {
        if self.failed {
            SwitchAction::RollBack { deployed: self.deployed, revoked: self.revoked }
        } else if self.revoked < self.sources {
            SwitchAction::RevokeSource(self.revoked)
        } else if self.deployed < self.targets {
            SwitchAction::DeployTarget(self.deployed)
        } else if !self.committed {
            SwitchAction::Commit
        } else if self.finalized < self.sources {
            SwitchAction::FinalizeSource(self.finalized)
        } else {
            SwitchAction::Finish
        }
    }

    /// Records that the step `action()` named succeeded.
    pub fn succeeded(&mut self)
        requires
            old(self).wf(),
            !old(self).failed,
            old(self).action() != SwitchAction::Finish,
        ensures
            final(self).wf(),
            ({
                let s = *old(self);
                match s.action() {
                    SwitchAction::RevokeSource(_) => *final(self) == ProfileSwitchRun { revoked: (s.revoked + 1) as usize, ..s },
                    SwitchAction::DeployTarget(_) => *final(self) == ProfileSwitchRun { deployed: (s.deployed + 1) as usize, ..s },
                    SwitchAction::Commit => *final(self) == ProfileSwitchRun { committed: true, ..s },
                    SwitchAction::FinalizeSource(_) => *final(self) == ProfileSwitchRun { finalized: (s.finalized + 1) as usize, ..s },
                    _ => false,
                }
            }),
    {
        if self.revoked < self.sources {
            self.revoked = self.revoked + 1;
        } else if self.deployed < self.targets {
            self.deployed = self.deployed + 1;
        } else if !self.committed {
            self.committed = true;
        } else {
            self.finalized = self.finalized + 1;
        }
    }

    /// Records that the step `action()` named failed. Before the commit the
    /// switch must be undone; a cleanup that fails after the commit is left
    /// for the next start and the switch goes on.
    pub fn step_failed(&mut self)
        requires
            old(self).wf(),
            !old(self).failed,
            old(self).action() != SwitchAction::Finish,
        ensures
            final(self).wf(),
            ({
                let s = *old(self);
                match s.action() {
                    SwitchAction::FinalizeSource(_) => *final(self) == ProfileSwitchRun { finalized: (s.finalized + 1) as usize, ..s },
                    _ => *final(self) == ProfileSwitchRun { failed: true, ..s },
                }
            }),
    {
        if self.revoked < self.sources || self.deployed < self.targets || !self.committed {
            self.failed = true;
        } else {
            self.finalized = self.finalized + 1;
        }
    }

    /// Whether the loader must be reachable: only when something is revoked
    /// or deployed.
    pub fn needs_loader(&self) -> (b: bool)
        ensures
            b == (self.sources > 0 || self.targets > 0),
    {
        self.sources > 0 || self.targets > 0
    }
}

/// A successful switch leads, one step at a time, through every revoke,
/// every deployment, the commit and every cleanup, in that order.
pub proof fn lemma_successful_switch_order(s: ProfileSwitchRun)
    requires
        s.wf(),
        !s.failed,
    ensures
        s.revoked < s.sources ==> s.action() == SwitchAction::RevokeSource(s.revoked),
        s.revoked == s.sources && s.deployed < s.targets ==> s.action() == SwitchAction::DeployTarget(s.deployed),
        s.revoked == s.sources && s.deployed == s.targets && !s.committed ==> s.action() == SwitchAction::Commit,
        s.committed && s.finalized == s.sources ==> s.action() == SwitchAction::Finish,
{
}

/// A failure undoes exactly what was done: the rollback names every
/// deployment made and every revoke begun, and nothing after a commit is
/// ever rolled back.
pub proof fn lemma_failure_rolls_back_progress(s: ProfileSwitchRun)
    requires
        s.wf(),
        !s.failed,
        s.action() != SwitchAction::Finish,
    ensures
        ({
            let f = if s.action() matches SwitchAction::FinalizeSource(_) {
                ProfileSwitchRun { finalized: (s.finalized + 1) as usize, ..s }
            } else {
                ProfileSwitchRun { failed: true, ..s }
            };
            &&& !s.committed ==> f.action() == SwitchAction::RollBack { deployed: s.deployed, revoked: s.revoked }
            &&& s.committed ==> !f.failed
        }),
{
}

pub open spec fn cleanup_warning_text(mod_id: u128) -> Seq<char> {
    "源 Profile 的模组 "@ + uuid_text(mod_id) + " 已撤销，但隔离目录清理将在下次启动重试。"@
}

/// The warning for a revoked source whose folder could not be removed after
/// the commit.
pub fn cleanup_warning(mod_id: u128) -> (r: String)
    ensures
        r@ == cleanup_warning_text(mod_id),
{
    let v = concat(to_chars("源 Profile 的模组 ").as_slice(), uuid_chars(mod_id).as_slice());
    let v = concat_str(v.as_slice(), " 已撤销，但隔离目录清理将在下次启动重试。");
    from_chars(v.as_slice())
}

} // verus!
