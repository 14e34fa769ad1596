use aemm::deployment::{DeploymentEntry, DeploymentManifest};
use aemm::error::AppError;
use aemm::profile_switch::{
    already_active_plan, check_deployment_counts, check_manifest_owner, check_source_unchanged, check_target_manifests,
    check_target_mod, cleanup_warning, repository_path_updates, same_manifest, ProfileSwitchPlan, ProfileSwitchRun,
    SwitchAction,
};

fn manifest(profile_id: u128, mod_id: u128, strategy: &str, directory: &str) -> DeploymentManifest {
    DeploymentManifest {
        schema_version: 1,
        id: mod_id + 50,
        profile_id,
        mod_id,
        strategy_id: strategy.to_owned(),
        destination_root: "C:/EFMI/Mods".to_owned(),
        destination_directory: directory.to_owned(),
        source_content_fingerprint: "f".to_owned(),
        entries: vec![DeploymentEntry {
            source_relative: "a.ini".to_owned(),
            destination_relative: "a.ini".to_owned(),
            size_bytes: 1,
            content_hash: "a".repeat(64),
        }],
        created_at: 0,
    }
}

fn plan() -> ProfileSwitchPlan {
    ProfileSwitchPlan {
        source_profile_id: 1,
        target_profile_id: 2,
        source_manifests: vec![manifest(1, 10, "efmi.direct-folder.v1", "C:/EFMI/Mods/Alpha")],
        target_mod_ids: vec![20],
        warnings: vec![],
    }
}

#[test]
fn switching_to_the_active_profile_does_nothing() {
    let p = already_active_plan(5);
    assert_eq!(p.source_profile_id, 5);
    assert!(p.source_manifests.is_empty() && p.target_mod_ids.is_empty());
    assert_eq!(p.warnings, vec!["所选 Profile 已经处于活动状态。".to_owned()]);
}

#[test]
fn preparation_checks_records_and_target_mods() {
    assert!(check_deployment_counts(2, 2, 0).is_ok());
    assert!(matches!(check_deployment_counts(2, 1, 0), Err(AppError::DataIntegrity(_))));
    assert!(check_deployment_counts(0, 0, 1).is_err());
    assert!(check_target_mod("installed", Some("fp")).is_ok());
    assert!(matches!(check_target_mod("broken", Some("fp")), Err(AppError::Profile(_))));
    assert!(check_target_mod("installed", Some("")).is_err());
    assert!(check_target_mod("installed", None).is_err());
    assert!(check_manifest_owner(&manifest(1, 10, "x", "d"), 1, 10).is_ok());
    assert!(check_manifest_owner(&manifest(1, 10, "x", "d"), 1, 11).is_err());
}

#[test]
fn commit_checks_targets_and_unchanged_sources() {
    let p = plan();
    assert!(check_target_manifests(&p, &vec![manifest(2, 20, "x", "d")]).is_ok());
    assert!(check_target_manifests(&p, &vec![manifest(2, 21, "x", "d")]).is_err());
    assert!(check_target_manifests(&p, &vec![]).is_err());
    let current = vec![manifest(1, 10, "efmi.direct-folder.v1", "C:/EFMI/Mods/Alpha")];
    assert!(check_source_unchanged(&p, &current).is_ok());
    let mut changed = current[0].clone();
    changed.created_at = 9;
    assert!(!same_manifest(&changed, &current[0]));
    assert!(matches!(check_source_unchanged(&p, &vec![changed]), Err(AppError::DataIntegrity(_))));
    assert!(check_source_unchanged(&p, &vec![]).is_err());
}

#[test]
fn committed_switch_renames_direct_folders() {
    let p = plan();
    let targets = vec![manifest(2, 20, "efmi.direct-folder.v1", "C:/EFMI/Mods/Beta"), manifest(2, 21, "efmi.copy.v1", "AEMM_x")];
    let updates = repository_path_updates(&p, &targets).unwrap();
    assert_eq!(updates, vec![(10, "DISABLED_Alpha".to_owned()), (20, "Beta".to_owned())]);
    let bad = vec![manifest(2, 20, "efmi.direct-folder.v1", "C:/EFMI/..")];
    assert!(repository_path_updates(&p, &bad).is_err());
}

#[test]
fn a_successful_switch_runs_every_step_in_order() {
    let mut run = ProfileSwitchRun::new(2, 1);
    let mut actions = Vec::new();
    loop {
        let action = run.next_action();
        actions.push(action);
        if action == SwitchAction::Finish {
            break;
        }
        run.succeeded();
    }
    assert_eq!(
        actions,
        vec![
            SwitchAction::RevokeSource(0),
            SwitchAction::RevokeSource(1),
            SwitchAction::DeployTarget(0),
            SwitchAction::Commit,
            SwitchAction::FinalizeSource(0),
            SwitchAction::FinalizeSource(1),
            SwitchAction::Finish,
        ]
    );
    assert!(run.needs_loader());
}

#[test]
fn a_failed_deployment_rolls_back_what_was_done() {
    let mut run = ProfileSwitchRun::new(2, 2);
    run.succeeded();
    run.succeeded();
    run.succeeded();
    assert_eq!(run.next_action(), SwitchAction::DeployTarget(1));
    run.step_failed();
    assert_eq!(run.next_action(), SwitchAction::RollBack { deployed: 1, revoked: 2 });
}

#[test]
fn a_failed_cleanup_after_commit_only_warns() {
    let mut run = ProfileSwitchRun::new(1, 0);
    run.succeeded();
    run.succeeded();
    assert_eq!(run.next_action(), SwitchAction::FinalizeSource(0));
    run.step_failed();
    assert_eq!(run.next_action(), SwitchAction::Finish);
    assert_eq!(cleanup_warning(1), "源 Profile 的模组 00000000-0000-0000-0000-000000000001 已撤销，但隔离目录清理将在下次启动重试。");
    assert!(!ProfileSwitchRun::new(0, 0).needs_loader());
}
