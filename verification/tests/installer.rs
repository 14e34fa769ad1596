use aemm::installer::{check_commit_allowed, InstallJournalState};
use aemm::installer::{CommitAction, InstallCommitRun};
use aemm::error::AppError;
use aemm::installer::{
    check_candidate_matches_plan, check_source_boundary, plan_messages,
    choose_destination_name, deduplicate_messages, duplicate_blocking_issues, inferred_identity,
    is_cross_volume_error, partial_relative_path, safe_destination_name, source_stem, validate_operation_file_name,
    ExistingModIdentity,
};
use aemm::metadata::ModLifecycleState;

#[test]
fn destination_names_are_safe_folder_names() {
    assert_eq!(safe_destination_name("author.mod"), "author.mod");
    assert_eq!(safe_destination_name("a:b*c"), "a_b_c");
    assert_eq!(source_stem(r"C:\Downloads\Cool Mod.zip"), "Cool Mod");
}

#[test]
fn destination_name_takes_the_first_free_candidate() {
    let fp = "0123456789abcdef";
    assert_eq!(choose_destination_name(&vec![], "author.mod", fp).unwrap(), "author.mod");
    let taken = vec!["AUTHOR.MOD".to_owned()];
    assert_eq!(choose_destination_name(&taken, "author.mod", fp).unwrap(), "author.mod-01234567");
    let taken = vec!["author.mod".to_owned(), "author.mod-01234567".to_owned()];
    assert_eq!(choose_destination_name(&taken, "author.mod", fp).unwrap(), "author.mod-01234567-2");
}

#[test]
fn destination_name_gives_up_after_all_candidates() {
    let fp = "0123456789abcdef";
    let mut taken = vec!["m".to_owned(), "m-01234567".to_owned()];
    for i in 2..1000 {
        taken.push(format!("m-01234567-{i}"));
    }
    assert!(matches!(choose_destination_name(&taken, "m", fp), Err(AppError::ModInstall(_))));
}

#[test]
fn duplicates_block_the_install() {
    let existing = vec![ExistingModIdentity {
        logical_id: "Author.Mod".to_owned(),
        name: "Mod".to_owned(),
        repository_path: "author.mod".to_owned(),
        content_fingerprint: Some("fp".to_owned()),
        lifecycle_state: ModLifecycleState::Installed,
    }];
    let issues = duplicate_blocking_issues("author.mod", "fp", &existing);
    assert_eq!(
        issues,
        vec!["已存在相同模组 ID：Author.Mod（状态：Installed）。".to_owned(), "仓库中的 Mod 与待安装内容完全相同。".to_owned()]
    );
    assert!(duplicate_blocking_issues("other", "fp2", &existing).is_empty());
}

#[test]
fn messages_are_kept_once_regardless_of_case() {
    let mut messages = vec!["Issue".to_owned(), "issue".to_owned(), "Other".to_owned()];
    deduplicate_messages(&mut messages);
    assert_eq!(messages, vec!["Issue".to_owned(), "Other".to_owned()]);
}

#[test]
fn operation_names_and_identities() {
    assert!(validate_operation_file_name("journal.json").is_ok());
    assert!(matches!(validate_operation_file_name("a/b"), Err(AppError::UnsafePath(_))));
    assert!(validate_operation_file_name("a\\b").is_err());
    assert!(validate_operation_file_name("").is_err());
    let partial = partial_relative_path(1).unwrap();
    assert_eq!(partial.as_path(), ".aemm-install-00000000-0000-0000-0000-000000000001.partial");
    assert!(is_cross_volume_error(false, Some(17)));
    assert!(!is_cross_volume_error(false, Some(2)));
    let (id, name) = inferred_identity("0123456789abcdef0123456789", "Cool Mod");
    assert_eq!(id, "local.0123456789abcdef0123");
    assert_eq!(name, "Cool Mod");
}

#[test]
fn plan_messages_collect_notes_and_blocking_issues_once() {
    let existing = vec![ExistingModIdentity {
        logical_id: "other.id".to_owned(),
        name: "Same Name".to_owned(),
        repository_path: "other".to_owned(),
        content_fingerprint: None,
        lifecycle_state: ModLifecycleState::Installed,
    }];
    let (warnings, blocking, can_install) = plan_messages(
        vec!["Note".to_owned()],
        &vec!["note".to_owned()],
        &vec!["Mod: issue".to_owned()],
        5,
        3,
        "same name",
        "new.id",
        "fp",
        true,
        &existing,
    );
    assert_eq!(
        warnings,
        vec![
            "Note".to_owned(),
            "Mod: issue".to_owned(),
            "包内共检查 5 个条目，最终模组根目录包含 3 个文件。".to_owned(),
            "仓库中已有同显示名称但不同 ID 的模组，请确认它们并非同一模组。".to_owned(),
        ]
    );
    assert_eq!(blocking, vec!["模组扫描发现无法安全读取的文件。".to_owned()]);
    assert!(!can_install);
    let (_, clean, installable) =
        plan_messages(Vec::new(), &Vec::new(), &Vec::new(), 1, 1, "n", "new.id", "fp", false, &existing);
    assert!(clean.is_empty() && installable);
    assert!(check_candidate_matches_plan("fp", "A.B", 3, 2, "fp", "a.b", 3, 2).is_ok());
    assert!(matches!(check_candidate_matches_plan("fp", "a.b", 3, 2, "fp2", "a.b", 3, 2), Err(AppError::ModInstall(_))));
    assert!(check_source_boundary(r"C:\Downloads\mod", r"C:\AEMM\repo", r"C:\AEMM\stage").is_ok());
    assert!(matches!(check_source_boundary(r"C:\AEMM", r"C:\AEMM\repo", r"C:\AEMM\stage"), Err(AppError::UnsafePath(_))));
    assert!(check_source_boundary(r"C:\AEMM\stage\x", r"C:\AEMM\repo", r"C:\AEMM\stage").is_err());
}

#[test]
fn commit_is_refused_unless_prepared_and_unblocked() {
    let none: Vec<String> = Vec::new();
    assert!(check_commit_allowed(InstallJournalState::Prepared, true, 0, &none, false).is_ok());
    assert!(matches!(
        check_commit_allowed(InstallJournalState::Committing, true, 0, &none, false),
        Err(AppError::ModInstall(_))
    ));
    assert!(check_commit_allowed(InstallJournalState::Prepared, false, 0, &none, false).is_err());
    assert!(check_commit_allowed(InstallJournalState::Prepared, true, 1, &none, false).is_err());
    let dup = vec!["ID 已存在".to_string()];
    match check_commit_allowed(InstallJournalState::Prepared, true, 0, &dup, false) {
        Err(AppError::ModInstall(m)) => assert!(m.contains("ID 已存在")),
        other => panic!("unexpected {other:?}"),
    }
    assert!(matches!(
        check_commit_allowed(InstallJournalState::Prepared, true, 0, &none, true),
        Err(AppError::ModInstall(_))
    ));
}

#[test]
fn commit_run_moves_then_records() {
    let mut run = InstallCommitRun::new();
    assert_eq!(run.next_action(), CommitAction::WriteJournalCommitting);
    run.succeeded();
    assert_eq!(run.next_action(), CommitAction::MoveIntoRepository);
    run.succeeded();
    assert_eq!(run.next_action(), CommitAction::WriteJournalCommitted { copied: false });
    run.succeeded();
    assert_eq!(run.next_action(), CommitAction::Finish);
}

#[test]
fn commit_run_copies_across_volumes_and_cleans_up_failures() {
    let mut run = InstallCommitRun::new();
    run.succeeded();
    run.crossed_volumes();
    assert_eq!(run.next_action(), CommitAction::CheckPartialFree);
    run.succeeded();
    assert_eq!(run.next_action(), CommitAction::CopyToPartial);
    run.succeeded();
    assert_eq!(run.next_action(), CommitAction::VerifyCopy);
    let mut mismatch = run;
    mismatch.copy_checked("abc", "abd");
    assert_eq!(mismatch.next_action(), CommitAction::RemovePartial);
    mismatch.step_failed();
    assert_eq!(mismatch.next_action(), CommitAction::Fail);
    run.copy_checked("abc", "abc");
    assert_eq!(run.next_action(), CommitAction::RenamePartial);
    run.succeeded();
    assert_eq!(run.next_action(), CommitAction::WriteJournalCommitted { copied: true });
    let mut unrecorded = run;
    unrecorded.step_failed();
    assert_eq!(unrecorded.next_action(), CommitAction::RollBackReceipt { copied: true });
    unrecorded.succeeded();
    assert_eq!(unrecorded.next_action(), CommitAction::Fail);
    run.succeeded();
    assert_eq!(run.next_action(), CommitAction::Finish);

    let mut busy = InstallCommitRun::new();
    busy.succeeded();
    busy.crossed_volumes();
    busy.step_failed();
    assert_eq!(busy.next_action(), CommitAction::Fail);
    let mut refused_move = InstallCommitRun::new();
    refused_move.succeeded();
    refused_move.step_failed();
    assert_eq!(refused_move.next_action(), CommitAction::Fail);
}
