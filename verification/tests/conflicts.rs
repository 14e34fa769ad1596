use aemm::conflicts::{conflict_id, kind_rank, severity_rank, sort_ids, ConflictAnalysisSubject, ConflictKind, ConflictSeverity};
use aemm::deployment::{DeploymentEntry, DeploymentManifest};
use aemm::detector::{detect, merge_outputs};
use aemm::error::AppError;
use aemm::conflicts::AnalyzerOutput;
use aemm::path_analyzer::DeploymentPathConflictAnalyzer;

fn subject(name: &str, mod_id: u128, load_order: u32, directory: &str, target: &str) -> ConflictAnalysisSubject {
    ConflictAnalysisSubject {
        mod_name: name.to_owned(),
        load_order,
        manifest: DeploymentManifest {
            schema_version: 1,
            id: mod_id + 1000,
            profile_id: 7,
            mod_id,
            strategy_id: "fixture".to_owned(),
            destination_root: r"C:\EFMI\Mods".to_owned(),
            destination_directory: directory.to_owned(),
            source_content_fingerprint: "fixture".to_owned(),
            entries: vec![DeploymentEntry {
                source_relative: target.to_owned(),
                destination_relative: target.to_owned(),
                size_bytes: 1,
                content_hash: "a".repeat(64),
            }],
            created_at: 1,
        },
    }
}

#[test]
fn reports_only_actual_shared_deployment_targets() {
    let first = subject("First", 1, 0, "Shared", "Textures/body.dds");
    let second = subject("Second", 2, 1, "Shared", "Textures/body.dds");
    let distinct = subject("Distinct", 3, 2, "Other", "Textures/body.dds");
    let output = DeploymentPathConflictAnalyzer.analyze(&vec![first, second, distinct]).unwrap();
    assert_eq!(output.conflicts.len(), 1);
    assert_eq!(output.conflicts[0].kind, ConflictKind::DeploymentPath);
    assert_eq!(output.conflicts[0].participants.len(), 2);
    assert!(output.conflicts[0].winning_mod_id.is_none());
}

#[test]
fn path_targets_are_compared_regardless_of_case_and_separator() {
    let first = subject("First", 1, 0, "Shared", r"Textures\Body.DDS");
    let second = subject("Second", 2, 1, "shared", "textures/body.dds");
    let output = DeploymentPathConflictAnalyzer.analyze(&vec![first, second]).unwrap();
    assert_eq!(output.conflicts.len(), 1);
    assert_eq!(output.conflicts[0].severity, ConflictSeverity::Error);
}

#[test]
fn conflict_id_hashes_the_sorted_participants() {
    let a = conflict_id("deployment.path.v1", ConflictKind::DeploymentPath, "key", vec![2, 1]);
    let b = conflict_id("deployment.path.v1", ConflictKind::DeploymentPath, "key", vec![1, 2]);
    assert_eq!(a, b);
    let mut hasher = blake3::Hasher::new();
    hasher.update(b"deployment.path.v1");
    hasher.update(&[0]);
    hasher.update(b"DeploymentPath");
    hasher.update(&[0]);
    hasher.update(b"key");
    for id in ["00000000-0000-0000-0000-000000000001", "00000000-0000-0000-0000-000000000002"] {
        hasher.update(&[0]);
        hasher.update(id.as_bytes());
    }
    let expected = format!("conflict-{}", &hasher.finalize().to_hex()[..20]);
    assert_eq!(a, expected);
    let other = conflict_id("deployment.path.v1", ConflictKind::EfmiNamespace, "key", vec![1, 2]);
    assert_ne!(a, other);
}

#[test]
fn ranks_order_severity_and_kind() {
    assert_eq!(severity_rank(ConflictSeverity::Error), 0);
    assert_eq!(severity_rank(ConflictSeverity::Warning), 1);
    assert_eq!(severity_rank(ConflictSeverity::Information), 2);
    assert!(kind_rank(ConflictKind::DeploymentPath) < kind_rank(ConflictKind::EfmiNamespace));
    assert_eq!(sort_ids(vec![3, 1, 2]), vec![1, 2, 3]);
}

#[test]
fn merged_outputs_sum_files_and_sort_unique_warnings() {
    let a = AnalyzerOutput { conflicts: vec![], analyzed_ini_files: 2, warnings: vec!["b".to_owned(), "a".to_owned()] };
    let b = AnalyzerOutput { conflicts: vec![], analyzed_ini_files: 3, warnings: vec!["a".to_owned()] };
    let merged = merge_outputs(vec![a, b]).unwrap();
    assert_eq!(merged.analyzed_ini_files, 5);
    assert_eq!(merged.warnings, vec!["a".to_owned(), "b".to_owned()]);
    let big = AnalyzerOutput { conflicts: vec![], analyzed_ini_files: u64::MAX, warnings: vec![] };
    let one = AnalyzerOutput { conflicts: vec![], analyzed_ini_files: 1, warnings: vec![] };
    assert!(merge_outputs(vec![big, one]).is_err());
}

#[test]
fn detection_passes_on_the_first_analyzer_error() {
    let out = |n: u64| AnalyzerOutput { conflicts: vec![], analyzed_ini_files: n, warnings: vec![] };
    let first = detect(vec![
        Ok(out(1)),
        Err(AppError::Conflict("first".to_owned())),
        Err(AppError::Archive("second".to_owned())),
    ]);
    assert!(matches!(first, Err(AppError::Conflict(m)) if m == "first"));
    let merged = detect(vec![Ok(out(2)), Ok(out(3))]).unwrap();
    assert_eq!(merged.analyzed_ini_files, 5);
    let overflow = detect(vec![Ok(out(u64::MAX)), Ok(out(1)), Err(AppError::Archive("late".to_owned()))]);
    assert!(matches!(overflow, Err(AppError::Conflict(m)) if m != "late"));
}

fn tied(summary: &str, severity: ConflictSeverity) -> aemm::conflicts::Conflict {
    aemm::conflicts::Conflict {
        id: "conflict-1".to_owned(),
        analyzer_id: "a".to_owned(),
        kind: ConflictKind::DeploymentPath,
        severity,
        resource_key: "key".to_owned(),
        summary: summary.to_owned(),
        participants: vec![],
        winning_mod_id: None,
    }
}

#[test]
fn conflicts_that_sort_alike_keep_their_order() {
    let first = AnalyzerOutput {
        conflicts: vec![tied("first", ConflictSeverity::Warning), tied("second", ConflictSeverity::Error)],
        analyzed_ini_files: 0,
        warnings: vec![],
    };
    let second = AnalyzerOutput { conflicts: vec![tied("third", ConflictSeverity::Error)], analyzed_ini_files: 0, warnings: vec![] };
    let merged = merge_outputs(vec![first, second]).unwrap();
    let order: Vec<&str> = merged.conflicts.iter().map(|c| c.summary.as_str()).collect();
    assert_eq!(order, vec!["second", "third", "first"]);
}
