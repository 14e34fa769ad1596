use aemm::error::AppError;
use aemm::efmi_ini::{check_enabled_mod_folder, copied_deployment_root};
use aemm::conflicts::{ConflictAnalysisSubject, ConflictKind};
use aemm::deployment::{DeploymentEntry, DeploymentManifest};
use aemm::efmi_ini::{Admission, EfmiIniAnalysis, SkippedFile};

fn subject(name: &str, mod_id: u128, load_order: u32) -> ConflictAnalysisSubject {
    ConflictAnalysisSubject {
        mod_name: name.to_owned(),
        load_order,
        manifest: DeploymentManifest {
            schema_version: 1,
            id: mod_id + 100,
            profile_id: 1,
            mod_id,
            strategy_id: "efmi.copy.v1".to_owned(),
            destination_root: r"C:\EFMI\Mods".to_owned(),
            destination_directory: format!("AEMM_{mod_id}"),
            source_content_fingerprint: "f".to_owned(),
            entries: vec![DeploymentEntry {
                source_relative: "main.ini".to_owned(),
                destination_relative: "main.ini".to_owned(),
                size_bytes: 1,
                content_hash: "a".repeat(64),
            }],
            created_at: 0,
        },
    }
}

fn analyze(texts: &[&str]) -> aemm::conflicts::AnalyzerOutput {
    let subjects: Vec<ConflictAnalysisSubject> =
        texts.iter().enumerate().map(|(i, _)| subject(&format!("Mod{i}"), i as u128 + 1, i as u32)).collect();
    let mut analysis = EfmiIniAnalysis::new(subjects);
    for (i, text) in texts.iter().enumerate() {
        for position in analysis.ini_entries(i) {
            match analysis.consider_size(i, position, text.len() as u64).unwrap() {
                Admission::Read => analysis.add_document(i, position, text.as_bytes()).unwrap(),
                _ => panic!("unexpected admission"),
            }
        }
    }
    analysis.finish()
}

#[test]
fn detects_namespace_and_override_hash_conflicts_from_efmi_fixtures() {
    let output = analyze(&[
        "namespace = Shared\\Endmin\n[TextureOverride_Component0]\nhash = 48E5C5F7\nmatch_index_count = 120\nhandling = skip\n[Resource_Texture0]\nfilename = Textures/body.dds\n[TextureOverride_Texture0]\nhash = AABBCCDD\nthis = Resource_Texture0\n",
        "namespace=shared/endmin\n[TextureOverride_Component7]\nhash=48e5c5f7\nmatch_index_count=120\nhandling=skip\n[Resource_Alt]\nfilename=Textures/other.dds\n[TextureOverride_Texture7]\nhash=AABBCCDD\nthis=Resource_Alt\n[ShaderOverrideSkin]\nhash=DEADBEEF\n",
        "[ShaderOverrideOther]\nhash=deadbeef\n",
    ]);
    assert_eq!(output.analyzed_ini_files, 3);
    assert_eq!(output.conflicts.len(), 4);
    assert!(output.conflicts.iter().any(|c| c.kind == ConflictKind::EfmiNamespace));
    assert!(output.conflicts.iter().any(|c| c.kind == ConflictKind::EfmiTextureOverride));
    assert!(output.conflicts.iter().any(|c| c.kind == ConflictKind::EfmiShaderOverride));
    assert!(output.conflicts.iter().any(|c| {
        c.resource_key == "texture-hash:aabbccdd"
            && c.participants
                .iter()
                .flat_map(|p| &p.evidence)
                .any(|e| e.detail.contains("resources=Textures/other.dds"))
    }));
    assert!(output.conflicts.iter().all(|c| c.winning_mod_id.is_none()));
}

#[test]
fn common_efmi_template_sections_do_not_create_false_conflicts() {
    let output = analyze(&[
        "[ResourceModName]\ntype=Buffer\ndata=\"A\"\n[Constants]\nglobal $mod_id=-1000\n[Present]\nrun=CommandListRegisterMod\n[TextureOverride_Component0]\nhash=11111111\n",
        "[ResourceModName]\ntype=Buffer\ndata=\"B\"\n[Constants]\nglobal $mod_id=-1000\n[Present]\nrun=CommandListRegisterMod\n[TextureOverride_Component0]\nhash=22222222\n",
    ]);
    assert!(output.conflicts.is_empty());
    assert_eq!(output.analyzed_ini_files, 2);
}

#[test]
fn oversized_and_unreachable_files_are_skipped_with_warnings() {
    let mut analysis = EfmiIniAnalysis::new(vec![subject("Big", 1, 0)]);
    let positions = analysis.ini_entries(0);
    assert_eq!(positions, vec![0]);
    assert!(matches!(analysis.consider_size(0, 0, 10 * 1024 * 1024).unwrap(), Admission::Skip));
    analysis.skip_file(0, 0, SkippedFile::Unreachable, "gone");
    analysis.skip_subject(0, "marker");
    let output = analysis.finish();
    assert_eq!(output.analyzed_ini_files, 0);
    assert_eq!(output.warnings.len(), 3);
}

#[test]
fn enabled_mod_folders_and_copied_roots_are_checked() {
    assert!(check_enabled_mod_folder(true, true, "MyMod").is_ok());
    assert!(matches!(check_enabled_mod_folder(true, true, "disabled_MyMod"), Err(AppError::UnsafePath(_))));
    assert!(check_enabled_mod_folder(false, true, "MyMod").is_err());
    assert!(check_enabled_mod_folder(true, false, "MyMod").is_err());
    assert_eq!(copied_deployment_root(r"C:\Mods", "AEMM/abc").unwrap(), r"C:\Mods/AEMM/abc");
    assert!(matches!(copied_deployment_root(r"C:\Mods", "../x"), Err(AppError::UnsafePath(_))));
}
