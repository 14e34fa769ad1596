use aemm::error::AppError;
use aemm::game::{
    check_app_identity, configured_launch_path, finish_game_validation, finish_loader_validation, infer_edition,
    parse_section,
    validate_efmi_include_policy, GameEdition,
};

#[test]
fn requires_verified_efmi_include_and_disabled_prefix_policy() {
    assert!(validate_efmi_include_policy("[Include]\ninclude_recursive = Mods\nexclude_recursive = DISABLED*\n").is_ok());
    assert!(matches!(
        validate_efmi_include_policy("[Include]\ninclude_recursive = Mods\n"),
        Err(AppError::LoaderValidation(_))
    ));
    assert!(validate_efmi_include_policy("[Other]\ninclude_recursive = Mods\nexclude_recursive = DISABLED*\n").is_err());
}

#[test]
fn edition_is_inferred_from_the_launcher_folder() {
    assert_eq!(infer_edition(r"D:\Hypergryph Launcher\games\EndField Game"), GameEdition::China);
    assert_eq!(infer_edition(r"D:\Games\Endfield"), GameEdition::Unknown);
}

#[test]
fn app_identity_check_rejects_unrelated_configuration() {
    assert!(!check_app_identity("[General]\nname=Other\n"));
    assert!(check_app_identity(" Hypergryph \n\nEndfield\n"));
}

#[test]
fn loader_validation_checks_target_module_and_launch() {
    let good = parse_section("[Loader]\ntarget = endfield.EXE\nmodule = D3D11.dll\nlaunch = Game\\Endfield.exe\n", "Loader");
    assert_eq!(configured_launch_path("C:\\EFMI", &good).unwrap(), "C:\\EFMI/Game\\Endfield.exe");
    let absolute = parse_section("[Loader]\nlaunch = D:\\Game\\Endfield.exe\n", "Loader");
    assert_eq!(configured_launch_path("C:\\EFMI", &absolute).unwrap(), "D:\\Game\\Endfield.exe");
    assert!(configured_launch_path("C:\\EFMI", &parse_section("[Loader]\n", "Loader")).is_none());

    let ready = finish_loader_validation("C:\\EFMI".into(), "C:\\EFMI\\Loader.exe".into(), &good, vec!["a".into()], None, true);
    assert!(ready.valid && ready.launch_ready && ready.issues.is_empty());
    assert_eq!(ready.evidence.len(), 4);
    assert_eq!(ready.root.as_deref(), Some("C:\\EFMI"));
    let not_ready = finish_loader_validation("C:\\EFMI".into(), "x".into(), &good, Vec::new(), None, false);
    assert!(not_ready.valid && !not_ready.launch_ready);
    assert_eq!((not_ready.evidence.len(), not_ready.issues.len()), (2, 1));

    let wrong_module = parse_section("[Loader]\ntarget = Endfield.exe\nmodule = d3d12.dll\n", "Loader");
    let invalid = finish_loader_validation("C:\\EFMI".into(), "x".into(), &wrong_module, Vec::new(), None, true);
    assert!(!invalid.valid && invalid.root.is_none());
    assert_eq!(invalid.evidence.len(), 1);
    assert_eq!(invalid.issues, vec!["d3dx.ini 的 Loader.module 不是 d3d11.dll。".to_owned()]);
    let no_target = finish_loader_validation("C:\\EFMI".into(), "x".into(), &parse_section("", "Loader"), Vec::new(), None, true);
    assert!(!no_target.valid && no_target.evidence.is_empty());
}

#[test]
fn game_validation_needs_both_runtime_files() {
    let root = r"D:\Hypergryph Launcher\games\EndField Game".to_owned();
    let exe = format!(r"{root}\Endfield.exe");
    let valid = finish_game_validation(root.clone(), exe.clone(), vec!["exe".into(), "app.info".into()], true, true);
    assert!(valid.valid);
    assert_eq!(valid.confidence, 100);
    assert_eq!(valid.evidence.len(), 5);
    assert!(valid.issues.is_empty());
    let installation = valid.installation.unwrap();
    assert_eq!(installation.adapter_id, "endfield.local");
    assert_eq!(installation.edition, GameEdition::China);
    assert_eq!(installation.executable, exe);
    assert!(installation.loader_root.is_none() && installation.version.value.is_none());

    let unknown = finish_game_validation(r"D:\Games\Endfield".into(), "x".into(), Vec::new(), true, true);
    assert!(unknown.valid);
    assert_eq!(unknown.issues, vec!["安装身份有效，但尚不能可靠判断国服或国际服。".to_owned()]);
    assert_eq!(unknown.evidence.len(), 2);

    let no_assembly = finish_game_validation(root.clone(), exe.clone(), Vec::new(), true, false);
    assert!(!no_assembly.valid && no_assembly.installation.is_none());
    assert_eq!(no_assembly.evidence, vec!["找到 UnityPlayer.dll。".to_owned()]);
    let no_unity = finish_game_validation(root, exe, Vec::new(), false, true);
    assert_eq!(no_unity.issues, vec!["缺少终末地运行文件 UnityPlayer.dll，目录验证失败。".to_owned()]);
    assert!(no_unity.evidence.is_empty());
}
