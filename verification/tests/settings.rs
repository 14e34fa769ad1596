use aemm::error::AppError;
use aemm::settings::{
    normalized_path_key, paths_overlap_case_insensitive, validate_absolute_path, validate_settings, AppPaths,
    AppSettings, LogLevel,
};

fn settings() -> AppSettings {
    AppSettings::defaults(r"C:\AEMM\data\repository".to_owned(), r"C:\AEMM\data\staging".to_owned())
}

#[test]
fn default_settings_are_valid() {
    assert!(validate_settings(&settings()).is_ok());
    assert_eq!(settings().language, "zh-CN");
    assert_eq!(LogLevel::Info.as_filter(), "info");
}

#[test]
fn rejects_repository_and_staging_path_collision() {
    let mut s = settings();
    s.storage.staging_path = s.storage.repository_path.clone();
    assert!(matches!(validate_settings(&s), Err(AppError::ConfigValidation(_))));
}

#[test]
fn rejects_nested_repository_and_staging_paths() {
    let mut s = settings();
    s.storage.staging_path = format!(r"{}\staging", s.storage.repository_path);
    assert!(validate_settings(&s).is_err());
}

#[test]
fn rejects_unsupported_interface_language() {
    let mut s = settings();
    s.language = "not-a-supported-locale".to_owned();
    assert!(validate_settings(&s).is_err());
    s.language = "en-US".to_owned();
    assert!(validate_settings(&s).is_ok());
}

#[test]
fn overlap_is_symmetric_and_ignores_case_and_separators() {
    assert!(paths_overlap_case_insensitive(r"C:\A", "c:/a/b"));
    assert!(paths_overlap_case_insensitive("c:/a/b", r"C:\A"));
    assert!(!paths_overlap_case_insensitive(r"C:\A", r"C:\AB"));
    assert_eq!(normalized_path_key("C:/Data/"), r"c:\data");
}

#[test]
fn paths_must_be_absolute() {
    assert!(validate_absolute_path("仓库", r"C:\x").is_ok());
    assert!(validate_absolute_path("仓库", r"\\server\share").is_ok());
    assert!(matches!(validate_absolute_path("仓库", "relative"), Err(AppError::ConfigValidation(_))));
    let mut s = settings();
    s.schema_version = 2;
    assert!(validate_settings(&s).is_err());
}

#[test]
fn test_paths_live_below_the_given_root() {
    let paths = AppPaths::for_test("C:/tmp");
    assert_eq!(paths.data_directory, "C:/tmp/data");
}
