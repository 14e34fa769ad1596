//! The library's error type and its mapping to front-end error codes.
use vstd::prelude::*;

verus! {

/// Every failure the mod manager reports. Each variant carries a
/// human-readable message (or the path and detail of a file-system failure).
#[derive(Debug, Clone, PartialEq, Eq)]
pub enum AppError {
    ConfigValidation(String),
    ConfigFormat(String),
    FileSystem { path: String, detail: String },
    PathResolution(String),
    Database(String),
    Migration(String),
    BackgroundTask(String),
    Logging(String),
    UnsafePath(String),
    NotAvailable(String),
    GameValidation(String),
    LoaderValidation(String),
    ProcessLaunch { path: String, detail: String },
    ModScan(String),
    ModMetadata(String),
    Archive(String),
    ModInstall(String),
    Deployment(String),
    Conflict(String),
    DataIntegrity(String),
    Profile(String),
    ModPreview(String),
}

impl AppError {
    /// A file-system failure for `path`.
    pub fn file_system(path: &str, detail: &str) -> (e: AppError)
        ensures
            e matches AppError::FileSystem { path: p, detail: d } && p@ == path@ && d@ == detail@,
    {
        AppError::FileSystem { path: crate::text::copy_str(path), detail: crate::text::copy_str(detail) }
    }
}

/// The error shape handed to the user interface: a stable code and a message.
#[derive(Debug, Clone, PartialEq, Eq)]
pub struct CommandError {
    pub code: String,
    pub message: String,
}

/// The stable code the user interface receives for each kind of failure.
pub open spec fn spec_error_code(e: AppError) -> Seq<char> {
    match e {
        AppError::ConfigValidation(_) => "CONFIG_INVALID"@,
        AppError::UnsafePath(_) => "UNSAFE_PATH"@,
        AppError::NotAvailable(_) => "NOT_AVAILABLE"@,
        AppError::ConfigFormat(_) => "CONFIG_FORMAT_ERROR"@,
        AppError::FileSystem { .. } => "FILESYSTEM_ERROR"@,
        AppError::PathResolution(_) => "FILESYSTEM_ERROR"@,
        AppError::Database(_) => "DATABASE_ERROR"@,
        AppError::Migration(_) => "DATABASE_ERROR"@,
        AppError::BackgroundTask(_) => "BACKGROUND_TASK_ERROR"@,
        AppError::Logging(_) => "LOGGING_ERROR"@,
        AppError::GameValidation(_) => "GAME_VALIDATION_ERROR"@,
        AppError::LoaderValidation(_) => "LOADER_VALIDATION_ERROR"@,
        AppError::ProcessLaunch { .. } => "PROCESS_LAUNCH_ERROR"@,
        AppError::ModScan(_) => "MOD_SCAN_ERROR"@,
        AppError::ModMetadata(_) => "MOD_METADATA_ERROR"@,
        AppError::Archive(_) => "ARCHIVE_ERROR"@,
        AppError::ModInstall(_) => "MOD_INSTALL_ERROR"@,
        AppError::Deployment(_) => "DEPLOYMENT_ERROR"@,
        AppError::Conflict(_) => "CONFLICT_ERROR"@,
        AppError::DataIntegrity(_) => "DATA_INTEGRITY_ERROR"@,
        AppError::Profile(_) => "PROFILE_ERROR"@,
        AppError::ModPreview(_) => "MOD_PREVIEW_ERROR"@,
    }
}

/// Whether the error's own message is shown to the user; otherwise a fixed
/// message that hides internal details is shown.
pub open spec fn spec_message_passes_through(e: AppError) -> bool {
    match e {
        AppError::ConfigFormat(_) | AppError::FileSystem { .. } | AppError::PathResolution(_)
        | AppError::Database(_) | AppError::Migration(_) | AppError::BackgroundTask(_)
        | AppError::Logging(_) | AppError::ProcessLaunch { .. } => false,
        _ => true,
    }
}

/// The message carried by a variant whose message is shown to the user.
pub open spec fn spec_own_message(e: AppError) -> Seq<char> {
    match e {
        AppError::ConfigValidation(m) | AppError::UnsafePath(m) | AppError::NotAvailable(m)
        | AppError::GameValidation(m) | AppError::LoaderValidation(m) | AppError::ModScan(m)
        | AppError::ModMetadata(m) | AppError::Archive(m) | AppError::ModInstall(m)
        | AppError::Deployment(m) | AppError::Conflict(m) | AppError::DataIntegrity(m)
        | AppError::Profile(m) | AppError::ModPreview(m) | AppError::ConfigFormat(m)
        | AppError::PathResolution(m) | AppError::Database(m) | AppError::Migration(m)
        | AppError::BackgroundTask(m) | AppError::Logging(m) => m@,
        AppError::FileSystem { detail, .. } | AppError::ProcessLaunch { detail, .. } => detail@,
    }
}

/// Converts an application error into what the user interface receives.
/// Internal failures (file system, database, background tasks, logging,
/// configuration format, process launch) get a fixed message so that no
/// internal detail leaks; all others keep their own message.
pub fn command_error_from(error: AppError) -> (c: CommandError)
    ensures
        c.code@ == spec_error_code(error),
        spec_message_passes_through(error) ==> c.message@ == spec_own_message(error),
        !spec_message_passes_through(error) ==> c.message@.len() > 0,
{
    let (code, message): (&str, String) = match error {
        AppError::ConfigValidation(m) => ("CONFIG_INVALID", m),
        AppError::UnsafePath(m) => ("UNSAFE_PATH", m),
        AppError::NotAvailable(m) => ("NOT_AVAILABLE", m),
        AppError::GameValidation(m) => ("GAME_VALIDATION_ERROR", m),
        AppError::LoaderValidation(m) => ("LOADER_VALIDATION_ERROR", m),
        AppError::ModScan(m) => ("MOD_SCAN_ERROR", m),
        AppError::ModMetadata(m) => ("MOD_METADATA_ERROR", m),
        AppError::Archive(m) => ("ARCHIVE_ERROR", m),
        AppError::ModInstall(m) => ("MOD_INSTALL_ERROR", m),
        AppError::Deployment(m) => ("DEPLOYMENT_ERROR", m),
        AppError::Conflict(m) => ("CONFLICT_ERROR", m),
        AppError::DataIntegrity(m) => ("DATA_INTEGRITY_ERROR", m),
        AppError::Profile(m) => ("PROFILE_ERROR", m),
        AppError::ModPreview(m) => ("MOD_PREVIEW_ERROR", m),
        AppError::ConfigFormat(_) => ("CONFIG_FORMAT_ERROR", fixed_message(0)),
        AppError::FileSystem { .. } => ("FILESYSTEM_ERROR", fixed_message(1)),
        AppError::PathResolution(_) => ("FILESYSTEM_ERROR", fixed_message(1)),
        AppError::Database(_) => ("DATABASE_ERROR", fixed_message(2)),
        AppError::Migration(_) => ("DATABASE_ERROR", fixed_message(2)),
        AppError::BackgroundTask(_) => ("BACKGROUND_TASK_ERROR", fixed_message(3)),
        AppError::Logging(_) => ("LOGGING_ERROR", fixed_message(4)),
        AppError::ProcessLaunch { .. } => ("PROCESS_LAUNCH_ERROR", fixed_message(5)),
    };
    proof {
        reveal_strlit("CONFIG_INVALID");
        reveal_strlit("UNSAFE_PATH");
        reveal_strlit("NOT_AVAILABLE");
        reveal_strlit("GAME_VALIDATION_ERROR");
        reveal_strlit("LOADER_VALIDATION_ERROR");
        reveal_strlit("MOD_SCAN_ERROR");
        reveal_strlit("MOD_METADATA_ERROR");
        reveal_strlit("ARCHIVE_ERROR");
        reveal_strlit("MOD_INSTALL_ERROR");
        reveal_strlit("DEPLOYMENT_ERROR");
        reveal_strlit("CONFLICT_ERROR");
        reveal_strlit("DATA_INTEGRITY_ERROR");
        reveal_strlit("PROFILE_ERROR");
        reveal_strlit("MOD_PREVIEW_ERROR");
        reveal_strlit("CONFIG_FORMAT_ERROR");
        reveal_strlit("FILESYSTEM_ERROR");
        reveal_strlit("DATABASE_ERROR");
        reveal_strlit("BACKGROUND_TASK_ERROR");
        reveal_strlit("LOGGING_ERROR");
        reveal_strlit("PROCESS_LAUNCH_ERROR");
    }
    CommandError { code: crate::text::copy_str(code), message }
}

/// The fixed user-facing messages for internal failures.
fn fixed_message(kind: u8) -> (m: String)
    ensures
        m@.len() > 0,
{
    let s: &str = if kind == 0 {
        "配置文件格式无效，请检查本地日志。"
    } else if kind == 1 {
        "文件系统操作失败，请检查路径权限和本地日志。"
    } else if kind == 2 {
        "数据库操作失败，请检查本地日志。"
    } else if kind == 3 {
        "后台任务意外终止，请检查本地日志。"
    } else if kind == 4 {
        "日志系统初始化失败。"
    } else {
        "无法启动外部程序，请检查路径和本地日志。"
    };
    let v = crate::text::to_chars(s);
    proof {
        reveal_strlit("配置文件格式无效，请检查本地日志。");
        reveal_strlit("文件系统操作失败，请检查路径权限和本地日志。");
        reveal_strlit("数据库操作失败，请检查本地日志。");
        reveal_strlit("后台任务意外终止，请检查本地日志。");
        reveal_strlit("日志系统初始化失败。");
        reveal_strlit("无法启动外部程序，请检查路径和本地日志。");
    }
    crate::text::from_chars(v.as_slice())
}

/// An owned message from a literal.
pub fn msg(s: &str) -> (m: String)
    ensures
        m@ == s@,
{
    crate::text::copy_str(s)
}

} // verus!
