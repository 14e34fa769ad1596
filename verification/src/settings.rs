//! Application settings: their model, their defaults and the rules a
//! settings document must satisfy.
use vstd::prelude::*;
use crate::error::{msg, AppError};
use crate::ini_facts::backslash_form;
use crate::names::byte_len;
use crate::path_safety::{is_absolute_chars, is_absolute_path, join_chars, join_path};
use crate::text::{
    chars_eq, concat_str, copy_str, from_chars, to_chars, to_lowercase, trim, trim_chars, unicode_lower,
};

verus! {

pub const CONFIG_SCHEMA_VERSION: u32 = 1;

#[derive(Debug, Clone, Copy, PartialEq, Eq, Structural)]
pub enum ThemePreference {
    Dark,
    System,
}

#[derive(Debug, Clone, Copy, PartialEq, Eq, Structural)]
pub enum LaunchMode {
    Game,
    EfmiLoader,
    ExternalLauncher,
}

#[derive(Debug, Clone, Copy, PartialEq, Eq, Structural)]
pub enum LogLevel {
    Error,
    Warn,
    Info,
    Debug,
    Trace,
}

pub open spec fn filter_name(level: LogLevel) -> Seq<char> {
    match level {
        LogLevel::Error => "error"@,
        LogLevel::Warn => "warn"@,
        LogLevel::Info => "info"@,
        LogLevel::Debug => "debug"@,
        LogLevel::Trace => "trace"@,
    }
}

impl LogLevel {
    /// The log filter directive of this level.
    pub fn as_filter(self) -> (r: &'static str)
        ensures
            r@ == filter_name(self),
    {
        match self {
            LogLevel::Error => "error",
            LogLevel::Warn => "warn",
            LogLevel::Info => "info",
            LogLevel::Debug => "debug",
            LogLevel::Trace => "trace",
        }
    }
}

/// The game the manager targets and how it is launched.
#[derive(Debug, Clone, PartialEq, Eq)]
pub struct GameSettings {
    pub adapter_id: String,
    pub edition: Option<String>,
    pub installation_path: Option<String>,
    pub loader_root: Option<String>,
    pub launch_mode: LaunchMode,
}

impl Default for GameSettings {
    fn default() -> (g: Self)
        ensures
            g.adapter_id@ == "endfield.efmi"@,
            g.edition is None,
            g.installation_path is None,
            g.loader_root is None,
            g.launch_mode == LaunchMode::EfmiLoader,
    {
        GameSettings {
            adapter_id: copy_str("endfield.efmi"),
            edition: None,
            installation_path: None,
            loader_root: None,
            launch_mode: LaunchMode::EfmiLoader,
        }
    }
}

/// Where mods are kept and staged.
#[derive(Debug, Clone, PartialEq, Eq)]
pub struct StorageSettings {
    pub repository_path: String,
    pub staging_path: String,
}

#[derive(Debug, Clone, PartialEq, Eq)]
pub struct AppSettings {
    pub schema_version: u32,
    pub language: String,
    pub theme: ThemePreference,
    pub game: GameSettings,
    pub storage: StorageSettings,
    pub log_level: LogLevel,
}

impl AppSettings {
    /// The settings of a fresh installation with the given storage paths.
    pub fn defaults(repository_path: String, staging_path: String) -> (s: Self)
        ensures
            s.schema_version == CONFIG_SCHEMA_VERSION,
            s.language@ == "zh-CN"@,
            s.theme == ThemePreference::Dark,
            s.game.adapter_id@ == "endfield.efmi"@,
            s.game.edition is None,
            s.game.installation_path is None,
            s.game.loader_root is None,
            s.game.launch_mode == LaunchMode::EfmiLoader,
            s.storage.repository_path == repository_path,
            s.storage.staging_path == staging_path,
            s.log_level == LogLevel::Info,
    {
        AppSettings {
            schema_version: CONFIG_SCHEMA_VERSION,
            language: copy_str("zh-CN"),
            theme: ThemePreference::Dark,
            game: GameSettings::default(),
            storage: StorageSettings { repository_path, staging_path },
            log_level: LogLevel::Info,
        }
    }
}

/// What the front end learns at start-up.
#[derive(Debug, Clone)]
pub struct AppBootstrap {
    pub app_name: String,
    pub app_version: String,
    pub runtime_mode: String,
    pub database_ready: bool,
    pub config_path: String,
    pub database_path: String,
    pub log_directory: String,
    pub settings: AppSettings,
}

/// The files and directories of the application.
#[derive(Debug, Clone, PartialEq, Eq)]
pub struct AppPaths {
    pub data_directory: String,
    pub config_file: String,
    pub database_file: String,
    pub log_directory: String,
    pub repository_directory: String,
    pub staging_directory: String,
}

fn joined(root: &str, relative: &str) -> (r: String)
    ensures
        r@ == join_path(root@, relative@),
{
    let a = to_chars(root);
    let b = to_chars(relative);
    from_chars(join_chars(a.as_slice(), b.as_slice()).as_slice())
}

impl AppPaths {
    /// The layout below a software directory: everything under `data`.
    pub fn under_software_directory(software_directory: &str) -> (p: AppPaths)
        ensures
            p.data_directory@ == join_path(software_directory@, "data"@),
            p.config_file@ == join_path(join_path(software_directory@, "data"@), "config.json"@),
            p.database_file@ == join_path(join_path(software_directory@, "data"@), "mods.db"@),
            p.log_directory@ == join_path(join_path(software_directory@, "data"@), "logs"@),
            p.repository_directory@ == join_path(
                join_path(software_directory@, "data"@),
                "unconfigured-mods"@,
            ),
            p.staging_directory@ == join_path(join_path(software_directory@, "data"@), "staging"@),
    {
        let data = joined(software_directory, "data");
        AppPaths {
            config_file: joined(data.as_str(), "config.json"),
            database_file: joined(data.as_str(), "mods.db"),
            log_directory: joined(data.as_str(), "logs"),
            repository_directory: joined(data.as_str(), "unconfigured-mods"),
            staging_directory: joined(data.as_str(), "staging"),
            data_directory: data,
        }
    }

    /// The layout used by tests below `root`.
    pub fn for_test(root: &str) -> (p: AppPaths)
        ensures
            p.data_directory@ == join_path(root@, "data"@),
            p.config_file@ == join_path(root@, "config/config.json"@),
            p.database_file@ == join_path(root@, "data/mods.db"@),
            p.log_directory@ == join_path(root@, "logs"@),
            p.repository_directory@ == join_path(root@, "data/repository"@),
            p.staging_directory@ == join_path(root@, "cache/staging"@),
    {
        AppPaths {
            data_directory: joined(root, "data"),
            config_file: joined(root, "config/config.json"),
            database_file: joined(root, "data/mods.db"),
            log_directory: joined(root, "logs"),
            repository_directory: joined(root, "data/repository"),
            staging_directory: joined(root, "cache/staging"),
        }
    }
}

// ---------------------------------------------------------------------------
// Validation
// ---------------------------------------------------------------------------
/// Number of trailing `\` characters.
pub open spec fn trailing_backslashes(s: Seq<char>) -> nat
    decreases s.len(),
{
    if s.len() > 0 && s.last() == '\\' {
        trailing_backslashes(s.drop_last()) + 1
    } else {
        0
    }
}

proof fn lemma_trailing_backslashes_bound(s: Seq<char>)
    ensures
        trailing_backslashes(s) <= s.len(),
    decreases s.len(),
{
    if s.len() > 0 && s.last() == '\\' {
        lemma_trailing_backslashes_bound(s.drop_last());
    }
}

/// A path compared with others regardless of case and separator style: `\`
/// separators, no trailing separator, lower case.
pub open spec fn spec_normalized_path_key(p: Seq<char>) -> Seq<char> {
    let b = backslash_form(p);
    unicode_lower(b.take(b.len() - trailing_backslashes(b)))
}

pub fn normalized_path_key(path: &str) -> (r: String)
    ensures
        r@ == spec_normalized_path_key(path@),
        crate::text::all_ascii(path@) ==> r@ == crate::text::lower_seq(
            {
                let b = backslash_form(path@);
                b.take(b.len() - trailing_backslashes(b))
            },
        ),
{
    let chars = to_chars(path);
    let mut b: Vec<char> = Vec::new();
    let mut i: usize = 0;
    while i < chars.len()
        invariant
            i <= chars@.len(),
            b@ =~= backslash_form(chars@.take(i as int)),
        decreases chars@.len() - i,
    {
        let c = chars[i];
        b.push(if c == '/' { '\\' } else { c });
        i = i + 1;
    }
    proof {
        assert(chars@.take(chars@.len() as int) =~= chars@);
    }
    let ghost bv = b@;
    let mut n = b.len();
    proof {
        lemma_trailing_backslashes_bound(bv);
        assert(bv.take(n as int) =~= bv);
    }
    while n > 0 && b[n - 1] == '\\'
        invariant
            n <= bv.len(),
            bv == b@,
            trailing_backslashes(bv) == trailing_backslashes(bv.take(n as int)) + (bv.len() - n),
        decreases n,
    {
        proof {
            assert(bv.take(n as int).drop_last() =~= bv.take(n - 1));
        }
        n = n - 1;
    }
    let trimmed = from_chars(crate::text::slice_subrange(b.as_slice(), 0, n));
    proof {
        if crate::text::all_ascii(path@) {
            assert(trimmed@ =~= bv.take(n as int));
            assert forall|i: int| 0 <= i < trimmed@.len() implies (#[trigger] trimmed@[i] as u32) < 128 by {
                assert(trimmed@[i] == bv[i]);
                assert(chars@[i] == path@[i]);
            }
        }
    }
    to_lowercase(trimmed.as_str())
}

/// `b` is `a` followed by `\` and more.
pub open spec fn below_with_backslash(a: Seq<char>, b: Seq<char>) -> bool {
    a.len() < b.len() && b.take(a.len() as int) == a && b[a.len() as int] == '\\'
}

/// Two paths overlap when, compared by key, they are equal or one lies
/// below the other.
pub open spec fn spec_paths_overlap(left: Seq<char>, right: Seq<char>) -> bool {
    let l = spec_normalized_path_key(left);
    let r = spec_normalized_path_key(right);
    l == r || below_with_backslash(r, l) || below_with_backslash(l, r)
}

fn is_below_with_backslash(a: &[char], b: &[char]) -> (r: bool)
    ensures
        r == below_with_backslash(a@, b@),
{
    if a.len() >= b.len() {
        return false;
    }
    let mut i: usize = 0;
    while i < a.len()
        invariant
            i <= a@.len(),
            a@.len() < b@.len(),
            forall|j: int| 0 <= j < i ==> a@[j] == b@[j],
        decreases a@.len() - i,
    {
        if a[i] != b[i] {
            proof {
                assert(b@.take(a@.len() as int)[i as int] != a@[i as int]);
            }
            return false;
        }
        i = i + 1;
    }
    proof {
        assert(b@.take(a@.len() as int) =~= a@);
    }
    b[a.len()] == '\\'
}

pub fn paths_overlap_case_insensitive(left: &str, right: &str) -> (r: bool)
    ensures
        r == spec_paths_overlap(left@, right@),
{
    let l = to_chars(normalized_path_key(left).as_str());
    let r = to_chars(normalized_path_key(right).as_str());
    chars_eq(l.as_slice(), r.as_slice()) || is_below_with_backslash(r.as_slice(), l.as_slice())
        || is_below_with_backslash(l.as_slice(), r.as_slice())
}

/// A usable absolute path: absolute, not empty and without a NUL.
pub open spec fn absolute_path_ok(p: Seq<char>) -> bool {
    is_absolute_path(p) && p.len() > 0 && !p.contains('\0')
}

pub fn validate_absolute_path(label: &str, path: &str) -> (r: Result<(), AppError>)
    ensures
        r is Ok <==> absolute_path_ok(path@),
        r matches Err(e) ==> e is ConfigValidation,
{
    let p = to_chars(path);
    if !is_absolute_chars(p.as_slice()) || p.len() == 0 {
        let m = concat_str(to_chars(label).as_slice(), "必须是绝对路径。");
        return Err(AppError::ConfigValidation(from_chars(m.as_slice())));
    }
    if crate::text::chars_contain(p.as_slice(), '\0') {
        let m = concat_str(to_chars(label).as_slice(), "包含非法字符。");
        return Err(AppError::ConfigValidation(from_chars(m.as_slice())));
    }
    proof {
        assert(!p@.contains('\0'));
    }
    Ok(())
}

pub open spec fn opt_path_ok(p: Option<String>) -> bool {
    match p {
        Some(s) => absolute_path_ok(s@),
        None => true,
    }
}

/// A settings document is acceptable: the current schema version, a
/// supported language, a non-blank adapter id of at most 128 bytes,
/// absolute storage paths and optional game paths, and storage paths that
/// do not overlap.
pub open spec fn settings_ok(s: AppSettings) -> bool {
    &&& s.schema_version == CONFIG_SCHEMA_VERSION
    &&& (s.language@ == "zh-CN"@ || s.language@ == "en-US"@)
    &&& trim(s.game.adapter_id@).len() > 0
    &&& byte_len(s.game.adapter_id@) <= 128
    &&& absolute_path_ok(s.storage.repository_path@)
    &&& absolute_path_ok(s.storage.staging_path@)
    &&& opt_path_ok(s.game.installation_path)
    &&& opt_path_ok(s.game.loader_root)
    &&& !spec_paths_overlap(s.storage.repository_path@, s.storage.staging_path@)
}

pub fn validate_settings(settings: &AppSettings) -> (r: Result<(), AppError>)
    ensures
        r is Ok <==> settings_ok(*settings),
        r matches Err(e) ==> e is ConfigValidation,
{
    if settings.schema_version != CONFIG_SCHEMA_VERSION {
        let a = concat_str(to_chars("不支持的配置版本 ").as_slice(), "");
        let digits = crate::ids::decimal_chars(settings.schema_version as u64);
        let b = crate::text::concat(a.as_slice(), digits.as_slice());
        let c = concat_str(b.as_slice(), "，当前版本为 1。");
        return Err(AppError::ConfigValidation(from_chars(c.as_slice())));
    }
    let language = to_chars(settings.language.as_str());
    let zh = to_chars("zh-CN");
    let en = to_chars("en-US");
    if !chars_eq(language.as_slice(), zh.as_slice()) && !chars_eq(language.as_slice(), en.as_slice()) {
        return Err(AppError::ConfigValidation(msg("当前仅支持 zh-CN 和 en-US 语言代码。")));
    }
    let adapter = to_chars(settings.game.adapter_id.as_str());
    if trim_chars(adapter.as_slice()).len() == 0 || !crate::archive::utf8_within(adapter.as_slice(), 128) {
        return Err(AppError::ConfigValidation(msg("游戏适配器 ID 无效。")));
    }
    validate_absolute_path("模组仓库", settings.storage.repository_path.as_str())?;
    validate_absolute_path("临时目录", settings.storage.staging_path.as_str())?;
    match &settings.game.installation_path {
        Some(p) => validate_absolute_path("游戏目录", p.as_str())?,
        None => {},
    }
    match &settings.game.loader_root {
        Some(p) => validate_absolute_path("加载器目录", p.as_str())?,
        None => {},
    }
    if paths_overlap_case_insensitive(
        settings.storage.repository_path.as_str(),
        settings.storage.staging_path.as_str(),
    ) {
        return Err(AppError::ConfigValidation(msg("模组仓库和临时目录不能相同或互相包含。")));
    }
    Ok(())
}

/// Path overlap is symmetric.
pub proof fn lemma_paths_overlap_symmetric(left: Seq<char>, right: Seq<char>)
    ensures
        spec_paths_overlap(left, right) == spec_paths_overlap(right, left),
{
}

/// A path always overlaps itself, so a configuration that stages into its
/// repository is refused.
pub proof fn lemma_path_overlaps_itself(p: Seq<char>)
    ensures
        spec_paths_overlap(p, p),
{
}

} // verus!
