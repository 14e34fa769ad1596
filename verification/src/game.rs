//! The game and its loader: their model, the settings files they are
//! recognised by, and how they are launched.
use vstd::prelude::*;
use crate::error::{msg, AppError};
use crate::ini_facts::{trim_set, trim_set_chars};
use crate::ini_parse::{find, find_char, lines_of, spec_lines};
use crate::path_safety::{join_chars, join_path};
use crate::settings::{normalized_path_key, spec_normalized_path_key, LaunchMode};
use crate::text::{
    chars_eq, chars_eq_ic, copy_str, eq_ic, from_chars, lower_chars, lower_seq, slice_subrange,
    slice_to_vec, to_chars, to_lowercase, trim, trim_chars, unicode_lower,
};

verus! {

#[derive(Debug, Clone, Copy, PartialEq, Eq, Structural)]
pub enum GameEdition {
    China,
    International,
    Unknown,
}

#[derive(Debug, Clone, Copy, PartialEq, Eq, Structural)]
pub enum GameDiscoverySource {
    ConfiguredPath,
    LauncherRegistry,
    KnownInstallRoot,
    ManualSelection,
}

#[derive(Debug, Clone, PartialEq, Eq)]
pub struct GameVersionInfo {
    pub value: Option<String>,
    pub source: Option<String>,
    pub note: String,
}

#[derive(Debug, Clone)]
pub struct GameInstallation {
    pub adapter_id: String,
    pub edition: GameEdition,
    pub installation_root: String,
    pub executable: String,
    pub loader_root: Option<String>,
    pub version: GameVersionInfo,
}

#[derive(Debug, Clone)]
pub struct GameValidation {
    pub valid: bool,
    pub confidence: u8,
    pub evidence: Vec<String>,
    pub issues: Vec<String>,
    pub installation: Option<GameInstallation>,
}

#[derive(Debug, Clone)]
pub struct DetectedGameInstallation {
    pub source: GameDiscoverySource,
    pub validation: GameValidation,
}

#[derive(Debug, Clone)]
pub struct EfmiValidation {
    pub valid: bool,
    pub launch_ready: bool,
    pub root: Option<String>,
    pub executable: Option<String>,
    pub configured_game_executable: Option<String>,
    pub evidence: Vec<String>,
    pub issues: Vec<String>,
}

#[derive(Debug, Clone)]
pub struct GameStatus {
    pub configured: bool,
    pub installation: Option<GameValidation>,
    pub loader: Option<EfmiValidation>,
    pub launch_mode: LaunchMode,
    pub can_launch: bool,
    pub launch_block_reason: Option<String>,
}

#[derive(Debug, Clone)]
pub struct LaunchSpec {
    pub executable: String,
    pub working_directory: String,
    pub arguments: Vec<String>,
}

#[derive(Debug, Clone)]
pub struct GameLaunchResult {
    pub process_id: u32,
    pub mode: LaunchMode,
}

/// A failed game validation with what was found and what went wrong.
pub fn invalid_game_validation(evidence: Vec<String>, issues: Vec<String>) -> (v: GameValidation)
    ensures
        !v.valid,
        v.confidence == 0,
        v.evidence == evidence,
        v.issues == issues,
        v.installation is None,
{
    GameValidation { valid: false, confidence: 0, evidence, issues, installation: None }
}

/// A failed loader validation with what was found and what went wrong.
pub fn invalid_loader_validation(evidence: Vec<String>, issues: Vec<String>) -> (v: EfmiValidation)
    ensures
        !v.valid,
        !v.launch_ready,
        v.root is None,
        v.executable is None,
        v.configured_game_executable is None,
        v.evidence == evidence,
        v.issues == issues,
{
    EfmiValidation {
        valid: false,
        launch_ready: false,
        root: None,
        executable: None,
        configured_game_executable: None,
        evidence,
        issues,
    }
}

// ---------------------------------------------------------------------------
// Loader settings files
// ---------------------------------------------------------------------------
/// Number of leading byte-order marks.
pub open spec fn lead_bom(s: Seq<char>) -> nat
    decreases s.len(),
{
    if s.len() > 0 && s[0] == '\u{feff}' {
        1 + lead_bom(s.drop_first())
    } else {
        0
    }
}

/// A line as the loader reads it: trimmed, without leading byte-order marks.
pub open spec fn loader_line(raw: Seq<char>) -> Seq<char> {
    let t = trim(raw);
    t.skip(lead_bom(t) as int)
}

/// The section a `[name]` line opens, trimmed.
pub open spec fn header_name(line: Seq<char>) -> Option<Seq<char>> {
    if line.len() >= 2 && line[0] == '[' && line.last() == ']' {
        Some(trim(line.subrange(1, line.len() - 1)))
    } else {
        None
    }
}

/// The state of a scan for one section: the current section and the
/// `key = value` pairs met inside the requested one (keys in ASCII lower
/// case, values without surrounding quotes).
pub struct SectionScan {
    pub section: Seq<char>,
    pub values: Seq<(Seq<char>, Seq<char>)>,
}

pub open spec fn scan_line(st: SectionScan, raw: Seq<char>, requested: Seq<char>) -> SectionScan {
    let line = loader_line(raw);
    if line.len() == 0 || line[0] == ';' || line[0] == '#' {
        st
    } else {
        match header_name(line) {
            Some(n) => SectionScan { section: n, values: st.values },
            None => if !eq_ic(st.section, requested) {
                st
            } else {
                match find_char(line, '=') {
                    Some(k) => SectionScan {
                        section: st.section,
                        values: st.values.push(
                            (
                                lower_seq(trim(line.take(k as int))),
                                trim_set(trim(line.skip((k + 1) as int)), seq!['"']),
                            ),
                        ),
                    },
                    None => st,
                }
            },
        }
    }
}

pub open spec fn scan_lines(lines: Seq<Seq<char>>, requested: Seq<char>) -> SectionScan
    decreases lines.len(),
{
    if lines.len() == 0 {
        SectionScan { section: Seq::empty(), values: Seq::empty() }
    } else {
        scan_line(scan_lines(lines.drop_last(), requested), lines.last(), requested)
    }
}

/// The `key = value` pairs of a section of a loader settings file, in order.
pub open spec fn spec_parse_section(contents: Seq<char>, requested: Seq<char>) -> Seq<(Seq<char>, Seq<char>)> {
    scan_lines(spec_lines(contents), requested).values
}

/// The value last assigned to `key`.
pub open spec fn setting(values: Seq<(Seq<char>, Seq<char>)>, key: Seq<char>) -> Option<Seq<char>>
    decreases values.len(),
{
    if values.len() == 0 {
        None
    } else if values.last().0 == key {
        Some(values.last().1)
    } else {
        setting(values.drop_last(), key)
    }
}

fn loader_line_chars(raw: &[char]) -> (r: Vec<char>)
    ensures
        r@ == loader_line(raw@),
{
    let t = trim_chars(raw);
    let ghost tv = t@;
    let mut i: usize = 0;
    proof {
        assert(tv.skip(0) =~= tv);
    }
    while i < t.len() && t[i] == '\u{feff}'
        invariant
            i <= tv.len(),
            tv == t@,
            lead_bom(tv) == i + lead_bom(tv.skip(i as int)),
        decreases tv.len() - i,
    {
        proof {
            assert(tv.skip(i as int).drop_first() =~= tv.skip(i + 1));
            assert(tv.skip(i as int)[0] == tv[i as int]);
        }
        i = i + 1;
    }
    proof {
        if i < tv.len() {
            assert(tv.skip(i as int)[0] == tv[i as int]);
        }
    }
    slice_to_vec(slice_subrange(t.as_slice(), i, t.len()))
}

/// Reads the `key = value` pairs of one section of a loader settings file.
pub fn parse_section(contents: &str, requested_section: &str) -> (r: Vec<(Vec<char>, Vec<char>)>)
    ensures
        r@.map_values(|p: (Vec<char>, Vec<char>)| (p.0@, p.1@)) == spec_parse_section(
            contents@,
            requested_section@,
        ),
{
    let text = to_chars(contents);
    let requested = to_chars(requested_section);
    let lines = lines_of(text.as_slice());
    let ghost ls = spec_lines(text@);
    let mut section: Vec<char> = Vec::new();
    let mut values: Vec<(Vec<char>, Vec<char>)> = Vec::new();
    let mut quote: Vec<char> = Vec::new();
    quote.push('"');
    let mut k: usize = 0;
    proof {
        assert(ls.take(0) =~= Seq::<Seq<char>>::empty());
        assert(values@.map_values(|p: (Vec<char>, Vec<char>)| (p.0@, p.1@)) =~= Seq::<(Seq<char>, Seq<char>)>::empty());
        assert(quote@ =~= seq!['"']);
    }
    while k < lines.len()
        invariant
            k <= lines@.len(),
            ls == spec_lines(text@),
            text@ == contents@,
            lines@.len() == ls.len(),
            forall|j: int| 0 <= j < lines@.len() ==> #[trigger] lines@[j]@ == ls[j],
            quote@ == seq!['"'],
            requested@ == requested_section@,
            section@ == scan_lines(ls.take(k as int), requested@).section,
            values@.map_values(|p: (Vec<char>, Vec<char>)| (p.0@, p.1@)) == scan_lines(
                ls.take(k as int),
                requested@,
            ).values,
        decreases lines@.len() - k,
    {
        proof {
            assert(ls.take(k + 1).drop_last() =~= ls.take(k as int));
            assert(ls.take(k + 1).last() == ls[k as int]);
        }
        let line = loader_line_chars(lines[k].as_slice());
        let n = line.len();
        if n == 0 || line[0] == ';' || line[0] == '#' {
        } else if n >= 2 && line[0] == '[' && line[n - 1] == ']' {
            section = trim_chars(slice_subrange(line.as_slice(), 1, n - 1));
        } else if chars_eq_ic(section.as_slice(), requested.as_slice()) {
            match find(line.as_slice(), '=') {
                Some(eq) => {
                    proof {
                        crate::ini_parse::lemma_find_char(line@, '=');
                    }
                    let key = lower_chars(trim_chars(slice_subrange(line.as_slice(), 0, eq)).as_slice());
                    let raw_value = trim_chars(slice_subrange(line.as_slice(), eq + 1, n));
                    let value = trim_set_chars(raw_value.as_slice(), quote.as_slice());
                    let ghost before = values@;
                    values.push((key, value));
                    proof {
                        assert(line@.take(eq as int) =~= line@.subrange(0, eq as int));
                        assert(line@.skip(eq + 1) =~= line@.subrange(eq + 1, n as int));
                        assert(values@.map_values(|p: (Vec<char>, Vec<char>)| (p.0@, p.1@))
                            =~= before.map_values(|p: (Vec<char>, Vec<char>)| (p.0@, p.1@)).push(
                            (key@, value@),
                        ));
                    }
                },
                None => {},
            }
        }
        k = k + 1;
    }
    proof {
        assert(ls.take(ls.len() as int) =~= ls);
    }
    values
}

/// The value last assigned to `key` among `values`.
pub fn setting_value(values: &Vec<(Vec<char>, Vec<char>)>, key: &str) -> (r: Option<Vec<char>>)
    ensures
        r matches Some(v) ==> setting(values@.map_values(|p: (Vec<char>, Vec<char>)| (p.0@, p.1@)), key@)
            == Some(v@),
        r is None ==> setting(values@.map_values(|p: (Vec<char>, Vec<char>)| (p.0@, p.1@)), key@) is None,
{
    let ghost s = values@.map_values(|p: (Vec<char>, Vec<char>)| (p.0@, p.1@));
    let k = to_chars(key);
    let mut n = values.len();
    proof {
        assert(s.take(n as int) =~= s);
    }
    while n > 0
        invariant
            n <= values@.len(),
            s == values@.map_values(|p: (Vec<char>, Vec<char>)| (p.0@, p.1@)),
            k@ == key@,
            setting(s, key@) == setting(s.take(n as int), key@),
        decreases n,
    {
        proof {
            assert(s.take(n as int).drop_last() =~= s.take(n - 1));
            assert(s.take(n as int).last() == s[n - 1]);
        }
        if chars_eq(values[n - 1].0.as_slice(), k.as_slice()) {
            return Some(slice_to_vec(values[n - 1].1.as_slice()));
        }
        n = n - 1;
    }
    None
}

/// The loader settings problem, if any: `target` must be `Endfield.exe` and
/// `module` must be `d3d11.dll` (in any case).
pub open spec fn loader_settings_issue(values: Seq<(Seq<char>, Seq<char>)>) -> Option<Seq<char>> {
    if !(match setting(values, "target"@) {
        Some(v) => eq_ic(v, "Endfield.exe"@),
        None => false,
    }) {
        Some("d3dx.ini 的 Loader.target 不是 Endfield.exe。"@)
    } else if !(match setting(values, "module"@) {
        Some(v) => eq_ic(v, "d3d11.dll"@),
        None => false,
    }) {
        Some("d3dx.ini 的 Loader.module 不是 d3d11.dll。"@)
    } else {
        None
    }
}

pub fn check_loader_settings(values: &Vec<(Vec<char>, Vec<char>)>) -> (r: Option<String>)
    ensures
        r matches Some(m) ==> loader_settings_issue(values@.map_values(|p: (Vec<char>, Vec<char>)| (p.0@, p.1@)))
            == Some(m@),
        r is None ==> loader_settings_issue(values@.map_values(|p: (Vec<char>, Vec<char>)| (p.0@, p.1@))) is None,
{
    let target_ok = match setting_value(values, "target") {
        Some(v) => chars_eq_ic(v.as_slice(), to_chars("Endfield.exe").as_slice()),
        None => false,
    };
    if !target_ok {
        return Some(copy_str("d3dx.ini 的 Loader.target 不是 Endfield.exe。"));
    }
    let module_ok = match setting_value(values, "module") {
        Some(v) => chars_eq_ic(v.as_slice(), to_chars("d3d11.dll").as_slice()),
        None => false,
    };
    if !module_ok {
        return Some(copy_str("d3dx.ini 的 Loader.module 不是 d3d11.dll。"));
    }
    None
}

pub open spec fn setting_views(values: Seq<(Vec<char>, Vec<char>)>) -> Seq<(Seq<char>, Seq<char>)> {
    values.map_values(|p: (Vec<char>, Vec<char>)| (p.0@, p.1@))
}

/// Where the loader's `launch` setting points: an absolute value as it is,
/// a relative one below the loader's root.
pub open spec fn configured_launch(root: Seq<char>, values: Seq<(Seq<char>, Seq<char>)>) -> Option<Seq<char>> {
    match setting(values, "launch"@) {
        Some(v) => Some(
            if crate::path_safety::is_absolute_path(v) {
                v
            } else {
                join_path(root, v)
            },
        ),
        None => None,
    }
}

pub fn configured_launch_path(root: &str, values: &Vec<(Vec<char>, Vec<char>)>) -> (r: Option<String>)
    ensures
        r is None <==> configured_launch(root@, setting_views(values@)) is None,
        r matches Some(p) ==> configured_launch(root@, setting_views(values@)) == Some(p@),
{
    match setting_value(values, "launch") {
        Some(v) => {
            if crate::path_safety::is_absolute_chars(v.as_slice()) {
                Some(from_chars(v.as_slice()))
            } else {
                let r = to_chars(root);
                Some(from_chars(join_chars(r.as_slice(), v.as_slice()).as_slice()))
            }
        },
        None => None,
    }
}

pub open spec fn setting_is(values: Seq<(Seq<char>, Seq<char>)>, key: Seq<char>, expected: Seq<char>) -> bool {
    match setting(values, key) {
        Some(v) => eq_ic(v, expected),
        None => false,
    }
}

/// Completes a loader validation once its files were found and `d3dx.ini`
/// read: `target` must be `Endfield.exe` and `module` `d3d11.dll` (else the
/// loader is invalid with that one issue); then the loader is valid, and it
/// is launch-ready exactly when its configured launch path is the game's
/// executable, as `launch_ready` reports.
pub fn finish_loader_validation(
    root: String,
    executable: String,
    values: &Vec<(Vec<char>, Vec<char>)>,
    evidence: Vec<String>,
    configured_game_executable: Option<String>,
    launch_ready: bool,
) -> (v: EfmiValidation)
    ensures
        ({
            let vals = setting_views(values@);
            let ev = crate::conflicts::text_views(evidence@);
            let target_ev = "d3dx.ini 的加载目标为 Endfield.exe。"@;
            let module_ev = "d3dx.ini 使用 d3d11.dll 模块。"@;
            if !setting_is(vals, "target"@, "Endfield.exe"@) {
                &&& !v.valid && !v.launch_ready && v.root is None && v.executable is None
                &&& crate::conflicts::text_views(v.evidence@) == ev
                &&& crate::conflicts::text_views(v.issues@) == seq!["d3dx.ini 的 Loader.target 不是 Endfield.exe。"@]
            } else if !setting_is(vals, "module"@, "d3d11.dll"@) {
                &&& !v.valid && !v.launch_ready && v.root is None && v.executable is None
                &&& crate::conflicts::text_views(v.evidence@) == ev.push(target_ev)
                &&& crate::conflicts::text_views(v.issues@) == seq!["d3dx.ini 的 Loader.module 不是 d3d11.dll。"@]
            } else {
                &&& v.valid && v.launch_ready == launch_ready
                &&& v.root == Some(root) && v.executable == Some(executable)
                &&& v.configured_game_executable == configured_game_executable
                &&& crate::conflicts::text_views(v.evidence@) == if launch_ready {
                    ev.push(target_ev).push(module_ev).push("d3dx.ini 的 launch 路径与当前游戏可执行文件一致。"@)
                } else {
                    ev.push(target_ev).push(module_ev)
                }
                &&& crate::conflicts::text_views(v.issues@) == if launch_ready {
                    Seq::<Seq<char>>::empty()
                } else {
                    seq!["d3dx.ini 的 launch 路径缺失、已失效或与当前游戏目录不一致；在修正前不能通过 EFMI 启动。"@]
                }
            }
        }),
{
    let ghost vals = setting_views(values@);
    let mut evidence = evidence;
    let ghost ev = crate::conflicts::text_views(evidence@);
    let target_ok = match setting_value(values, "target") {
        Some(t) => chars_eq_ic(t.as_slice(), to_chars("Endfield.exe").as_slice()),
        None => false,
    };
    if !target_ok {
        let issue = copy_str("d3dx.ini 的 Loader.target 不是 Endfield.exe。");
        let issues = vec![issue];
        proof {
            assert(crate::conflicts::text_views(issues@) =~= seq![issue@]);
        }
        return invalid_loader_validation(evidence, issues);
    }
    let t_ev = copy_str("d3dx.ini 的加载目标为 Endfield.exe。");
    evidence.push(t_ev);
    proof {
        assert(crate::conflicts::text_views(evidence@) =~= ev.push(t_ev@));
    }
    let module_ok = match setting_value(values, "module") {
        Some(m) => chars_eq_ic(m.as_slice(), to_chars("d3d11.dll").as_slice()),
        None => false,
    };
    if !module_ok {
        let issue = copy_str("d3dx.ini 的 Loader.module 不是 d3d11.dll。");
        let issues = vec![issue];
        proof {
            assert(crate::conflicts::text_views(issues@) =~= seq![issue@]);
        }
        return invalid_loader_validation(evidence, issues);
    }
    let m_ev = copy_str("d3dx.ini 使用 d3d11.dll 模块。");
    let ghost ev2 = crate::conflicts::text_views(evidence@);
    evidence.push(m_ev);
    proof {
        assert(crate::conflicts::text_views(evidence@) =~= ev2.push(m_ev@));
    }
    let mut issues: Vec<String> = Vec::new();
    if launch_ready {
        let ghost ev3 = crate::conflicts::text_views(evidence@);
        let l = copy_str("d3dx.ini 的 launch 路径与当前游戏可执行文件一致。");
        evidence.push(l);
        proof {
            assert(crate::conflicts::text_views(evidence@) =~= ev3.push(l@));
            assert(crate::conflicts::text_views(issues@) =~= Seq::<Seq<char>>::empty());
        }
    } else {
        let l = copy_str("d3dx.ini 的 launch 路径缺失、已失效或与当前游戏目录不一致；在修正前不能通过 EFMI 启动。");
        issues.push(l);
        proof {
            assert(crate::conflicts::text_views(issues@) =~= seq![l@]);
        }
    }
    EfmiValidation {
        valid: true,
        launch_ready,
        root: Some(root),
        executable: Some(executable),
        configured_game_executable,
        evidence,
        issues,
    }
}

pub const ENDFIELD_ADAPTER_ID: &'static str = "endfield.local";

pub open spec fn version_note() -> Seq<char> {
    "当前安装未发现可验证的游戏版本源；EXE 版本属于 Unity 引擎，未作为游戏版本展示。"@
}

/// Completes a game validation once the executable and `app.info` were
/// confirmed (their evidence is in `evidence`): `UnityPlayer.dll` and then
/// `GameAssembly.dll` must be present, each adding 15 to the confidence of
/// 70; the edition is inferred from the root, and an unknown one is noted
/// as an issue of an otherwise valid installation.
pub fn finish_game_validation(
    root: String,
    executable: String,
    evidence: Vec<String>,
    has_unity_player: bool,
    has_game_assembly: bool,
) -> (v: GameValidation)
    ensures
        ({
            let ev = crate::conflicts::text_views(evidence@);
            let unity_ev = "找到 UnityPlayer.dll。"@;
            let assembly_ev = "找到 GameAssembly.dll。"@;
            let edition = spec_infer_edition(root@);
            if !has_unity_player {
                &&& !v.valid && v.confidence == 0 && v.installation is None
                &&& crate::conflicts::text_views(v.evidence@) == ev
                &&& crate::conflicts::text_views(v.issues@) == seq!["缺少终末地运行文件 UnityPlayer.dll，目录验证失败。"@]
            } else if !has_game_assembly {
                &&& !v.valid && v.confidence == 0 && v.installation is None
                &&& crate::conflicts::text_views(v.evidence@) == ev.push(unity_ev)
                &&& crate::conflicts::text_views(v.issues@) == seq!["缺少终末地运行文件 GameAssembly.dll，目录验证失败。"@]
            } else {
                &&& v.valid && v.confidence == 100
                &&& crate::conflicts::text_views(v.evidence@) == if edition == GameEdition::Unknown {
                    ev.push(unity_ev).push(assembly_ev)
                } else {
                    ev.push(unity_ev).push(assembly_ev).push("路径特征与已验证的鹰角启动器国服布局一致。"@)
                }
                &&& crate::conflicts::text_views(v.issues@) == if edition == GameEdition::Unknown {
                    seq!["安装身份有效，但尚不能可靠判断国服或国际服。"@]
                } else {
                    Seq::<Seq<char>>::empty()
                }
                &&& v.installation matches Some(i) && i.adapter_id@ == ENDFIELD_ADAPTER_ID@ && i.edition == edition
                    && i.installation_root == root && i.executable == executable && i.loader_root is None
                    && i.version.value is None && i.version.source is None && i.version.note@ == version_note()
            }
        }),
{
    let mut evidence = evidence;
    let ghost ev = crate::conflicts::text_views(evidence@);
    if !has_unity_player {
        let issue = copy_str("缺少终末地运行文件 UnityPlayer.dll，目录验证失败。");
        let issues = vec![issue];
        proof {
            assert(crate::conflicts::text_views(issues@) =~= seq![issue@]);
        }
        return invalid_game_validation(evidence, issues);
    }
    let u = copy_str("找到 UnityPlayer.dll。");
    evidence.push(u);
    proof {
        assert(crate::conflicts::text_views(evidence@) =~= ev.push(u@));
    }
    if !has_game_assembly {
        let issue = copy_str("缺少终末地运行文件 GameAssembly.dll，目录验证失败。");
        let issues = vec![issue];
        proof {
            assert(crate::conflicts::text_views(issues@) =~= seq![issue@]);
        }
        return invalid_game_validation(evidence, issues);
    }
    let ghost ev2 = crate::conflicts::text_views(evidence@);
    let g = copy_str("找到 GameAssembly.dll。");
    evidence.push(g);
    proof {
        assert(crate::conflicts::text_views(evidence@) =~= ev2.push(g@));
    }
    let edition = infer_edition(root.as_str());
    let mut issues: Vec<String> = Vec::new();
    let ghost ev3 = crate::conflicts::text_views(evidence@);
    if edition == GameEdition::Unknown {
        let m = copy_str("安装身份有效，但尚不能可靠判断国服或国际服。");
        issues.push(m);
        proof {
            assert(crate::conflicts::text_views(issues@) =~= seq![m@]);
        }
    } else {
        let l = copy_str("路径特征与已验证的鹰角启动器国服布局一致。");
        evidence.push(l);
        proof {
            assert(crate::conflicts::text_views(evidence@) =~= ev3.push(l@));
            assert(crate::conflicts::text_views(issues@) =~= Seq::<Seq<char>>::empty());
        }
    }
    GameValidation {
        valid: true,
        confidence: 100,
        evidence,
        issues,
        installation: Some(
            GameInstallation {
                adapter_id: copy_str(ENDFIELD_ADAPTER_ID),
                edition,
                installation_root: root,
                executable,
                loader_root: None,
                version: GameVersionInfo {
                    value: None,
                    source: None,
                    note: copy_str("当前安装未发现可验证的游戏版本源；EXE 版本属于 Unity 引擎，未作为游戏版本展示。"),
                },
            },
        ),
    }
}

/// The loader's `Include` section recursively includes `Mods` and excludes
/// `DISABLED*` (values in any case).
pub open spec fn include_policy_ok(contents: Seq<char>) -> bool {
    let values = spec_parse_section(contents, "Include"@);
    &&& exists|k: int|
        0 <= k < values.len() && values[k].0 == "include_recursive"@ && eq_ic(#[trigger] values[k].1, "Mods"@)
    &&& exists|k: int|
        0 <= k < values.len() && values[k].0 == "exclude_recursive"@ && eq_ic(
            #[trigger] values[k].1,
            "DISABLED*"@,
        )
}

/// Checks that the loader's settings make `DISABLED` folders invisible to it,
/// which direct enabling and disabling relies on.
pub fn validate_efmi_include_policy(contents: &str) -> (r: Result<(), AppError>)
    ensures
        r is Ok <==> include_policy_ok(contents@),
        r matches Err(e) ==> e is LoaderValidation,
{
    let values = parse_section(contents, "Include");
    let ghost vs = values@.map_values(|p: (Vec<char>, Vec<char>)| (p.0@, p.1@));
    let inc = to_chars("include_recursive");
    let exc = to_chars("exclude_recursive");
    let mods = to_chars("Mods");
    let dis = to_chars("DISABLED*");
    let mut includes = false;
    let mut excludes = false;
    let mut k: usize = 0;
    while k < values.len()
        invariant
            k <= values@.len(),
            vs == values@.map_values(|p: (Vec<char>, Vec<char>)| (p.0@, p.1@)),
            inc@ == "include_recursive"@,
            exc@ == "exclude_recursive"@,
            mods@ == "Mods"@,
            dis@ == "DISABLED*"@,
            includes <==> exists|q: int|
                0 <= q < k && vs[q].0 == "include_recursive"@ && eq_ic(#[trigger] vs[q].1, "Mods"@),
            excludes <==> exists|q: int|
                0 <= q < k && vs[q].0 == "exclude_recursive"@ && eq_ic(#[trigger] vs[q].1, "DISABLED*"@),
        decreases values@.len() - k,
    {
        let key = &values[k].0;
        let value = &values[k].1;
        proof {
            assert(vs[k as int] == (key@, value@));
        }
        let inc_here = chars_eq(key.as_slice(), inc.as_slice()) && chars_eq_ic(value.as_slice(), mods.as_slice());
        let exc_here = chars_eq(key.as_slice(), exc.as_slice()) && chars_eq_ic(value.as_slice(), dis.as_slice());
        proof {
            assert(vs[k as int].0 == key@);
            assert(vs[k as int].1 == value@);
            assert(inc_here == (vs[k as int].0 == "include_recursive"@ && eq_ic(vs[k as int].1, "Mods"@)));
            assert(exc_here == (vs[k as int].0 == "exclude_recursive"@ && eq_ic(vs[k as int].1, "DISABLED*"@)));
        }
        if inc_here {
            includes = true;
        }
        if exc_here {
            excludes = true;
        }
        k = k + 1;
    }
    if !includes || !excludes {
        return Err(AppError::LoaderValidation(msg("当前 EFMI 配置未同时声明 include_recursive = Mods 与 exclude_recursive = DISABLED*；无法保证原子启停。")));
    }
    Ok(())
}

// ---------------------------------------------------------------------------
// The loader adapter
// ---------------------------------------------------------------------------
/// The EFMI loader.
#[derive(Debug, Default)]
pub struct EfmiAdapter;

impl EfmiAdapter {
    pub fn new() -> (a: Self) {
        EfmiAdapter
    }

    /// How to start the game through a validated loader: its executable in
    /// its root. Refused unless the validation passed and is launch-ready
    /// and names both.
    pub fn launch_spec(&self, validation: &EfmiValidation) -> (r: Result<LaunchSpec, AppError>)
        ensures
            r is Ok <==> validation.valid && validation.launch_ready && validation.executable is Some
                && validation.root is Some,
            r matches Ok(s) ==> s.executable@ == validation.executable->0@ && s.working_directory@
                == validation.root->0@ && s.arguments@.len() == 0,
            r matches Err(e) ==> e is NotAvailable,
    {
        if !validation.valid || !validation.launch_ready {
            return Err(AppError::NotAvailable(msg("EFMI 加载器未通过启动校验，请检查加载器路径与 d3dx.ini 的 launch 设置。")));
        }
        let executable = match &validation.executable {
            Some(e) => copy_str(e.as_str()),
            None => return Err(AppError::NotAvailable(msg("EFMI 启动程序路径不可用。"))),
        };
        let working_directory = match &validation.root {
            Some(r) => copy_str(r.as_str()),
            None => return Err(AppError::NotAvailable(msg("EFMI 根目录不可用。"))),
        };
        Ok(LaunchSpec { executable, working_directory, arguments: Vec::new() })
    }
}

// ---------------------------------------------------------------------------
// The game adapter
// ---------------------------------------------------------------------------
/// The local Endfield installation.
#[derive(Debug, Default)]
pub struct EndfieldAdapter;

impl EndfieldAdapter {
    pub fn new() -> (a: Self) {
        EndfieldAdapter
    }
}

/// `s` contains `needle`.
pub open spec fn contains_seq(s: Seq<char>, needle: Seq<char>) -> bool {
    exists|i: int| 0 <= i && i + needle.len() <= s.len() && #[trigger] s.subrange(i, i + needle.len()) == needle
}

fn chars_contain_seq(s: &[char], needle: &[char]) -> (b: bool)
    ensures
        b == contains_seq(s@, needle@),
{
    if needle.len() > s.len() {
        return false;
    }
    let last = s.len() - needle.len();
    let mut i: usize = 0;
    while i <= last
        invariant
            needle@.len() <= s@.len(),
            last == s@.len() - needle@.len(),
            forall|j: int| 0 <= j < i ==> #[trigger] s@.subrange(j, j + needle@.len()) != needle@,
        decreases last + 1 - i,
    {
        let end = s.len() - (last - i);
        assert(end == i + needle@.len());
        if chars_eq(slice_subrange(s, i, end), needle) {
            return true;
        }
        if i == last {
            proof {
                assert forall|j: int| 0 <= j && j + needle@.len() <= s@.len() implies #[trigger] s@.subrange(
                    j,
                    j + needle@.len(),
                ) != needle@ by {
                    assert(j <= i);
                }
            }
            return false;
        }
        i = i + 1;
    }
    false
}

/// The edition a path shows: a Hypergryph launcher or GRYPHLINK layout is
/// the China edition; anything else is unknown.
pub open spec fn spec_infer_edition(root: Seq<char>) -> GameEdition {
    let key = spec_normalized_path_key(root);
    if contains_seq(key, "hypergryph launcher"@) || contains_seq(key, "gryphlink"@) {
        GameEdition::China
    } else {
        GameEdition::Unknown
    }
}

/// Both launcher folders mark the China edition: a root whose normalized
/// key contains `gryphlink` or `hypergryph launcher` is China, and a root
/// that is China has one of them in its key.
pub proof fn lemma_launcher_folders_mean_china(root: Seq<char>)
    ensures
        contains_seq(spec_normalized_path_key(root), "gryphlink"@) ==> spec_infer_edition(root)
            == GameEdition::China,
        contains_seq(spec_normalized_path_key(root), "hypergryph launcher"@) ==> spec_infer_edition(root)
            == GameEdition::China,
        spec_infer_edition(root) == GameEdition::China ==> contains_seq(spec_normalized_path_key(root), "gryphlink"@)
            || contains_seq(spec_normalized_path_key(root), "hypergryph launcher"@),
        spec_infer_edition(root) != GameEdition::International,
{
}

pub fn infer_edition(root: &str) -> (e: GameEdition)
    ensures
        e == spec_infer_edition(root@),
{
    let key = to_chars(normalized_path_key(root).as_str());
    if chars_contain_seq(key.as_slice(), to_chars("hypergryph launcher").as_slice()) || chars_contain_seq(
        key.as_slice(),
        to_chars("gryphlink").as_slice(),
    ) {
        GameEdition::China
    } else {
        GameEdition::Unknown
    }
}

/// The identity file names the publisher and the product, one per line:
/// its non-blank trimmed lines are exactly `Hypergryph` and `Endfield`.
pub open spec fn identity_lines(lines: Seq<Seq<char>>) -> Seq<Seq<char>>
    decreases lines.len(),
{
    if lines.len() == 0 {
        Seq::empty()
    } else {
        let rest = identity_lines(lines.drop_last());
        let t = trim(lines.last());
        if t.len() > 0 {
            rest.push(t)
        } else {
            rest
        }
    }
}

pub open spec fn app_identity_ok(contents: Seq<char>) -> bool {
    identity_lines(spec_lines(contents)) == seq!["Hypergryph"@, "Endfield"@]
}

pub fn check_app_identity(contents: &str) -> (b: bool)
    ensures
        b == app_identity_ok(contents@),
{
    let text = to_chars(contents);
    let lines = lines_of(text.as_slice());
    let ghost ls = spec_lines(text@);
    let mut kept: Vec<Vec<char>> = Vec::new();
    let mut k: usize = 0;
    proof {
        assert(ls.take(0) =~= Seq::<Seq<char>>::empty());
        assert(crate::order::views(kept@) =~= Seq::<Seq<char>>::empty());
    }
    while k < lines.len()
        invariant
            k <= lines@.len(),
            ls == spec_lines(text@),
            lines@.len() == ls.len(),
            forall|j: int| 0 <= j < lines@.len() ==> #[trigger] lines@[j]@ == ls[j],
            crate::order::views(kept@) == identity_lines(ls.take(k as int)),
        decreases lines@.len() - k,
    {
        proof {
            assert(ls.take(k + 1).drop_last() =~= ls.take(k as int));
            assert(ls.take(k + 1).last() == ls[k as int]);
        }
        let t = trim_chars(lines[k].as_slice());
        if t.len() > 0 {
            let ghost before = kept@;
            kept.push(t);
            proof {
                assert(crate::order::views(kept@) =~= crate::order::views(before).push(t@));
            }
        }
        k = k + 1;
    }
    proof {
        assert(ls.take(ls.len() as int) =~= ls);
    }
    if kept.len() != 2 {
        proof {
            assert(crate::order::views(kept@).len() != 2);
        }
        return false;
    }
    let a = chars_eq(kept[0].as_slice(), to_chars("Hypergryph").as_slice());
    let b = chars_eq(kept[1].as_slice(), to_chars("Endfield").as_slice());
    proof {
        let v = crate::order::views(kept@);
        assert(v[0] == kept@[0]@);
        assert(v[1] == kept@[1]@);
        if a && b {
            assert(v =~= seq!["Hypergryph"@, "Endfield"@]);
        } else {
            assert(seq!["Hypergryph"@, "Endfield"@][0] == "Hypergryph"@);
            assert(seq!["Hypergryph"@, "Endfield"@][1] == "Endfield"@);
        }
    }
    a && b
}

/// A place where the game may be installed, and how it was found.
#[derive(Debug, Clone)]
pub struct DiscoveryCandidate {
    pub path: String,
    pub source: GameDiscoverySource,
}

/// `parent/<launcher>/games/EndField Game`.
pub open spec fn launcher_layout(parent: Seq<char>, launcher: Seq<char>) -> Seq<char> {
    join_path(join_path(join_path(parent, launcher), "games"@), "EndField Game"@)
}

fn joined_chars(root: &[char], relative: &str) -> (r: Vec<char>)
    ensures
        r@ == join_path(root@, relative@),
{
    join_chars(root, to_chars(relative).as_slice())
}

/// Adds the two launcher layouts below `parent` (Hypergryph Launcher, then
/// GRYPHLINK).
pub fn add_launcher_layouts(parent: &str, source: GameDiscoverySource, candidates: &mut Vec<DiscoveryCandidate>)
    ensures
        final(candidates)@.len() == old(candidates)@.len() + 2,
        final(candidates)@.take(old(candidates)@.len() as int) == old(candidates)@,
        final(candidates)@[old(candidates)@.len() as int].path@ == launcher_layout(
            parent@,
            "Hypergryph Launcher"@,
        ),
        final(candidates)@[old(candidates)@.len() as int].source == source,
        final(candidates)@[old(candidates)@.len() as int + 1].path@ == launcher_layout(parent@, "GRYPHLINK"@),
        final(candidates)@[old(candidates)@.len() as int + 1].source == source,
{
    let p = to_chars(parent);
    let ghost start = candidates@;
    let a = joined_chars(joined_chars(joined_chars(p.as_slice(), "Hypergryph Launcher").as_slice(), "games").as_slice(), "EndField Game");
    candidates.push(DiscoveryCandidate { path: from_chars(a.as_slice()), source });
    let b = joined_chars(joined_chars(joined_chars(p.as_slice(), "GRYPHLINK").as_slice(), "games").as_slice(), "EndField Game");
    candidates.push(DiscoveryCandidate { path: from_chars(b.as_slice()), source });
    proof {
        assert(candidates@.take(start.len() as int) =~= start);
    }
}

} // verus!
