//! EFMI INI conflict analysis. The reading of deployed files is left to the
//! caller; this module decides which files to read, within which budgets,
//! and turns their bytes into facts and the facts into conflicts.
use vstd::prelude::*;
use crate::conflicts::{
    conflict_views, text_views, AnalyzerOutput, Conflict, ConflictAnalysisSubject, ConflictKind,
    ConflictSeverity, ConflictView,
};
use crate::deployment::DeploymentEntry;
use crate::error::{msg, AppError};
use crate::facts::{
    append_fact_conflicts, fact_conflicts, lemma_table_add_all_concat, lemma_table_add_in_range,
    subjects_in_range, table_add, table_add_all, table_in_range, Fact, FactTable, FactView,
};
use crate::ids::{decimal, decimal_chars};
use crate::ini_facts::{
    has_ini_extension, local_resource_files, normalize_hash, normalize_namespace, override_details,
    override_kind, resource_table, spec_has_ini_extension, spec_normalize_hash,
    spec_normalize_namespace, spec_override_details, spec_override_kind, OverrideKind,
};
use crate::ini_parse::{decode_ini, parse_ini, spec_decode_ini, spec_parse_ini, SpecSection};
use crate::path_safety::{storage_chars, storage_form};
use crate::text::{chars_eq, concat, concat_str, from_chars, slice_to_vec, to_chars};

verus! {

pub const EFMI_INI_ANALYZER_ID: &'static str = "efmi.ini.v1";

/// At most this many INI files of one mod are analyzed.
pub const MAX_INI_FILES_PER_MOD: usize = 256;

/// A larger INI file is skipped.
pub const MAX_INI_FILE_BYTES: u64 = 4194304;

/// Analysis stops once the INI files read would exceed this many bytes.
pub const MAX_TOTAL_INI_BYTES: u64 = 67108864;

/// The analyzer that compares the explicit namespaces and the override
/// hashes of the INI files of enabled mods.
#[derive(Debug, Clone, Copy)]
pub struct EfmiIniConflictAnalyzer;

impl EfmiIniConflictAnalyzer {
    pub fn analyzer_id(&self) -> (r: &'static str)
        ensures
            r@ == "efmi.ini.v1"@,
    {
        EFMI_INI_ANALYZER_ID
    }
}

// ---------------------------------------------------------------------------
// Which files are read
// ---------------------------------------------------------------------------
/// The positions of the manifest entries deployed as `.ini` files.
pub open spec fn ini_positions(entries: Seq<DeploymentEntry>) -> Seq<int>
    decreases entries.len(),
{
    if entries.len() == 0 {
        Seq::empty()
    } else {
        let rest = ini_positions(entries.drop_last());
        if spec_has_ini_extension(entries.last().destination_relative@) {
            rest.push(entries.len() - 1)
        } else {
            rest
        }
    }
}

/// `prefix` of a warning about one file of a mod: the mod name, ` / `, the
/// file in storage form and a full-width colon.
pub open spec fn file_prefix(name: Seq<char>, source: Seq<char>) -> Seq<char> {
    name + " / "@ + storage_form(source) + "："@
}

/// The warning given when a mod has more INI files than are analyzed.
pub open spec fn too_many_ini_warning(name: Seq<char>, count: nat) -> Seq<char> {
    name + "：包含 "@ + decimal(count) + " 个 INI，超过每个模组 256 个的分析上限，仅分析前 256 个。"@
}

/// Why a file named by the manifest was not analyzed.
#[derive(Debug, Clone, Copy, PartialEq, Eq, Structural)]
pub enum SkippedFile {
    /// The deployed file can no longer be reached safely.
    Unreachable,
    /// The deployed entry is not a regular file.
    NotAFile,
    /// Its metadata could not be read.
    MetadataUnavailable,
    /// Its contents could not be read safely.
    Unreadable,
}

/// The text behind the file prefix for a skipped file.
pub open spec fn skipped_text(reason: SkippedFile, detail: Seq<char>) -> Seq<char> {
    match reason {
        SkippedFile::Unreachable => "部署文件不再安全可读，已跳过："@ + detail,
        SkippedFile::NotAFile => "部署条目不是普通文件，已跳过。"@,
        SkippedFile::MetadataUnavailable => "无法读取文件信息，已跳过："@ + detail,
        SkippedFile::Unreadable => "无法安全读取 INI，已跳过："@ + detail,
    }
}

/// What to do with a file whose size is known.
#[derive(Debug, Clone, Copy, PartialEq, Eq, Structural)]
pub enum Admission {
    /// Read it and hand its bytes to `add_document`.
    Read,
    /// Skip it; it is too large.
    Skip,
    /// Read nothing more: the total budget is spent.
    Stop,
}

// ---------------------------------------------------------------------------
// Facts read out of one document
// ---------------------------------------------------------------------------
pub open spec fn namespace_detail(ns: Seq<char>) -> Seq<char> {
    "显式 namespace = "@ + ns
}

/// The namespace table after a document that declares `ns` (or nothing).
pub open spec fn namespace_added(
    t: Seq<(Seq<char>, Seq<FactView>)>,
    ns: Option<Seq<char>>,
    subject: int,
    source: Seq<char>,
) -> Seq<(Seq<char>, Seq<FactView>)> {
    match ns {
        Some(n) => if spec_normalize_namespace(n).len() > 0 {
            table_add(
                t,
                spec_normalize_namespace(n),
                FactView { subject, source_path: source, section: None, detail: namespace_detail(n) },
            )
        } else {
            t
        },
        None => t,
    }
}

pub open spec fn hash_word() -> Seq<char> {
    seq!['h', 'a', 's', 'h']
}

/// The hashes that the `hash =` assignments of one override section match,
/// each with its fact.
pub open spec fn hash_facts(
    asg: Seq<(Seq<char>, Seq<char>)>,
    subject: int,
    source: Seq<char>,
    section: Seq<char>,
    details: Seq<char>,
) -> Seq<(Seq<char>, FactView)>
    decreases asg.len(),
{
    if asg.len() == 0 {
        Seq::empty()
    } else {
        let rest = hash_facts(asg.drop_last(), subject, source, section, details);
        let (k, v) = asg.last();
        if k == hash_word() && spec_normalize_hash(v) is Some {
            let h = spec_normalize_hash(v)->0;
            rest.push(
                (
                    h,
                    FactView {
                        subject,
                        source_path: source,
                        section: Some(section),
                        detail: "hash="@ + h + details,
                    },
                ),
            )
        } else {
            rest
        }
    }
}

/// The hash facts of the override sections of one kind, in document order.
pub open spec fn override_facts(
    sections: Seq<SpecSection>,
    table: Seq<(Seq<char>, Seq<Seq<char>>)>,
    subject: int,
    source: Seq<char>,
    kind: OverrideKind,
) -> Seq<(Seq<char>, FactView)>
    decreases sections.len(),
{
    if sections.len() == 0 {
        Seq::empty()
    } else {
        let rest = override_facts(sections.drop_last(), table, subject, source, kind);
        let s = sections.last();
        if spec_override_kind(s.name) == Some(kind) {
            rest + hash_facts(
                s.assignments,
                subject,
                source,
                s.name,
                spec_override_details(s.assignments, table),
            )
        } else {
            rest
        }
    }
}

/// The warnings a document adds: one when its text had to be repaired,
/// then each parse warning, all behind the file prefix.
pub open spec fn document_warnings(prefix: Seq<char>, lossy: bool, parsed: Seq<Seq<char>>) -> Seq<
    Seq<char>,
> {
    (if lossy {
        seq![prefix + "文本编码包含无效字符，ASCII 配置键仍已尽力分析。"@]
    } else {
        Seq::empty()
    }) + parsed.map_values(|w: Seq<char>| prefix + w)
}

// ---------------------------------------------------------------------------
// The analysis
// ---------------------------------------------------------------------------
/// An EFMI INI analysis in progress over the given subjects. The caller
/// walks the subjects in order: for each it asks `ini_entries` which files
/// to read (or reports with `skip_subject` that the deployment directory
/// could not be verified), asks `consider_size` about each file's size, reads the
/// accepted files and hands their bytes to `add_document`, and reports any
/// file it could not reach with `skip_file`. `finish` yields the output.
#[derive(Debug)]
pub struct EfmiIniAnalysis {
    pub subjects: Vec<ConflictAnalysisSubject>,
    pub namespaces: FactTable,
    pub texture_overrides: FactTable,
    pub shader_overrides: FactTable,
    pub warnings: Vec<String>,
    pub analyzed_ini_files: u64,
    pub total_ini_bytes: u64,
}

impl EfmiIniAnalysis {
    pub open spec fn wf(&self) -> bool {
        &&& self.namespaces.wf()
        &&& self.texture_overrides.wf()
        &&& self.shader_overrides.wf()
        &&& table_in_range(self.namespaces@, self.subjects@.len() as int)
        &&& table_in_range(self.texture_overrides@, self.subjects@.len() as int)
        &&& table_in_range(self.shader_overrides@, self.subjects@.len() as int)
        &&& self.total_ini_bytes <= MAX_TOTAL_INI_BYTES
    }

    /// The file prefix of entry `position` of subject `index`.
    pub open spec fn prefix_of(&self, index: int, position: int) -> Seq<char> {
        file_prefix(
            self.subjects@[index].mod_name@,
            self.subjects@[index].manifest.entries@[position].source_relative@,
        )
    }

    /// Starts an analysis with nothing found yet.
    pub fn new(subjects: Vec<ConflictAnalysisSubject>) -> (a: EfmiIniAnalysis)
        ensures
            a.wf(),
            a.subjects@ == subjects@,
            a.namespaces@.len() == 0,
            a.texture_overrides@.len() == 0,
            a.shader_overrides@.len() == 0,
            a.warnings@.len() == 0,
            a.analyzed_ini_files == 0,
            a.total_ini_bytes == 0,
    {
        EfmiIniAnalysis {
            subjects,
            namespaces: FactTable::new(),
            texture_overrides: FactTable::new(),
            shader_overrides: FactTable::new(),
            warnings: Vec::new(),
            analyzed_ini_files: 0,
            total_ini_bytes: 0,
        }
    }

    /// Records that the deployment directory of subject `index` could not
    /// be verified, with the reason given.
    pub fn skip_subject(&mut self, index: usize, reason: &str)
        requires
            old(self).wf(),
            index < old(self).subjects@.len(),
        ensures
            final(self).wf(),
            final(self).subjects@ == old(self).subjects@,
            final(self).namespaces@ == old(self).namespaces@,
            final(self).texture_overrides@ == old(self).texture_overrides@,
            final(self).shader_overrides@ == old(self).shader_overrides@,
            final(self).analyzed_ini_files == old(self).analyzed_ini_files,
            final(self).total_ini_bytes == old(self).total_ini_bytes,
            text_views(final(self).warnings@) == text_views(old(self).warnings@).push(
                old(self).subjects@[index as int].mod_name@ + "：无法验证部署目录，已跳过 EFMI INI 分析："@
                    + reason@,
            ),
    {
        let name = to_chars(self.subjects[index].mod_name.as_str());
        let a = concat_str(name.as_slice(), "：无法验证部署目录，已跳过 EFMI INI 分析：");
        let b = concat_str(a.as_slice(), reason);
        let ghost before = self.warnings@;
        self.warnings.push(from_chars(b.as_slice()));
        proof {
            assert(text_views(self.warnings@) =~= text_views(before).push(b@));
        }
    }

    /// The positions of the INI entries of subject `index` to analyze: the
    /// first `MAX_INI_FILES_PER_MOD` of them, with a warning when there are
    /// more.
    pub fn ini_entries(&mut self, index: usize) -> (r: Vec<usize>)
        requires
            old(self).wf(),
            index < old(self).subjects@.len(),
        ensures
            final(self).wf(),
            final(self).subjects@ == old(self).subjects@,
            final(self).namespaces@ == old(self).namespaces@,
            final(self).texture_overrides@ == old(self).texture_overrides@,
            final(self).shader_overrides@ == old(self).shader_overrides@,
            final(self).analyzed_ini_files == old(self).analyzed_ini_files,
            final(self).total_ini_bytes == old(self).total_ini_bytes,
            ({
                let all = ini_positions(old(self).subjects@[index as int].manifest.entries@);
                &&& r@.map_values(|p: usize| p as int) == all.take(
                    if all.len() > 256 {
                        256
                    } else {
                        all.len() as int
                    },
                )
                &&& text_views(final(self).warnings@) == text_views(old(self).warnings@) + (
                if all.len() > 256 {
                    seq![
                        too_many_ini_warning(
                            old(self).subjects@[index as int].mod_name@,
                            all.len(),
                        ),
                    ]
                } else {
                    Seq::empty()
                })
            }),
    {
        let ghost entries = self.subjects@[index as int].manifest.entries@;
        let mut all: Vec<usize> = Vec::new();
        let mut k: usize = 0;
        let n = self.subjects[index].manifest.entries.len();
        proof {
            assert(entries.take(0) =~= Seq::<DeploymentEntry>::empty());
            assert(all@.map_values(|p: usize| p as int) =~= Seq::<int>::empty());
        }
        while k < n
            invariant
                k <= n,
                n == entries.len(),
                index < self.subjects@.len(),
                entries == self.subjects@[index as int].manifest.entries@,
                all@.map_values(|p: usize| p as int) == ini_positions(entries.take(k as int)),
            decreases n - k,
        {
            let d = to_chars(self.subjects[index].manifest.entries[k].destination_relative.as_str());
            proof {
                assert(entries.take(k + 1).drop_last() =~= entries.take(k as int));
                assert(entries.take(k + 1).last() == entries[k as int]);
            }
            if has_ini_extension(d.as_slice()) {
                let ghost before = all@;
                all.push(k);
                proof {
                    assert(all@.map_values(|p: usize| p as int) =~= before.map_values(
                        |p: usize| p as int,
                    ).push(k as int));
                }
            }
            k = k + 1;
        }
        proof {
            assert(entries.take(n as int) =~= entries);
        }
        let count = all.len();
        if count > MAX_INI_FILES_PER_MOD {
            let name = to_chars(self.subjects[index].mod_name.as_str());
            let a = concat_str(name.as_slice(), "：包含 ");
            let digits = decimal_chars(count as u64);
            let b = concat(a.as_slice(), digits.as_slice());
            let c = concat_str(b.as_slice(), " 个 INI，超过每个模组 256 个的分析上限，仅分析前 256 个。");
            let ghost before = self.warnings@;
            self.warnings.push(from_chars(c.as_slice()));
            proof {
                assert(text_views(self.warnings@) =~= text_views(before).push(c@));
                assert(text_views(before) + seq![c@] =~= text_views(before).push(c@));
            }
            all.truncate(MAX_INI_FILES_PER_MOD);
            proof {
                assert(all@.map_values(|p: usize| p as int) =~= ini_positions(entries).take(256));
            }
        } else {
            proof {
                let ws = text_views(self.warnings@);
                assert(ws + Seq::<Seq<char>>::empty() =~= ws);
                let ip = ini_positions(entries);
                assert(ip.take(ip.len() as int) =~= ip);
            }
        }
        all
    }

    /// Records that entry `position` of subject `index` was not analyzed.
    pub fn skip_file(&mut self, index: usize, position: usize, reason: SkippedFile, detail: &str)
        requires
            old(self).wf(),
            index < old(self).subjects@.len(),
            position < old(self).subjects@[index as int].manifest.entries@.len(),
        ensures
            final(self).wf(),
            final(self).subjects@ == old(self).subjects@,
            final(self).namespaces@ == old(self).namespaces@,
            final(self).texture_overrides@ == old(self).texture_overrides@,
            final(self).shader_overrides@ == old(self).shader_overrides@,
            final(self).analyzed_ini_files == old(self).analyzed_ini_files,
            final(self).total_ini_bytes == old(self).total_ini_bytes,
            text_views(final(self).warnings@) == text_views(old(self).warnings@).push(
                old(self).prefix_of(index as int, position as int) + skipped_text(reason, detail@),
            ),
    {
        let prefix = self.file_prefix_chars(index, position);
        let text = match reason {
            SkippedFile::Unreachable => concat_str(
                to_chars("部署文件不再安全可读，已跳过：").as_slice(),
                detail,
            ),
            SkippedFile::NotAFile => to_chars("部署条目不是普通文件，已跳过。"),
            SkippedFile::MetadataUnavailable => concat_str(
                to_chars("无法读取文件信息，已跳过：").as_slice(),
                detail,
            ),
            SkippedFile::Unreadable => concat_str(to_chars("无法安全读取 INI，已跳过：").as_slice(), detail),
        };
        let line = concat(prefix.as_slice(), text.as_slice());
        let ghost before = self.warnings@;
        self.warnings.push(from_chars(line.as_slice()));
        proof {
            assert(text_views(self.warnings@) =~= text_views(before).push(line@));
        }
    }

    fn file_prefix_chars(&self, index: usize, position: usize) -> (r: Vec<char>)
        requires
            index < self.subjects@.len(),
            position < self.subjects@[index as int].manifest.entries@.len(),
        ensures
            r@ == self.prefix_of(index as int, position as int),
    {
        let subject = &self.subjects[index];
        let name = to_chars(subject.mod_name.as_str());
        let src = to_chars(subject.manifest.entries[position].source_relative.as_str());
        let stored = storage_chars(src.as_slice());
        let a = concat_str(name.as_slice(), " / ");
        let b = concat(a.as_slice(), stored.as_slice());
        concat_str(b.as_slice(), "：")
    }

    /// Decides about entry `position` of subject `index`, whose file holds
    /// `size` bytes: too large a file is skipped with a warning; a file that
    /// would take the total past its budget stops the analysis with a
    /// warning; any other file is counted against the budget and read.
    pub fn consider_size(&mut self, index: usize, position: usize, size: u64) -> (r: Result<Admission, AppError>)
        requires
            old(self).wf(),
            index < old(self).subjects@.len(),
            position < old(self).subjects@[index as int].manifest.entries@.len(),
        ensures
            final(self).wf(),
            final(self).subjects@ == old(self).subjects@,
            final(self).namespaces@ == old(self).namespaces@,
            final(self).texture_overrides@ == old(self).texture_overrides@,
            final(self).shader_overrides@ == old(self).shader_overrides@,
            final(self).analyzed_ini_files == old(self).analyzed_ini_files,
            r is Ok,
            size > MAX_INI_FILE_BYTES ==> r == Ok::<Admission, AppError>(Admission::Skip)
                && final(self).total_ini_bytes == old(self).total_ini_bytes && text_views(
                final(self).warnings@,
            ) == text_views(old(self).warnings@).push(
                old(self).prefix_of(index as int, position as int) + "INI 大小超过 4 MiB 分析上限，已跳过。"@,
            ),
            size <= MAX_INI_FILE_BYTES && old(self).total_ini_bytes + size > MAX_TOTAL_INI_BYTES
                ==> r == Ok::<Admission, AppError>(Admission::Stop) && final(self).total_ini_bytes
                == old(self).total_ini_bytes && text_views(final(self).warnings@) == text_views(
                old(self).warnings@,
            ).push("本次 EFMI INI 总量超过 64 MiB，剩余文件已跳过。"@),
            size <= MAX_INI_FILE_BYTES && old(self).total_ini_bytes + size <= MAX_TOTAL_INI_BYTES
                ==> r == Ok::<Admission, AppError>(Admission::Read) && final(self).total_ini_bytes
                == old(self).total_ini_bytes + size && text_views(final(self).warnings@)
                == text_views(old(self).warnings@),
    {
        if size > MAX_INI_FILE_BYTES {
            let prefix = self.file_prefix_chars(index, position);
            let line = concat_str(prefix.as_slice(), "INI 大小超过 4 MiB 分析上限，已跳过。");
            let ghost before = self.warnings@;
            self.warnings.push(from_chars(line.as_slice()));
            proof {
                assert(text_views(self.warnings@) =~= text_views(before).push(line@));
            }
            return Ok(Admission::Skip);
        }
        // Both terms are bounded, so the sum cannot overflow.
        let next_total = self.total_ini_bytes + size;
        if next_total > MAX_TOTAL_INI_BYTES {
            let line = to_chars("本次 EFMI INI 总量超过 64 MiB，剩余文件已跳过。");
            let ghost before = self.warnings@;
            self.warnings.push(from_chars(line.as_slice()));
            proof {
                assert(text_views(self.warnings@) =~= text_views(before).push(line@));
            }
            return Ok(Admission::Stop);
        }
        self.total_ini_bytes = next_total;
        Ok(Admission::Read)
    }

    /// Analyzes the bytes of entry `position` of subject `index`: decodes
    /// and parses them, records the parse warnings, the explicit namespace
    /// and the hashes of the texture and shader overrides, and counts the
    /// file. Fails only when the file count cannot grow.
    pub fn add_document(&mut self, index: usize, position: usize, bytes: &[u8]) -> (r: Result<(), AppError>)
        requires
            old(self).wf(),
            index < old(self).subjects@.len(),
            position < old(self).subjects@[index as int].manifest.entries@.len(),
        ensures
            final(self).wf(),
            final(self).subjects@ == old(self).subjects@,
            final(self).total_ini_bytes == old(self).total_ini_bytes,
            r is Err <==> old(self).analyzed_ini_files == u64::MAX,
            r matches Err(e) ==> e is Conflict && final(self).namespaces@ == old(self).namespaces@
                && final(self).texture_overrides@ == old(self).texture_overrides@
                && final(self).shader_overrides@ == old(self).shader_overrides@ && text_views(
                final(self).warnings@,
            ) == text_views(old(self).warnings@) && final(self).analyzed_ini_files == old(
                self,
            ).analyzed_ini_files,
            r is Ok ==> ({
                let (text, lossy) = spec_decode_ini(bytes@);
                let p = spec_parse_ini(text);
                let src = old(self).subjects@[index as int].manifest.entries@[position as int].source_relative@;
                let rt = resource_table(p.sections);
                &&& final(self).analyzed_ini_files == old(self).analyzed_ini_files + 1
                &&& text_views(final(self).warnings@) == text_views(old(self).warnings@)
                    + document_warnings(old(self).prefix_of(index as int, position as int), lossy, p.warnings)
                &&& final(self).namespaces@ == namespace_added(
                    old(self).namespaces@,
                    p.namespace,
                    index as int,
                    src,
                )
                &&& final(self).texture_overrides@ == table_add_all(
                    old(self).texture_overrides@,
                    override_facts(p.sections, rt, index as int, src, OverrideKind::Texture),
                )
                &&& final(self).shader_overrides@ == table_add_all(
                    old(self).shader_overrides@,
                    override_facts(p.sections, rt, index as int, src, OverrideKind::Shader),
                )
            }),
    {
        if self.analyzed_ini_files == u64::MAX {
            return Err(AppError::Conflict(msg("INI 文件计数超过支持范围。")));
        }
        let count = self.subjects.len();
        let prefix = self.file_prefix_chars(index, position);
        let src = to_chars(self.subjects[index].manifest.entries[position].source_relative.as_str());
        let ghost w0 = text_views(self.warnings@);
        let decoded = decode_ini(bytes);
        let text = decoded.0;
        let lossy = decoded.1;
        let ghost lossy_part: Seq<Seq<char>> = if lossy {
            seq![prefix@ + "文本编码包含无效字符，ASCII 配置键仍已尽力分析。"@]
        } else {
            Seq::empty()
        };
        if lossy {
            let line = concat_str(prefix.as_slice(), "文本编码包含无效字符，ASCII 配置键仍已尽力分析。");
            self.warnings.push(from_chars(line.as_slice()));
            proof {
                assert(text_views(self.warnings@) =~= w0 + lossy_part);
            }
        } else {
            proof {
                assert(text_views(self.warnings@) =~= w0 + lossy_part);
            }
        }
        let parsed = parse_ini(text.as_slice());
        let ghost p = parsed.spec();
        self.analyzed_ini_files = self.analyzed_ini_files + 1;
        let ghost pw = p.warnings;
        let mut j: usize = 0;
        while j < parsed.warnings.len()
            invariant
                j <= parsed.warnings@.len(),
                pw == parsed.spec().warnings,
                pw.len() == parsed.warnings@.len(),
                self.wf(),
                self.subjects@ == old(self).subjects@,
                self.namespaces@ == old(self).namespaces@,
                self.texture_overrides@ == old(self).texture_overrides@,
                self.shader_overrides@ == old(self).shader_overrides@,
                self.analyzed_ini_files == old(self).analyzed_ini_files + 1,
                self.total_ini_bytes == old(self).total_ini_bytes,
                text_views(self.warnings@) == w0 + lossy_part + pw.take(j as int).map_values(
                    |w: Seq<char>| prefix@ + w,
                ),
            decreases parsed.warnings@.len() - j,
        {
            let line = concat(prefix.as_slice(), parsed.warnings[j].as_slice());
            let ghost before = text_views(self.warnings@);
            self.warnings.push(from_chars(line.as_slice()));
            proof {
                assert(pw[j as int] == parsed.warnings@[j as int]@);
                assert(pw.take(j + 1).map_values(|w: Seq<char>| prefix@ + w) =~= pw.take(
                    j as int,
                ).map_values(|w: Seq<char>| prefix@ + w).push(line@));
                assert(text_views(self.warnings@) =~= before.push(line@));
            }
            j = j + 1;
        }
        proof {
            assert(pw.take(pw.len() as int) =~= pw);
            assert(w0 + lossy_part + pw.map_values(|w: Seq<char>| prefix@ + w) =~= w0
                + document_warnings(prefix@, lossy, pw));
        }
        let ghost ns0 = self.namespaces@;
        match &parsed.namespace {
            Some(ns) => {
                let normalized = normalize_namespace(ns.as_slice());
                if normalized.len() > 0 {
                    let detail = concat(to_chars("显式 namespace = ").as_slice(), ns.as_slice());
                    let fact = Fact {
                        subject_index: index,
                        source_path: slice_to_vec(src.as_slice()),
                        section: None,
                        detail,
                    };
                    let ghost f = fact@;
                    self.namespaces.add(normalized, fact);
                    proof {
                        lemma_table_add_in_range(ns0, spec_normalize_namespace(ns@), f, count as int);
                    }
                }
            },
            None => {},
        }
        let table = local_resource_files(&parsed.sections);
        let ghost ns1 = self.namespaces@;
        let ghost w1 = text_views(self.warnings@);
        let ghost ss = parsed.spec().sections;
        let ghost rt = table.spec();
        let ghost t0 = self.texture_overrides@;
        let ghost s0 = self.shader_overrides@;
        let mut k: usize = 0;
        proof {
            assert(ss.take(0) =~= Seq::<SpecSection>::empty());
        }
        while k < parsed.sections.len()
            invariant
                k <= parsed.sections@.len(),
                ss == parsed.spec().sections,
                ss.len() == parsed.sections@.len(),
                rt == resource_table(ss),
                rt == table.spec(),
                count == self.subjects@.len(),
                index < count,
                self.subjects@ == old(self).subjects@,
                self.namespaces.wf(),
                table_in_range(self.namespaces@, count as int),
                self.namespaces@ == ns1,
                text_views(self.warnings@) == w1,
                self.analyzed_ini_files == old(self).analyzed_ini_files + 1,
                self.total_ini_bytes == old(self).total_ini_bytes,
                self.total_ini_bytes <= MAX_TOTAL_INI_BYTES,
                self.texture_overrides.wf(),
                self.shader_overrides.wf(),
                table_in_range(self.texture_overrides@, count as int),
                table_in_range(self.shader_overrides@, count as int),
                self.texture_overrides@ == table_add_all(
                    t0,
                    override_facts(ss.take(k as int), rt, index as int, src@, OverrideKind::Texture),
                ),
                self.shader_overrides@ == table_add_all(
                    s0,
                    override_facts(ss.take(k as int), rt, index as int, src@, OverrideKind::Shader),
                ),
            decreases parsed.sections@.len() - k,
        {
            let section = &parsed.sections[k];
            proof {
                assert(ss[k as int] == section.spec());
                assert(ss.take(k + 1).drop_last() =~= ss.take(k as int));
                assert(ss.take(k + 1).last() == ss[k as int]);
            }
            let kind = override_kind(section.name.as_slice());
            match kind {
                Some(OverrideKind::Texture) => {
                    let details = override_details(section, &table);
                    let ghost before = override_facts(
                        ss.take(k as int),
                        rt,
                        index as int,
                        src@,
                        OverrideKind::Texture,
                    );
                    add_hash_facts(&mut self.texture_overrides, section, index, &src, &details, count);
                    proof {
                        lemma_table_add_all_concat(
                            t0,
                            before,
                            hash_facts(
                                section.spec().assignments,
                                index as int,
                                src@,
                                section.name@,
                                details@,
                            ),
                        );
                    }
                },
                Some(OverrideKind::Shader) => {
                    let details = override_details(section, &table);
                    let ghost before = override_facts(
                        ss.take(k as int),
                        rt,
                        index as int,
                        src@,
                        OverrideKind::Shader,
                    );
                    add_hash_facts(&mut self.shader_overrides, section, index, &src, &details, count);
                    proof {
                        lemma_table_add_all_concat(
                            s0,
                            before,
                            hash_facts(
                                section.spec().assignments,
                                index as int,
                                src@,
                                section.name@,
                                details@,
                            ),
                        );
                    }
                },
                None => {},
            }
            k = k + 1;
        }
        proof {
            assert(ss.take(ss.len() as int) =~= ss);
        }
        Ok(())
    }

    /// The analysis output: the namespace conflicts (errors), then the
    /// texture and the shader override conflicts (warnings), each in key
    /// order; the number of files analyzed and the warnings gathered.
    pub fn finish(self) -> (r: AnalyzerOutput)
        requires
            self.wf(),
        ensures
            conflict_views(r.conflicts@) == fact_conflicts(
                self.subjects@,
                "efmi.ini.v1"@,
                ConflictKind::EfmiNamespace,
                ConflictSeverity::Error,
                "namespace"@,
                "多个已启用模组声明了同一显式 EFMI/3DMigoto namespace。"@,
                self.namespaces@,
            ) + fact_conflicts(
                self.subjects@,
                "efmi.ini.v1"@,
                ConflictKind::EfmiTextureOverride,
                ConflictSeverity::Warning,
                "texture-hash"@,
                "多个已启用模组可能匹配同一 TextureOverride 资源 Hash。"@,
                self.texture_overrides@,
            ) + fact_conflicts(
                self.subjects@,
                "efmi.ini.v1"@,
                ConflictKind::EfmiShaderOverride,
                ConflictSeverity::Warning,
                "shader-hash"@,
                "多个已启用模组可能匹配同一 ShaderOverride Hash。"@,
                self.shader_overrides@,
            ),
            r.analyzed_ini_files == self.analyzed_ini_files,
            text_views(r.warnings@) == text_views(self.warnings@),
    {
        let mut conflicts: Vec<Conflict> = Vec::new();
        proof {
            assert(conflict_views(conflicts@) =~= Seq::<ConflictView>::empty());
        }
        append_fact_conflicts(
            &self.subjects,
            &self.namespaces,
            EFMI_INI_ANALYZER_ID,
            ConflictKind::EfmiNamespace,
            ConflictSeverity::Error,
            "namespace",
            "多个已启用模组声明了同一显式 EFMI/3DMigoto namespace。",
            &mut conflicts,
        );
        append_fact_conflicts(
            &self.subjects,
            &self.texture_overrides,
            EFMI_INI_ANALYZER_ID,
            ConflictKind::EfmiTextureOverride,
            ConflictSeverity::Warning,
            "texture-hash",
            "多个已启用模组可能匹配同一 TextureOverride 资源 Hash。",
            &mut conflicts,
        );
        append_fact_conflicts(
            &self.subjects,
            &self.shader_overrides,
            EFMI_INI_ANALYZER_ID,
            ConflictKind::EfmiShaderOverride,
            ConflictSeverity::Warning,
            "shader-hash",
            "多个已启用模组可能匹配同一 ShaderOverride Hash。",
            &mut conflicts,
        );
        proof {
            let e = Seq::<ConflictView>::empty();
            assert(e + fact_conflicts(
                self.subjects@,
                "efmi.ini.v1"@,
                ConflictKind::EfmiNamespace,
                ConflictSeverity::Error,
                "namespace"@,
                "多个已启用模组声明了同一显式 EFMI/3DMigoto namespace。"@,
                self.namespaces@,
            ) =~= fact_conflicts(
                self.subjects@,
                "efmi.ini.v1"@,
                ConflictKind::EfmiNamespace,
                ConflictSeverity::Error,
                "namespace"@,
                "多个已启用模组声明了同一显式 EFMI/3DMigoto namespace。"@,
                self.namespaces@,
            ));
        }
        AnalyzerOutput {
            conflicts,
            analyzed_ini_files: self.analyzed_ini_files,
            warnings: self.warnings,
        }
    }
}

/// Records the hash facts of one override section in `table`.
fn add_hash_facts(
    table: &mut FactTable,
    section: &crate::ini_parse::IniSection,
    subject: usize,
    source: &Vec<char>,
    details: &Vec<char>,
    count: usize,
)
    requires
        old(table).wf(),
        table_in_range(old(table)@, count as int),
        subject < count,
    ensures
        final(table).wf(),
        table_in_range(final(table)@, count as int),
        final(table)@ == table_add_all(
            old(table)@,
            hash_facts(section.spec().assignments, subject as int, source@, section.name@, details@),
        ),
{
    let ghost asg = section.spec().assignments;
    let ghost t0 = table@;
    let hash = to_chars("hash");
    proof {
        reveal_strlit("hash");
        assert(hash@ =~= hash_word());
        assert(asg.take(0) =~= Seq::<(Seq<char>, Seq<char>)>::empty());
    }
    let mut j: usize = 0;
    while j < section.assignments.len()
        invariant
            j <= section.assignments@.len(),
            asg == section.spec().assignments,
            asg.len() == section.assignments@.len(),
            hash@ == hash_word(),
            subject < count,
            table.wf(),
            table_in_range(table@, count as int),
            table@ == table_add_all(
                t0,
                hash_facts(asg.take(j as int), subject as int, source@, section.name@, details@),
            ),
        decreases section.assignments@.len() - j,
    {
        let pair = &section.assignments[j];
        proof {
            assert(asg[j as int] == (pair.0@, pair.1@));
            assert(asg.take(j + 1).drop_last() =~= asg.take(j as int));
            assert(asg.take(j + 1).last() == asg[j as int]);
        }
        if chars_eq(pair.0.as_slice(), hash.as_slice()) {
            match normalize_hash(pair.1.as_slice()) {
                Some(h) => {
                    let a = concat(to_chars("hash=").as_slice(), h.as_slice());
                    let detail = concat(a.as_slice(), details.as_slice());
                    let fact = Fact {
                        subject_index: subject,
                        source_path: slice_to_vec(source.as_slice()),
                        section: Some(slice_to_vec(section.name.as_slice())),
                        detail,
                    };
                    let ghost f = fact@;
                    let ghost before = table@;
                    let ghost prev = hash_facts(
                        asg.take(j as int),
                        subject as int,
                        source@,
                        section.name@,
                        details@,
                    );
                    table.add(h, fact);
                    proof {
                        lemma_table_add_in_range(before, h@, f, count as int);
                        let next = hash_facts(
                            asg.take(j + 1),
                            subject as int,
                            source@,
                            section.name@,
                            details@,
                        );
                        assert(next == prev.push((h@, f)));
                        assert(next.drop_last() =~= prev);
                    }
                },
                None => {},
            }
        }
        j = j + 1;
    }
    proof {
        assert(asg.take(asg.len() as int) =~= asg);
    }
}


/// The folder of an enabled direct-folder mod, as the INI analysis reads
/// it: a directory directly in the `Mods` root whose name carries no
/// `DISABLED` prefix.
pub fn check_enabled_mod_folder(is_directory: bool, parent_is_mods_root: bool, name: &str) -> (r: Result<
    (),
    AppError,
>)
    ensures
        r is Ok <==> is_directory && parent_is_mods_root && !crate::names::disabled_name(name@),
        r matches Err(e) ==> e is UnsafePath,
{
    if !is_directory || !parent_is_mods_root || crate::names::is_disabled_name(name) {
        return Err(AppError::UnsafePath(msg("启用模组不是 EFMI Mods 中的安全直属目录。")));
    }
    Ok(())
}

/// The folder of a copied deployment: its destination directory, which must
/// be a safe relative path, joined below the deployment root.
pub fn copied_deployment_root(destination_root: &str, destination_directory: &str) -> (r: Result<String, AppError>)
    ensures
        r is Ok <==> crate::path_safety::valid_relative(destination_directory@),
        r matches Ok(p) ==> p@ == crate::path_safety::join_path(destination_root@, destination_directory@),
        r matches Err(e) ==> e is UnsafePath,
{
    crate::path_safety::validate_relative_path(destination_directory)?;
    let root = to_chars(destination_root);
    let dir = to_chars(destination_directory);
    Ok(from_chars(crate::path_safety::join_chars(root.as_slice(), dir.as_slice()).as_slice()))
}

} // verus!
