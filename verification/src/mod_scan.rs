//! The scan of one mod folder as its entries are met: which entries are
//! skipped and why, which files are counted, which cached hashes are
//! reused, and the files in their final order with the folder's
//! fingerprint.
use vstd::prelude::*;
use crate::conflicts::{opt_text, text_views};
use crate::error::AppError;
use crate::ids::{blake3_hex, ContentHasher};
use crate::metadata::ModFile;
use crate::order::{compare_chars, lex_lt};
use crate::path_safety::{storage_path, storage_form, validate_relative_path, valid_relative};
use crate::scanner::{
    classify_file_role, fingerprint_files, fingerprint_input, spec_file_role, CachedModFile, ScanIssue,
    ScanIssueLevel, SeenPaths,
};
use crate::text::{concat_str, copy_str, from_chars, to_chars, to_lowercase, unicode_lower};

verus! {

/// An issue as plain values.
pub open spec fn issue_view(i: ScanIssue) -> (ScanIssueLevel, Option<Seq<char>>, Seq<char>) {
    (i.level, opt_text(i.repository_path), i.message@)
}

pub open spec fn issue_views(s: Seq<ScanIssue>) -> Seq<(ScanIssueLevel, Option<Seq<char>>, Seq<char>)> {
    s.map_values(|i: ScanIssue| issue_view(i))
}

/// A file as plain values.
pub open spec fn file_view(f: ModFile) -> (Seq<char>, u64, Option<Seq<char>>, Seq<char>, i64) {
    (f.source_path@, f.size_bytes, opt_text(f.content_hash), f.file_role@, f.modified_at)
}

pub open spec fn file_views(s: Seq<ModFile>) -> Seq<(Seq<char>, u64, Option<Seq<char>>, Seq<char>, i64)> {
    s.map_values(|f: ModFile| file_view(f))
}

/// The scan of one mod folder in progress.
pub struct ModScanProgress {
    pub repository_key: String,
    pub files: Vec<ModFile>,
    pub issues: Vec<ScanIssue>,
    pub seen: SeenPaths,
    pub size_bytes: u64,
    pub skipped_entries: u64,
    pub hashed_files: u64,
    pub reused_hashes: u64,
}

/// What a scan of one mod folder yields.
pub struct ModScanOutcome {
    pub files: Vec<ModFile>,
    pub issues: Vec<ScanIssue>,
    pub size_bytes: u64,
    pub content_fingerprint: String,
    /// The folder's name carries no `DISABLED` prefix, so EFMI loads it.
    pub enabled_in_efmi: bool,
    pub skipped_entries: u64,
    pub hashed_files: u64,
    pub reused_hashes: u64,
}

pub type FileView = (Seq<char>, u64, Option<Seq<char>>, Seq<char>, i64);

/// The key files are ordered by: their lower-cased storage path.
pub open spec fn view_key(v: FileView) -> Seq<char> {
    unicode_lower(v.0)
}

/// The total size of the files.
pub open spec fn files_size(s: Seq<FileView>) -> int
    decreases s.len(),
{
    if s.len() == 0 {
        0
    } else {
        files_size(s.drop_last()) + s.last().1
    }
}

/// Inserts `x` after every file whose key does not sort after its own.
pub open spec fn insert_view(s: Seq<FileView>, x: FileView) -> Seq<FileView>
    decreases s.len(),
{
    if s.len() == 0 {
        seq![x]
    } else if lex_lt(view_key(x), view_key(s.last())) {
        insert_view(s.drop_last(), x).push(s.last())
    } else {
        s.push(x)
    }
}

/// The files ordered by key, equal keys kept in their original order.
pub open spec fn sort_views(s: Seq<FileView>) -> Seq<FileView>
    decreases s.len(),
{
    if s.len() == 0 {
        s
    } else {
        insert_view(sort_views(s.drop_last()), s.last())
    }
}

proof fn lemma_insert_size(s: Seq<FileView>, x: FileView)
    ensures
        files_size(insert_view(s, x)) == files_size(s) + x.1,
    decreases s.len(),
{
    if s.len() > 0 {
        if lex_lt(view_key(x), view_key(s.last())) {
            lemma_insert_size(s.drop_last(), x);
            let t = insert_view(s.drop_last(), x);
            assert(insert_view(s, x) == t.push(s.last()));
            assert(t.push(s.last()).drop_last() =~= t);
            assert(files_size(t.push(s.last())) == files_size(t) + s.last().1);
        } else {
            assert(insert_view(s, x) == s.push(x));
            assert(s.push(x).drop_last() =~= s);
            assert(s.push(x).last() == x);
        }
    } else {
        assert(insert_view(s, x) == seq![x]);
        assert(seq![x].drop_last() =~= Seq::<FileView>::empty());
        assert(seq![x].last() == x);
        assert(files_size(seq![x]) == files_size(Seq::<FileView>::empty()) + x.1);
    }
}

/// Ordering the files keeps their total size.
pub proof fn lemma_sort_size(s: Seq<FileView>)
    ensures
        files_size(sort_views(s)) == files_size(s),
    decreases s.len(),
{
    if s.len() > 0 {
        lemma_sort_size(s.drop_last());
        lemma_insert_size(sort_views(s.drop_last()), s.last());
    }
}

/// No file is listed after one whose key sorts after its own.
pub open spec fn keys_ordered(s: Seq<FileView>) -> bool {
    forall|i: int, j: int| 0 <= i < j < s.len() ==> !lex_lt(view_key(#[trigger] s[j]), view_key(#[trigger] s[i]))
}

proof fn lemma_insert_ordered(s: Seq<FileView>, x: FileView)
    requires
        keys_ordered(s),
    ensures
        keys_ordered(insert_view(s, x)),
        insert_view(s, x).len() == s.len() + 1,
        forall|i: int| 0 <= i < insert_view(s, x).len() ==> #[trigger] insert_view(s, x)[i] == x || s.contains(
            insert_view(s, x)[i],
        ),
    decreases s.len(),
{
    crate::order::lemma_lex_order();
    let r = insert_view(s, x);
    if s.len() == 0 {
        assert(r == seq![x]);
    } else if lex_lt(view_key(x), view_key(s.last())) {
        let t = s.drop_last();
        assert forall|i: int, j: int| 0 <= i < j < t.len() implies !lex_lt(
            view_key(#[trigger] t[j]),
            view_key(#[trigger] t[i]),
        ) by {
            assert(t[i] == s[i] && t[j] == s[j]);
        }
        lemma_insert_ordered(t, x);
        let u = insert_view(t, x);
        assert(r == u.push(s.last()));
        assert forall|i: int| 0 <= i < u.len() implies !lex_lt(view_key(s.last()), view_key(#[trigger] u[i])) by {
            if u[i] != x {
                assert(t.contains(u[i]));
                let k = choose|k: int| 0 <= k < t.len() && t[k] == u[i];
                assert(t[k] == s[k]);
                assert(!lex_lt(view_key(s[s.len() - 1]), view_key(s[k])));
            }
        }
        assert forall|i: int, j: int| 0 <= i < j < r.len() implies !lex_lt(
            view_key(#[trigger] r[j]),
            view_key(#[trigger] r[i]),
        ) by {
            if j == r.len() - 1 {
                assert(r[j] == s.last());
                assert(r[i] == u[i]);
            } else {
                assert(r[i] == u[i] && r[j] == u[j]);
            }
        }
        assert forall|i: int| 0 <= i < r.len() implies #[trigger] r[i] == x || s.contains(r[i]) by {
            if i == r.len() - 1 {
                assert(s[s.len() - 1] == r[i]);
            } else {
                assert(r[i] == u[i]);
                if u[i] != x {
                    let k = choose|k: int| 0 <= k < t.len() && t[k] == u[i];
                    assert(s[k] == r[i]);
                }
            }
        }
    } else {
        assert(r == s.push(x));
        assert forall|i: int, j: int| 0 <= i < j < r.len() implies !lex_lt(
            view_key(#[trigger] r[j]),
            view_key(#[trigger] r[i]),
        ) by {
            if j == r.len() - 1 {
                assert(r[i] == s[i]);
                if i < s.len() - 1 {
                    assert(!lex_lt(view_key(s[s.len() - 1]), view_key(s[i])));
                }
            } else {
                assert(r[i] == s[i] && r[j] == s[j]);
            }
        }
        assert forall|i: int| 0 <= i < r.len() implies #[trigger] r[i] == x || s.contains(r[i]) by {
            if i < s.len() {
                assert(s[i] == r[i]);
            }
        }
    }
}

/// Ordering the files lists them by key.
pub proof fn lemma_sort_ordered(s: Seq<FileView>)
    ensures
        keys_ordered(sort_views(s)),
        sort_views(s).len() == s.len(),
    decreases s.len(),
{
    if s.len() > 0 {
        lemma_sort_ordered(s.drop_last());
        lemma_insert_ordered(sort_views(s.drop_last()), s.last());
    }
}

/// `fingerprint_input` read from plain values.
pub open spec fn view_fingerprint_input(files: Seq<FileView>) -> Seq<u8>
    decreases files.len(),
{
    if files.len() == 0 {
        Seq::empty()
    } else {
        let f = files.last();
        view_fingerprint_input(files.drop_last()) + vstd::utf8::encode_utf8(storage_form(f.0)) + seq![0u8]
            + crate::scanner::le_bytes(f.1 as nat, 8) + seq![0u8] + (match f.2 {
            Some(h) => vstd::utf8::encode_utf8(h),
            None => vstd::utf8::encode_utf8("unreadable"@),
        }) + seq![0xffu8]
    }
}

proof fn lemma_fingerprint_views(files: Seq<ModFile>)
    ensures
        fingerprint_input(files) == view_fingerprint_input(file_views(files)),
    decreases files.len(),
{
    if files.len() > 0 {
        lemma_fingerprint_views(files.drop_last());
        assert(file_views(files).drop_last() =~= file_views(files.drop_last()));
        assert(file_views(files).last() == file_view(files.last()));
    }
}

/// A copy of a scanned file, which a scan never gives a deployment target.
fn copy_file(f: &ModFile) -> (g: ModFile)
    ensures
        file_view(g) == file_view(*f),
        g.deployment_target is None,
{
    ModFile {
        source_path: copy_str(f.source_path.as_str()),
        deployment_target: None,
        size_bytes: f.size_bytes,
        content_hash: match &f.content_hash {
            Some(h) => Some(copy_str(h.as_str())),
            None => None,
        },
        file_role: copy_str(f.file_role.as_str()),
        modified_at: f.modified_at,
    }
}

/// Inserts `x` into `v` as `insert_view` does.
fn insert_sorted_file(v: &mut Vec<ModFile>, x: ModFile)
    ensures
        file_views(final(v)@) == insert_view(file_views(old(v)@), file_view(x)),
        (forall|i: int| 0 <= i < old(v)@.len() ==> (#[trigger] old(v)@[i]).deployment_target is None)
            && x.deployment_target is None ==> forall|i: int|
            0 <= i < final(v)@.len() ==> (#[trigger] final(v)@[i]).deployment_target is None,
{
    let ghost s0 = file_views(v@);
    let ghost xv = file_view(x);
    let xk = to_chars(to_lowercase(x.source_path.as_str()).as_str());
    let mut pos = v.len();
    let mut done = false;
    proof {
        assert(s0.take(pos as int) =~= s0);
        assert(s0.skip(pos as int) =~= Seq::<FileView>::empty());
        assert(insert_view(s0, xv) =~= insert_view(s0.take(pos as int), xv) + s0.skip(pos as int));
    }
    while pos > 0 && !done
        invariant
            pos <= v@.len(),
            s0 == file_views(v@),
            s0.len() == v@.len(),
            xv == file_view(x),
            xk@ == view_key(xv),
            insert_view(s0, xv) == insert_view(s0.take(pos as int), xv) + s0.skip(pos as int),
            done ==> insert_view(s0.take(pos as int), xv) == s0.take(pos as int).push(xv),
        decreases pos + (if done { 0int } else { 1int }),
    {
        let k = to_chars(to_lowercase(v[pos - 1].source_path.as_str()).as_str());
        proof {
            assert(s0[pos - 1] == file_view(v@[pos - 1]));
        }
        if compare_chars(xk.as_slice(), k.as_slice()) < 0 {
            proof {
                let t = s0.take(pos as int);
                assert(t.last() == s0[pos - 1]);
                assert(t.drop_last() =~= s0.take(pos - 1));
                assert(insert_view(t, xv) == insert_view(s0.take(pos - 1), xv).push(s0[pos - 1]));
                assert(insert_view(s0.take(pos - 1), xv).push(s0[pos - 1]) + s0.skip(pos as int)
                    =~= insert_view(s0.take(pos - 1), xv) + s0.skip(pos - 1));
            }
            pos = pos - 1;
        } else {
            proof {
                let t = s0.take(pos as int);
                assert(t.last() == s0[pos - 1]);
                assert(insert_view(t, xv) == t.push(xv));
            }
            done = true;
        }
    }
    proof {
        let t = s0.take(pos as int);
        if !done {
            assert(t.len() == 0);
            assert(insert_view(t, xv) == seq![xv]);
            assert(insert_view(t, xv) =~= t.push(xv));
        }
    }
    let ghost before = v@;
    v.insert(pos, x);
    proof {
        assert(v@ =~= before.take(pos as int).push(x) + before.skip(pos as int));
        assert(file_views(v@) =~= s0.take(pos as int).push(xv) + s0.skip(pos as int));
        assert forall|i: int| 0 <= i < v@.len() implies v@[i] == x || v@[i] == before[if i < pos {
            i
        } else {
            i - 1
        }] by {
            if i < pos {
                assert(v@[i] == before[i]);
            } else if i > pos {
                assert(v@[i] == before[i - 1]);
            }
        }
    }
}

fn issue(level: ScanIssueLevel, key: &str, message: String) -> (i: ScanIssue)
    ensures
        issue_view(i) == (level, Some(key@), message@),
{
    ScanIssue { level, repository_path: Some(copy_str(key)), message }
}

fn text2(a: &str, b: &str, c: &str) -> (r: String)
    ensures
        r@ == a@ + b@ + c@,
{
    let v = concat_str(concat_str(to_chars(a).as_slice(), b).as_slice(), c);
    from_chars(v.as_slice())
}

impl ModScanProgress {
    /// The folder's total is the sum of the sizes of the files recorded.
    pub open spec fn sizes_consistent(&self) -> bool {
        self.size_bytes == files_size(file_views(self.files@))
    }

    pub fn new(repository_key: String) -> (s: Self)
        ensures
            s.repository_key == repository_key,
            s.files@.len() == 0,
            s.issues@.len() == 0,
            s.seen.keys@.len() == 0,
            s.size_bytes == 0,
            s.sizes_consistent(),
            s.skipped_entries == 0,
            s.hashed_files == 0,
            s.reused_hashes == 0,
    {
        ModScanProgress {
            repository_key,
            files: Vec::new(),
            issues: Vec::new(),
            seen: SeenPaths::new(),
            size_bytes: 0,
            skipped_entries: 0,
            hashed_files: 0,
            reused_hashes: 0,
        }
    }

    /// An entry could not be walked: an error is noted and the scan goes on.
    pub fn walk_error(&mut self, detail: &str)
        ensures
            issue_views(final(self).issues@) == issue_views(old(self).issues@).push(
                (ScanIssueLevel::Error, Some(old(self).repository_key@), "无法遍历模组文件："@ + detail@),
            ),
            final(self).files@ == old(self).files@,
            final(self).repository_key == old(self).repository_key,
            final(self).seen == old(self).seen,
            final(self).size_bytes == old(self).size_bytes,
            final(self).skipped_entries == old(self).skipped_entries,
            final(self).hashed_files == old(self).hashed_files,
            final(self).reused_hashes == old(self).reused_hashes,
    {
        let m = from_chars(concat_str(to_chars("无法遍历模组文件：").as_slice(), detail).as_slice());
        let i = issue(ScanIssueLevel::Error, self.repository_key.as_str(), m);
        let ghost before = self.issues@;
        self.issues.push(i);
        proof {
            assert(issue_views(self.issues@) =~= issue_views(before).push(issue_view(i)));
        }
    }

    /// An entry that is neither a folder nor a regular file: skipped with an
    /// error.
    pub fn non_file(&mut self, display_path: &str)
        requires
            old(self).skipped_entries < u64::MAX,
        ensures
            final(self).skipped_entries == old(self).skipped_entries + 1,
            issue_views(final(self).issues@) == issue_views(old(self).issues@).push(
                (ScanIssueLevel::Error, Some(old(self).repository_key@), "跳过非普通文件 "@ + display_path@ + "。"@),
            ),
            final(self).files@ == old(self).files@,
            final(self).repository_key == old(self).repository_key,
            final(self).seen == old(self).seen,
            final(self).size_bytes == old(self).size_bytes,
            final(self).hashed_files == old(self).hashed_files,
            final(self).reused_hashes == old(self).reused_hashes,
    {
        self.skipped_entries = self.skipped_entries + 1;
        let m = text2("跳过非普通文件 ", display_path, "。");
        let i = issue(ScanIssueLevel::Error, self.repository_key.as_str(), m);
        let ghost before = self.issues@;
        self.issues.push(i);
        proof {
            assert(issue_views(self.issues@) =~= issue_views(before).push(issue_view(i)));
        }
    }

    /// A link or reparse point that the walk did not enter: skipped with an
    /// error.
    pub fn skipped_link(&mut self, relative_display: &str)
        requires
            old(self).skipped_entries < u64::MAX,
        ensures
            final(self).skipped_entries == old(self).skipped_entries + 1,
            issue_views(final(self).issues@) == issue_views(old(self).issues@).push(
                (ScanIssueLevel::Error, Some(old(self).repository_key@), "链接或重解析点 "@ + relative_display@ + " 已跳过。"@),
            ),
            final(self).files@ == old(self).files@,
            final(self).repository_key == old(self).repository_key,
            final(self).seen == old(self).seen,
            final(self).size_bytes == old(self).size_bytes,
            final(self).hashed_files == old(self).hashed_files,
            final(self).reused_hashes == old(self).reused_hashes,
    {
        self.skipped_entries = self.skipped_entries + 1;
        let m = text2("链接或重解析点 ", relative_display, " 已跳过。");
        let i = issue(ScanIssueLevel::Error, self.repository_key.as_str(), m);
        let ghost before = self.issues@;
        self.issues.push(i);
        proof {
            assert(issue_views(self.issues@) =~= issue_views(before).push(issue_view(i)));
        }
    }

    /// A regular file at `relative`: its path must be safe (else the scan
    /// fails); a path met before regardless of case is skipped with an
    /// error. Returns the storage path of a file to count.
    pub fn admit_path(&mut self, relative: &str) -> (r: Result<Option<String>, AppError>)
        requires
            old(self).skipped_entries < u64::MAX,
        ensures
            final(self).repository_key == old(self).repository_key,
            final(self).files@ == old(self).files@,
            final(self).size_bytes == old(self).size_bytes,
            final(self).hashed_files == old(self).hashed_files,
            final(self).reused_hashes == old(self).reused_hashes,
            r is Err <==> !valid_relative(relative@),
            r matches Err(e) ==> e is UnsafePath,
            r matches Ok(Some(p)) ==> p@ == storage_form(relative@) && !crate::order::views(old(self).seen.keys@).contains(
                unicode_lower(storage_form(relative@)),
            ) && crate::order::views(final(self).seen.keys@) == crate::order::views(old(self).seen.keys@).push(
                unicode_lower(storage_form(relative@)),
            ) && final(self).issues@ == old(self).issues@ && final(self).skipped_entries == old(self).skipped_entries,
            r matches Ok(None) ==> crate::order::views(old(self).seen.keys@).contains(unicode_lower(storage_form(relative@)))
                && final(self).seen.keys@ == old(self).seen.keys@ && final(self).skipped_entries == old(
                self,
            ).skipped_entries + 1 && issue_views(final(self).issues@) == issue_views(old(self).issues@).push(
                (
                    ScanIssueLevel::Error,
                    Some(old(self).repository_key@),
                    "检测到大小写不敏感的重复路径 "@ + storage_form(relative@) + "。"@,
                ),
            ),
    {
        validate_relative_path(relative)?;
        let storage = storage_path(relative);
        if !self.seen.insert(storage.as_str()) {
            let m = text2("检测到大小写不敏感的重复路径 ", storage.as_str(), "。");
            let i = issue(ScanIssueLevel::Error, self.repository_key.as_str(), m);
            let ghost before = self.issues@;
            self.issues.push(i);
            proof {
                assert(issue_views(self.issues@) =~= issue_views(before).push(issue_view(i)));
            }
            self.skipped_entries = self.skipped_entries + 1;
            return Ok(None);
        }
        Ok(Some(storage))
    }

    /// Checks that an admitted file of `size` bytes keeps the folder's total
    /// representable, before its content is hashed.
    pub fn check_size(&self, size: u64) -> (r: Result<(), AppError>)
        ensures
            r is Err <==> self.size_bytes + size > u64::MAX,
            r matches Err(e) ==> e is DataIntegrity,
    {
        match self.size_bytes.checked_add(size) {
            Some(_) => Ok(()),
            None => Err(AppError::DataIntegrity(crate::error::msg("模组文件总大小超过支持范围。"))),
        }
    }

    /// The cached hash of an admitted file when its size and modification
    /// time are unchanged (counted as reused); otherwise `None` and the file
    /// is counted as one to hash.
    pub fn cached_hash(&mut self, cached: Option<&CachedModFile>, size: u64, modified_at: i64) -> (r: Option<String>)
        requires
            old(self).hashed_files < u64::MAX,
            old(self).reused_hashes < u64::MAX,
        ensures
            r is Some <==> (cached matches Some(c) && c.size_bytes == size && c.modified_at == modified_at),
            r matches Some(h) ==> cached matches Some(c) && h@ == c.content_hash@,
            r is Some ==> final(self).reused_hashes == old(self).reused_hashes + 1 && final(self).hashed_files
                == old(self).hashed_files,
            r is None ==> final(self).hashed_files == old(self).hashed_files + 1 && final(self).reused_hashes
                == old(self).reused_hashes,
            final(self).repository_key == old(self).repository_key,
            final(self).files@ == old(self).files@,
            final(self).issues@ == old(self).issues@,
            final(self).seen == old(self).seen,
            final(self).size_bytes == old(self).size_bytes,
            final(self).skipped_entries == old(self).skipped_entries,
    {
        match cached {
            Some(c) => {
                if c.size_bytes == size && c.modified_at == modified_at {
                    self.reused_hashes = self.reused_hashes + 1;
                    return Some(copy_str(c.content_hash.as_str()));
                }
            },
            None => {},
        }
        self.hashed_files = self.hashed_files + 1;
        None
    }

    /// Records an admitted file with its hash; when the hash could not be
    /// computed the file is kept without one and an error is noted.
    pub fn push_file(&mut self, storage_path: String, size: u64, modified_at: i64, hash: Result<String, String>) -> (r:
        Result<(), AppError>)
        ensures
            r is Err <==> old(self).size_bytes + size > u64::MAX,
            r matches Err(e) ==> e is DataIntegrity,
            r is Err ==> *final(self) == *old(self),
            r is Ok ==> final(self).size_bytes == old(self).size_bytes + size,
            r is Ok ==> final(self).files@.len() == old(self).files@.len() + 1 && final(self).files@.last().deployment_target is None
                && final(self).files@.drop_last() == old(self).files@,
            old(self).sizes_consistent() ==> final(self).sizes_consistent(),
            r is Ok ==> file_views(final(self).files@) == file_views(old(self).files@).push(
                (
                    storage_path@,
                    size,
                    match hash {
                        Ok(h) => if h@.len() > 0 {
                            Some(h@)
                        } else {
                            None
                        },
                        Err(_) => None,
                    },
                    spec_file_role(storage_path@),
                    modified_at,
                ),
            ),
            r is Ok ==> issue_views(final(self).issues@) == issue_views(old(self).issues@) + (match hash {
                Ok(_) => Seq::empty(),
                Err(d) => seq![
                    (
                        ScanIssueLevel::Error,
                        Some(old(self).repository_key@),
                        "无法计算 "@ + storage_path@ + " 的 Hash："@ + d@,
                    ),
                ],
            }),
            final(self).repository_key == old(self).repository_key,
            final(self).seen == old(self).seen,
            final(self).skipped_entries == old(self).skipped_entries,
            final(self).hashed_files == old(self).hashed_files,
            final(self).reused_hashes == old(self).reused_hashes,
    {
        let total = match self.size_bytes.checked_add(size) {
            Some(t) => t,
            None => return Err(AppError::DataIntegrity(crate::error::msg("模组文件总大小超过支持范围。"))),
        };
        let ghost old_files = self.files@;
        let ghost old_issues = self.issues@;
        let content_hash = match hash {
            Ok(h) => {
                if to_chars(h.as_str()).len() > 0 {
                    Some(h)
                } else {
                    None
                }
            },
            Err(d) => {
                let m = from_chars(
                    concat_str(
                        concat_str(concat_str(to_chars("无法计算 ").as_slice(), storage_path.as_str()).as_slice(), " 的 Hash：").as_slice(),
                        d.as_str(),
                    ).as_slice(),
                );
                let i = issue(ScanIssueLevel::Error, self.repository_key.as_str(), m);
                self.issues.push(i);
                proof {
                    assert(issue_views(self.issues@) =~= issue_views(old_issues) + seq![issue_view(i)]);
                }
                None
            },
        };
        proof {
            if self.issues@ == old_issues {
                assert(issue_views(self.issues@) =~= issue_views(old_issues) + Seq::empty());
            }
        }
        let role = classify_file_role(storage_path.as_str());
        let f = ModFile {
            source_path: storage_path,
            deployment_target: None,
            size_bytes: size,
            content_hash,
            file_role: role,
            modified_at,
        };
        let ghost before = self.files@;
        self.files.push(f);
        self.size_bytes = total;
        proof {
            assert(file_views(self.files@) =~= file_views(before).push(file_view(f)));
            assert(file_views(self.files@).drop_last() =~= file_views(old_files));
            assert(self.files@.drop_last() =~= old_files);
        }
        Ok(())
    }

    /// Records an admitted file whose content was fed to `content`: its hash
    /// is the BLAKE3 digest of that content.
    pub fn push_hashed_file(&mut self, storage_path: String, size: u64, modified_at: i64, content: &ContentHasher) -> (r:
        Result<(), AppError>)
        ensures
            r is Err <==> old(self).size_bytes + size > u64::MAX,
            r matches Err(e) ==> e is DataIntegrity,
            r is Err ==> *final(self) == *old(self),
            r is Ok ==> final(self).size_bytes == old(self).size_bytes + size,
            r is Ok ==> final(self).files@.len() == old(self).files@.len() + 1 && final(self).files@.last().deployment_target is None
                && final(self).files@.drop_last() == old(self).files@,
            r is Ok ==> file_views(final(self).files@) == file_views(old(self).files@).push(
                (storage_path@, size, Some(blake3_hex(content@)), spec_file_role(storage_path@), modified_at),
            ),
            r is Ok ==> issue_views(final(self).issues@) == issue_views(old(self).issues@),
            old(self).sizes_consistent() ==> final(self).sizes_consistent(),
            final(self).repository_key == old(self).repository_key,
            final(self).seen == old(self).seen,
            final(self).skipped_entries == old(self).skipped_entries,
            final(self).hashed_files == old(self).hashed_files,
            final(self).reused_hashes == old(self).reused_hashes,
    {
        let hash = content.finish_hex();
        let ghost issues_before = self.issues@;
        let r = self.push_file(storage_path, size, modified_at, Ok(hash));
        proof {
            if r is Ok {
                assert(issue_views(self.issues@) =~= issue_views(issues_before));
            }
        }
        r
    }

    /// Finishes the scan: the manifest warnings are added as warnings, the
    /// files are ordered by key and fingerprinted.
    pub fn finish(self, metadata_warnings: Vec<String>) -> (r: ModScanOutcome)
        ensures
            file_views(r.files@) == sort_views(file_views(self.files@)),
            r.content_fingerprint@ == blake3_hex(view_fingerprint_input(sort_views(file_views(self.files@)))),
            issue_views(r.issues@) == issue_views(self.issues@) + text_views(metadata_warnings@).map_values(
                |m: Seq<char>| (ScanIssueLevel::Warning, Some(self.repository_key@), m),
            ),
            r.size_bytes == self.size_bytes,
            files_size(file_views(r.files@)) == files_size(file_views(self.files@)),
            keys_ordered(file_views(r.files@)),
            forall|i: int| 0 <= i < r.files@.len() ==> (#[trigger] r.files@[i]).deployment_target is None,
            self.sizes_consistent() ==> r.size_bytes == files_size(file_views(r.files@)),
            r.enabled_in_efmi == !crate::names::disabled_name(self.repository_key@),
            r.skipped_entries == self.skipped_entries,
            r.hashed_files == self.hashed_files,
            r.reused_hashes == self.reused_hashes,
    {
        let ghost fs = file_views(self.files@);
        let ghost key_view = self.repository_key@;
        let ModScanProgress { repository_key, files, issues, seen: _, size_bytes, skipped_entries, hashed_files, reused_hashes } = self;
        let mut sorted: Vec<ModFile> = Vec::new();
        let mut i: usize = 0;
        proof {
            assert(fs.take(0) =~= Seq::<FileView>::empty());
            assert(file_views(sorted@) =~= Seq::<FileView>::empty());
        }
        while i < files.len()
            invariant
                i <= files@.len(),
                fs == file_views(files@),
                fs.len() == files@.len(),
                file_views(sorted@) == sort_views(fs.take(i as int)),
                forall|q: int| 0 <= q < sorted@.len() ==> (#[trigger] sorted@[q]).deployment_target is None,
            decreases files@.len() - i,
        {
            proof {
                assert(fs.take(i + 1).drop_last() =~= fs.take(i as int));
                assert(fs.take(i + 1).last() == fs[i as int]);
                assert(fs[i as int] == file_view(files@[i as int]));
            }
            let f = copy_file(&files[i]);
            insert_sorted_file(&mut sorted, f);
            i = i + 1;
        }
        proof {
            assert(fs.take(fs.len() as int) =~= fs);
            lemma_sort_size(fs);
            lemma_sort_ordered(fs);
        }
        let fingerprint = fingerprint_files(&sorted);
        proof {
            lemma_fingerprint_views(sorted@);
        }
        let mut all = issues;
        let ghost base = issue_views(all@);
        let ghost mw = text_views(metadata_warnings@);
        let ghost f = |m: Seq<char>| (ScanIssueLevel::Warning, Some(key_view), m);
        let mut k: usize = 0;
        proof {
            assert(base =~= base + mw.take(0).map_values(f));
        }
        while k < metadata_warnings.len()
            invariant
                k <= metadata_warnings@.len(),
                mw == text_views(metadata_warnings@),
                key_view == repository_key@,
                f == (|m: Seq<char>| (ScanIssueLevel::Warning, Some(key_view), m)),
                issue_views(all@) == base + mw.take(k as int).map_values(f),
            decreases metadata_warnings@.len() - k,
        {
            let i = issue(ScanIssueLevel::Warning, repository_key.as_str(), copy_str(metadata_warnings[k].as_str()));
            let ghost before = all@;
            all.push(i);
            proof {
                assert(mw.take(k + 1) =~= mw.take(k as int).push(mw[k as int]));
                assert(mw.take(k + 1).map_values(f) =~= mw.take(k as int).map_values(f).push(f(mw[k as int])));
                assert(issue_views(all@) =~= issue_views(before).push(issue_view(i)));
            }
            k = k + 1;
        }
        proof {
            assert(mw.take(mw.len() as int) =~= mw);
        }
        let enabled_in_efmi = !crate::names::is_disabled_name(repository_key.as_str());
        ModScanOutcome {
            files: sorted,
            issues: all,
            size_bytes,
            content_fingerprint: fingerprint,
            enabled_in_efmi,
            skipped_entries,
            hashed_files,
            reused_hashes,
        }
    }
}

/// What a repository scan does with one top-level entry.
#[derive(Debug, Clone, PartialEq, Eq)]
pub enum TopLevelEntry {
    /// The repository's own marker file: not a mod, not counted.
    Ignore,
    /// A mod being removed: skipped and counted, without a note.
    SkipRemoval,
    /// A link, reparse point or plain file: skipped and counted, with the
    /// warning given.
    SkipWithWarning { message: String },
    /// A mod folder to scan.
    Scan,
}

/// Sorts a top-level entry of the repository: the marker file is ignored,
/// removal staging folders, links and plain files are skipped, folders are
/// scanned.
pub fn classify_top_level_entry(name: &str, is_link: bool, is_directory: bool) -> (r: TopLevelEntry)
    ensures
        name@ == crate::repository::REPOSITORY_MARKER_FILE@ ==> r == TopLevelEntry::Ignore,
        name@ != crate::repository::REPOSITORY_MARKER_FILE@ && crate::text::starts_with(
            name@,
            crate::repository::REMOVAL_TOMBSTONE_PREFIX@,
        ) ==> r == TopLevelEntry::SkipRemoval,
        name@ != crate::repository::REPOSITORY_MARKER_FILE@ && !crate::text::starts_with(
            name@,
            crate::repository::REMOVAL_TOMBSTONE_PREFIX@,
        ) ==> (if is_link {
            r matches TopLevelEntry::SkipWithWarning { message } && message@ == "仓库顶层链接或重解析点已跳过。"@
        } else if !is_directory {
            r matches TopLevelEntry::SkipWithWarning { message } && message@ == "仓库顶层普通文件不是模组目录，已跳过。"@
        } else {
            r == TopLevelEntry::Scan
        }),
{
    let n = to_chars(name);
    if crate::text::chars_eq(n.as_slice(), to_chars(crate::repository::REPOSITORY_MARKER_FILE).as_slice()) {
        return TopLevelEntry::Ignore;
    }
    if crate::text::chars_starts_with(n.as_slice(), to_chars(crate::repository::REMOVAL_TOMBSTONE_PREFIX).as_slice()) {
        return TopLevelEntry::SkipRemoval;
    }
    if is_link {
        return TopLevelEntry::SkipWithWarning { message: crate::error::msg("仓库顶层链接或重解析点已跳过。") };
    }
    if !is_directory {
        return TopLevelEntry::SkipWithWarning { message: crate::error::msg("仓库顶层普通文件不是模组目录，已跳过。") };
    }
    TopLevelEntry::Scan
}

} // verus!
