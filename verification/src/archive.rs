//! The safety rules applied to a mod archive before anything is extracted:
//! its format by signature, the paths and sizes of its entries, the quotas
//! of the extraction policy, and the names under which it is staged.
use vstd::prelude::*;
use crate::error::{msg, AppError};
use crate::ids::{blake3_hex, blake3_hex_chars, decimal, decimal_chars, utf8_bytes};
use crate::ini_facts::{file_name, file_name_chars, name_extension};
use crate::names::{byte_len, utf8_len};
use crate::path_safety::{
    dot, is_sep, named_pred, named_segments, segments, split_segments, storage_chars, storage_form,
    valid_relative, is_valid_relative,
};
use crate::text::{
    chars_eq_ic, concat, concat_str, eq_ic, from_chars, is_control, is_ctrl, slice_subrange,
    slice_to_vec, to_chars, to_lowercase, trim, trim_chars, unicode_lower,
};

verus! {

/// How a mod was handed to the installer.
#[derive(Debug, Clone, Copy, PartialEq, Eq, Structural)]
pub enum ModImportSourceKind {
    Zip,
    SevenZip,
    Rar,
    Directory,
}

/// The limits that an archive must respect to be extracted.
#[derive(Debug, Clone, Copy)]
pub struct ExtractionPolicy {
    pub max_entries: u64,
    pub max_total_bytes: u64,
    pub max_file_bytes: u64,
    pub max_compression_ratio: u64,
    pub max_path_length: usize,
    pub max_path_components: usize,
}

impl Default for ExtractionPolicy {
    fn default() -> (p: Self)
        ensures
            p.max_entries == 20000,
            p.max_total_bytes == 2147483648,
            p.max_file_bytes == 536870912,
            p.max_compression_ratio == 1000,
            p.max_path_length == 1024,
            p.max_path_components == 64,
    {
        ExtractionPolicy {
            max_entries: 20000,
            max_total_bytes: 2147483648,
            max_file_bytes: 536870912,
            max_compression_ratio: 1000,
            max_path_length: 1024,
            max_path_components: 64,
        }
    }
}

/// A source staged for installation.
#[derive(Debug, Clone)]
pub struct StagedSource {
    pub source_kind: ModImportSourceKind,
    pub source_name: String,
    pub staged_root: String,
    pub entry_count: u64,
    pub total_bytes: u64,
    pub warnings: Vec<String>,
}

// ---------------------------------------------------------------------------
// Format detection
// ---------------------------------------------------------------------------
pub open spec fn has_prefix(s: Seq<u8>, p: Seq<u8>) -> bool {
    p.len() <= s.len() && s.take(p.len() as int) == p
}

/// The format named by the first bytes of a file (at most eight are read):
/// the ZIP local, empty and spanned signatures, the 7z signature, the RAR 4
/// and RAR 5 signatures.
pub open spec fn signature_kind(head: Seq<u8>) -> Option<ModImportSourceKind> {
    if has_prefix(head, seq![0x50u8, 0x4B, 0x03, 0x04]) || has_prefix(head, seq![0x50u8, 0x4B, 0x05, 0x06])
        || has_prefix(head, seq![0x50u8, 0x4B, 0x07, 0x08]) {
        Some(ModImportSourceKind::Zip)
    } else if has_prefix(head, seq![0x37u8, 0x7A, 0xBC, 0xAF, 0x27, 0x1C]) {
        Some(ModImportSourceKind::SevenZip)
    } else if has_prefix(head, seq![0x52u8, 0x61, 0x72, 0x21, 0x1A, 0x07, 0x00]) || has_prefix(
        head,
        seq![0x52u8, 0x61, 0x72, 0x21, 0x1A, 0x07, 0x01, 0x00],
    ) {
        Some(ModImportSourceKind::Rar)
    } else {
        None
    }
}

fn bytes_start_with(s: &[u8], p: &[u8]) -> (b: bool)
    ensures
        b == has_prefix(s@, p@),
{
    if p.len() > s.len() {
        return false;
    }
    let mut i: usize = 0;
    while i < p.len()
        invariant
            i <= p.len(),
            p.len() <= s.len(),
            forall|j: int| 0 <= j < i ==> s@[j] == p@[j],
        decreases p.len() - i,
    {
        if s[i] != p[i] {
            proof {
                assert(s@.take(p@.len() as int)[i as int] != p@[i as int]);
            }
            return false;
        }
        i = i + 1;
    }
    proof {
        assert(s@.take(p@.len() as int) =~= p@);
    }
    true
}

/// Identifies an archive by its first bytes.
pub fn detect_archive_kind(head: &[u8]) -> (r: Result<ModImportSourceKind, AppError>)
    ensures
        r matches Ok(k) ==> signature_kind(head@) == Some(k),
        r is Err ==> signature_kind(head@) is None,
        r matches Err(e) ==> e is Archive,
{
    let zip_local: [u8; 4] = [0x50, 0x4B, 0x03, 0x04];
    let zip_empty: [u8; 4] = [0x50, 0x4B, 0x05, 0x06];
    let zip_spanned: [u8; 4] = [0x50, 0x4B, 0x07, 0x08];
    let seven_z: [u8; 6] = [0x37, 0x7A, 0xBC, 0xAF, 0x27, 0x1C];
    let rar4: [u8; 7] = [0x52, 0x61, 0x72, 0x21, 0x1A, 0x07, 0x00];
    let rar5: [u8; 8] = [0x52, 0x61, 0x72, 0x21, 0x1A, 0x07, 0x01, 0x00];
    proof {
        assert(zip_local@ =~= seq![0x50u8, 0x4B, 0x03, 0x04]);
        assert(zip_empty@ =~= seq![0x50u8, 0x4B, 0x05, 0x06]);
        assert(zip_spanned@ =~= seq![0x50u8, 0x4B, 0x07, 0x08]);
        assert(seven_z@ =~= seq![0x37u8, 0x7A, 0xBC, 0xAF, 0x27, 0x1C]);
        assert(rar4@ =~= seq![0x52u8, 0x61, 0x72, 0x21, 0x1A, 0x07, 0x00]);
        assert(rar5@ =~= seq![0x52u8, 0x61, 0x72, 0x21, 0x1A, 0x07, 0x01, 0x00]);
    }
    if bytes_start_with(head, zip_local.as_slice()) || bytes_start_with(head, zip_empty.as_slice())
        || bytes_start_with(head, zip_spanned.as_slice()) {
        Ok(ModImportSourceKind::Zip)
    } else if bytes_start_with(head, seven_z.as_slice()) {
        Ok(ModImportSourceKind::SevenZip)
    } else if bytes_start_with(head, rar4.as_slice()) || bytes_start_with(head, rar5.as_slice()) {
        Ok(ModImportSourceKind::Rar)
    } else {
        Err(AppError::Archive(msg("无法识别压缩包格式；仅支持 ZIP、7z、RAR 或文件夹。")))
    }
}

// ---------------------------------------------------------------------------
// Entry paths
// ---------------------------------------------------------------------------
/// Number of trailing `/` characters.
pub open spec fn trailing_slashes(s: Seq<char>) -> nat
    decreases s.len(),
{
    if s.len() > 0 && s.last() == '/' {
        trailing_slashes(s.drop_last()) + 1
    } else {
        0
    }
}

proof fn lemma_trailing_slashes_bound(s: Seq<char>)
    ensures
        trailing_slashes(s) <= s.len(),
    decreases s.len(),
{
    if s.len() > 0 && s.last() == '/' {
        lemma_trailing_slashes_bound(s.drop_last());
    }
}

/// An entry name with `/` as its only separator and no trailing `/`.
pub open spec fn archive_normal(raw: Seq<char>) -> Seq<char> {
    let s = storage_form(raw);
    s.take(s.len() - trailing_slashes(s))
}

/// The named components of a path other than `.`.
pub open spec fn not_dot_pred() -> spec_fn(Seq<char>) -> bool {
    |s: Seq<char>| s != dot()
}

pub open spec fn proper_segments(s: Seq<char>) -> Seq<Seq<char>> {
    named_segments(s).filter(not_dot_pred())
}

/// The path begins with a `.` component.
pub open spec fn leading_cur_dir(s: Seq<char>) -> bool {
    split_segments(s)[0] == dot()
}

/// Number of UTF-16 code units that encode `s`.
pub open spec fn utf16_len(s: Seq<char>) -> nat
    decreases s.len(),
{
    if s.len() == 0 {
        0
    } else {
        utf16_len(s.drop_last()) + (if (s.last() as u32) < 0x10000 {
            1nat
        } else {
            2nat
        })
    }
}

/// An entry name is acceptable: once normalized it is non-empty, within
/// the byte length of the policy, a safe relative path that does not begin
/// with `.`, has at most the policy's number of components, and no component
/// longer than 255 UTF-16 units.
pub open spec fn archive_path_ok(raw: Seq<char>, policy: ExtractionPolicy) -> bool {
    let n = archive_normal(raw);
    &&& n.len() > 0
    &&& byte_len(n) <= policy.max_path_length
    &&& n[0] != '/'
    &&& valid_relative(n)
    &&& !leading_cur_dir(n)
    &&& proper_segments(n).len() <= policy.max_path_components
    &&& forall|k: int| 0 <= k < proper_segments(n).len() ==> utf16_len(#[trigger] proper_segments(n)[k]) <= 255
}

fn normalize_entry_name(raw: &str) -> (r: Vec<char>)
    ensures
        r@ == archive_normal(raw@),
{
    let chars = to_chars(raw);
    let s = storage_chars(chars.as_slice());
    let ghost sv = s@;
    let mut n = s.len();
    proof {
        lemma_trailing_slashes_bound(sv);
        assert(sv.take(n as int) =~= sv);
    }
    while n > 0 && s[n - 1] == '/'
        invariant
            n <= sv.len(),
            sv == s@,
            trailing_slashes(sv) == trailing_slashes(sv.take(n as int)) + (sv.len() - n),
        decreases n,
    {
        proof {
            assert(sv.take(n as int).drop_last() =~= sv.take(n - 1));
        }
        n = n - 1;
    }
    proof {
        assert(trailing_slashes(sv.take(n as int)) == 0);
    }
    slice_to_vec(slice_subrange(s.as_slice(), 0, n))
}

/// Whether `s` takes at most `limit` UTF-8 bytes.
pub(crate) fn utf8_within(s: &[char], limit: usize) -> (b: bool)
    ensures
        b == (byte_len(s@) <= limit),
{
    let mut total: usize = 0;
    let mut i: usize = 0;
    proof {
        assert(s@.take(0) =~= Seq::<char>::empty());
    }
    while i < s.len()
        invariant
            i <= s.len(),
            total == byte_len(s@.take(i as int)),
            total <= limit,
        decreases s.len() - i,
    {
        let c = s[i];
        let w: usize = if (c as u32) < 0x80 {
            1
        } else if (c as u32) < 0x800 {
            2
        } else if (c as u32) < 0x10000 {
            3
        } else {
            4
        };
        proof {
            assert(s@.take(i + 1).drop_last() =~= s@.take(i as int));
            assert(s@.take(i + 1).last() == c);
        }
        if w > limit - total {
            proof {
                crate::names::lemma_byte_len_take_mono(s@, i + 1, s@.len() as int);
                assert(s@.take(s@.len() as int) =~= s@);
            }
            return false;
        }
        total = total + w;
        i = i + 1;
    }
    proof {
        assert(s@.take(s@.len() as int) =~= s@);
    }
    true
}

proof fn lemma_utf16_take_mono(s: Seq<char>, i: int, j: int)
    requires
        0 <= i <= j <= s.len(),
    ensures
        utf16_len(s.take(i)) <= utf16_len(s.take(j)),
    decreases j - i,
{
    if i < j {
        lemma_utf16_take_mono(s, i, j - 1);
        assert(s.take(j).drop_last() =~= s.take(j - 1));
    }
}

/// Whether `s` takes at most `limit` UTF-16 code units.
pub(crate) fn utf16_within(s: &[char], limit: usize) -> (b: bool)
    ensures
        b == (utf16_len(s@) <= limit),
{
    let mut total: usize = 0;
    let mut i: usize = 0;
    proof {
        assert(s@.take(0) =~= Seq::<char>::empty());
    }
    while i < s.len()
        invariant
            i <= s.len(),
            total == utf16_len(s@.take(i as int)),
            total <= limit,
        decreases s.len() - i,
    {
        let c = s[i];
        let w: usize = if (c as u32) < 0x10000 {
            1
        } else {
            2
        };
        proof {
            assert(s@.take(i + 1).drop_last() =~= s@.take(i as int));
            assert(s@.take(i + 1).last() == c);
        }
        if w > limit - total {
            proof {
                lemma_utf16_take_mono(s@, i + 1, s@.len() as int);
                assert(s@.take(s@.len() as int) =~= s@);
            }
            return false;
        }
        total = total + w;
        i = i + 1;
    }
    proof {
        assert(s@.take(s@.len() as int) =~= s@);
    }
    true
}

fn is_dot_segment(s: &[char]) -> (b: bool)
    ensures
        b == (s@ == dot()),
{
    let r = s.len() == 1 && s[0] == '.';
    proof {
        if r {
            assert(s@ =~= dot());
        }
    }
    r
}

/// The components of `s` other than `.`, with their number.
pub(crate) fn proper_segment_list(s: &[char]) -> (r: Vec<Vec<char>>)
    ensures
        r@.len() == proper_segments(s@).len(),
        forall|k: int| 0 <= k < r@.len() ==> #[trigger] r@[k]@ == proper_segments(s@)[k],
{
    let segs = segments(s);
    let ghost ss = split_segments(s@);
    let ghost both = |x: Seq<char>| x.len() > 0 && x != dot();
    let mut r: Vec<Vec<char>> = Vec::new();
    let mut k: usize = 0;
    proof {
        assert(ss.take(0).filter(named_pred()).filter(not_dot_pred()) =~= Seq::<Seq<char>>::empty());
    }
    while k < segs.len()
        invariant
            k <= segs.len(),
            segs@.len() == ss.len(),
            ss == split_segments(s@),
            forall|j: int| 0 <= j < segs@.len() ==> #[trigger] segs@[j]@ == ss[j],
            r@.len() == ss.take(k as int).filter(named_pred()).filter(not_dot_pred()).len(),
            forall|j: int|
                0 <= j < r@.len() ==> #[trigger] r@[j]@ == ss.take(k as int).filter(named_pred()).filter(
                    not_dot_pred(),
                )[j],
        decreases segs.len() - k,
    {
        let ghost named = ss.take(k as int).filter(named_pred());
        proof {
            assert(ss.take(k + 1) =~= ss.take(k as int).push(ss[k as int]));
            ss.take(k as int).lemma_filter_push(ss[k as int], named_pred());
            named.lemma_filter_push(ss[k as int], not_dot_pred());
        }
        if segs[k].len() > 0 && !is_dot_segment(segs[k].as_slice()) {
            r.push(slice_to_vec(segs[k].as_slice()));
        }
        k = k + 1;
    }
    proof {
        assert(ss.take(ss.len() as int) =~= ss);
    }
    r
}

/// Checks an entry name against the policy and returns it normalized.
pub fn validate_archive_path(raw: &str, policy: ExtractionPolicy) -> (r: Result<String, AppError>)
    ensures
        r is Ok <==> archive_path_ok(raw@, policy),
        r matches Ok(p) ==> p@ == archive_normal(raw@),
        r matches Err(e) ==> e is UnsafePath,
{
    let n = normalize_entry_name(raw);
    if n.len() == 0 || !utf8_within(n.as_slice(), policy.max_path_length) || n[0] == '/' {
        let m = concat_str(concat_str(to_chars("压缩包条目路径无效或过长：").as_slice(), raw).as_slice(), "。");
        return Err(AppError::UnsafePath(from_chars(m.as_slice())));
    }
    if !is_valid_relative(n.as_slice()) {
        return Err(AppError::UnsafePath(msg("路径必须是安全的相对路径，不能包含父级、根目录或设备前缀。")));
    }
    let parts = segments(n.as_slice());
    let proper = proper_segment_list(n.as_slice());
    proof {
        crate::path_safety::lemma_split_nonempty(n@);
    }
    let leading = parts.len() > 0 && is_dot_segment(parts[0].as_slice());
    proof {
        assert(parts@[0]@ == split_segments(n@)[0]);
        assert(leading == leading_cur_dir(n@));
    }
    if proper.len() > policy.max_path_components || leading {
        let m = concat_str(
            concat_str(to_chars("压缩包条目路径层级过深或包含当前目录组件：").as_slice(), raw).as_slice(),
            "。",
        );
        return Err(AppError::UnsafePath(from_chars(m.as_slice())));
    }
    let mut k: usize = 0;
    while k < proper.len()
        invariant
            k <= proper@.len(),
            n@ == archive_normal(raw@),
            n@.len() > 0,
            byte_len(n@) <= policy.max_path_length,
            n@[0] != '/',
            valid_relative(n@),
            !leading_cur_dir(n@),
            proper@.len() == proper_segments(n@).len(),
            proper@.len() <= policy.max_path_components,
            forall|j: int| 0 <= j < proper@.len() ==> #[trigger] proper@[j]@ == proper_segments(n@)[j],
            forall|j: int| 0 <= j < k ==> utf16_len(#[trigger] proper_segments(n@)[j]) <= 255,
        decreases proper@.len() - k,
    {
        if !utf16_within(proper[k].as_slice(), 255) {
            let m = concat_str(
                concat_str(to_chars("压缩包条目包含过长的文件名片段：").as_slice(), raw).as_slice(),
                "。",
            );
            return Err(AppError::UnsafePath(from_chars(m.as_slice())));
        }
        k = k + 1;
    }
    Ok(from_chars(n.as_slice()))
}

// ---------------------------------------------------------------------------
// Quotas
// ---------------------------------------------------------------------------
/// The number of entries after one more, saturating at `u64::MAX`.
pub open spec fn next_entry_count(count: nat) -> int {
    if count + 1 > u64::MAX {
        u64::MAX as int
    } else {
        (count + 1) as int
    }
}

/// Counts one more entry of `size` bytes against the policy: refuses it
/// when the entry count, the file size or the running total would exceed
/// the policy, or the total cannot be represented.
pub fn check_entry_quota(total_bytes: &mut u64, size: u64, entry_count: usize, policy: ExtractionPolicy) -> (r:
    Result<(), AppError>)
    ensures
        r is Ok <==> next_entry_count(entry_count as nat) <= policy.max_entries && size
            <= policy.max_file_bytes && *old(total_bytes) + size <= policy.max_total_bytes,
        r is Ok ==> *final(total_bytes) == *old(total_bytes) + size,
        next_entry_count(entry_count as nat) > policy.max_entries || size > policy.max_file_bytes
            || *old(total_bytes) + size > u64::MAX ==> *final(total_bytes) == *old(total_bytes),
        next_entry_count(entry_count as nat) <= policy.max_entries && size <= policy.max_file_bytes
            && *old(total_bytes) + size <= u64::MAX ==> *final(total_bytes) == *old(total_bytes) + size,
        r matches Err(e) ==> e is Archive,
{
    let count: u64 = if entry_count as u64 == u64::MAX {
        u64::MAX
    } else {
        entry_count as u64 + 1
    };
    if count > policy.max_entries {
        let digits = decimal_chars(policy.max_entries);
        let m = concat_str(concat(to_chars("压缩包条目数超过安全上限 ").as_slice(), digits.as_slice()).as_slice(), "。");
        return Err(AppError::Archive(from_chars(m.as_slice())));
    }
    if size > policy.max_file_bytes {
        let digits = decimal_chars(policy.max_file_bytes);
        let m = concat_str(
            concat(to_chars("单个文件大小超过安全上限 ").as_slice(), digits.as_slice()).as_slice(),
            " 字节。",
        );
        return Err(AppError::Archive(from_chars(m.as_slice())));
    }
    match total_bytes.checked_add(size) {
        Some(t) => {
            *total_bytes = t;
        },
        None => {
            return Err(AppError::Archive(msg("解压后总大小超过支持范围。")));
        },
    }
    if *total_bytes > policy.max_total_bytes {
        let digits = decimal_chars(policy.max_total_bytes);
        let m = concat_str(
            concat(to_chars("解压后总大小超过安全上限 ").as_slice(), digits.as_slice()).as_slice(),
            " 字节。",
        );
        return Err(AppError::Archive(from_chars(m.as_slice())));
    }
    Ok(())
}

/// One validated entry of an archive or a source folder.
#[derive(Debug, Clone)]
pub struct ArchiveEntry {
    pub relative: String,
    pub is_directory: bool,
    pub size: u64,
}

/// The archive names at least one non-empty file.
pub open spec fn has_content(entries: Seq<ArchiveEntry>) -> bool {
    exists|k: int| 0 <= k < entries.len() && #[trigger] entries[k].size != 0
}

/// The expansion ratio is acceptable: nothing unpacks, or the packed size is
/// positive and the unpacked size divided by it stays within the policy.
pub open spec fn ratio_ok(total_bytes: u64, total_compressed: u64, policy: ExtractionPolicy) -> bool {
    total_bytes == 0 || (total_compressed != 0 && total_bytes / total_compressed
        <= policy.max_compression_ratio)
}

/// Checks an archive as a whole: it must hold some content and must not
/// expand beyond the policy's ratio.
pub fn validate_archive_totals(
    entries: &Vec<ArchiveEntry>,
    total_bytes: u64,
    total_compressed: u64,
    policy: ExtractionPolicy,
) -> (r: Result<(), AppError>)
    ensures
        r is Ok <==> has_content(entries@) && ratio_ok(total_bytes, total_compressed, policy),
        r matches Err(e) ==> e is Archive,
{
    let mut found = false;
    let mut k: usize = 0;
    while k < entries.len()
        invariant
            k <= entries@.len(),
            found <==> exists|j: int| 0 <= j < k && #[trigger] entries@[j].size != 0,
        decreases entries@.len() - k,
    {
        if entries[k].size != 0 {
            found = true;
        }
        k = k + 1;
    }
    if !found {
        return Err(AppError::Archive(msg("压缩包不包含任何模组文件。")));
    }
    let divisor = if total_compressed > 1 {
        total_compressed
    } else {
        1
    };
    if total_bytes > 0 && (total_compressed == 0 || total_bytes / divisor > policy.max_compression_ratio) {
        let digits = decimal_chars(policy.max_compression_ratio);
        let m = concat_str(
            concat(to_chars("压缩包展开比例超过安全上限 ").as_slice(), digits.as_slice()).as_slice(),
            ":1。",
        );
        return Err(AppError::Archive(from_chars(m.as_slice())));
    }
    Ok(())
}

// ---------------------------------------------------------------------------
// Entry attributes
// ---------------------------------------------------------------------------
/// Windows or Unix attributes that mark a link: the reparse-point bit, or
/// a Unix file type of symbolic link in the upper half.
pub open spec fn attributes_are_link(attributes: u32) -> bool {
    (attributes & 0x400u32) != 0 || ((attributes >> 16u32) & 0xF000u32) == 0xA000u32
}

pub fn archive_attributes_are_link(attributes: u32) -> (b: bool)
    ensures
        b == attributes_are_link(attributes),
{
    (attributes & 0x400u32) != 0 || ((attributes >> 16u32) & 0xF000u32) == 0xA000u32
}

// ---------------------------------------------------------------------------
// Paths already accepted from one archive
// ---------------------------------------------------------------------------
/// The key under which entry paths collide: storage form, lower case.
pub open spec fn path_key_of(p: Seq<char>) -> Seq<char> {
    unicode_lower(storage_form(p))
}

pub fn path_key(p: &str) -> (r: String)
    ensures
        r@ == path_key_of(p@),
        crate::text::all_ascii(storage_form(p@)) ==> r@ == crate::text::lower_seq(storage_form(p@)),
{
    let c = to_chars(p);
    let s = from_chars(storage_chars(c.as_slice()).as_slice());
    to_lowercase(s.as_str())
}

/// The flag recorded under `key`, if any.
pub open spec fn paths_lookup(s: Seq<(Seq<char>, bool)>, key: Seq<char>) -> Option<bool>
    decreases s.len(),
{
    if s.len() == 0 {
        None
    } else if s.last().0 == key {
        Some(s.last().1)
    } else {
        paths_lookup(s.drop_last(), key)
    }
}

/// `i` ends a component of `p` other than `.`.
pub open spec fn component_end(p: Seq<char>, i: int) -> bool {
    &&& 0 < i <= p.len()
    &&& !is_sep(p[i - 1])
    &&& (i == p.len() || is_sep(p[i]))
    &&& !(p[i - 1] == '.' && (i == 1 || is_sep(p[i - 2])))
}

/// The proper ancestors of `p` are its prefixes that end a component
/// before its last component.
pub open spec fn is_ancestor_end(p: Seq<char>, i: int) -> bool {
    component_end(p, i) && exists|j: int| i < j && #[trigger] component_end(p, j)
}

pub open spec fn key_slash(key: Seq<char>) -> Seq<char> {
    key.push('/')
}

/// A path may join the accepted ones when its key is new, no ancestor is a
/// file, and, for a file, no accepted path lies below it.
pub open spec fn insert_ok(s: Seq<(Seq<char>, bool)>, p: Seq<char>, is_directory: bool) -> bool {
    &&& paths_lookup(s, path_key_of(p)) is None
    &&& forall|i: int|
        #![trigger p.take(i)]
        is_ancestor_end(p, i) ==> paths_lookup(s, path_key_of(p.take(i))) != Some(false)
    &&& !is_directory ==> forall|k: int|
        0 <= k < s.len() ==> !crate::text::starts_with(#[trigger] s[k].0, key_slash(path_key_of(p)))
}

/// The paths accepted so far, each under its key with whether it is a
/// directory.
#[derive(Debug)]
pub struct ValidatedPaths {
    pub entries: Vec<(Vec<char>, bool)>,
}

impl View for ValidatedPaths {
    type V = Seq<(Seq<char>, bool)>;

    open spec fn view(&self) -> Seq<(Seq<char>, bool)> {
        self.entries@.map_values(|e: (Vec<char>, bool)| (e.0@, e.1))
    }
}

impl ValidatedPaths {
    pub fn new() -> (v: ValidatedPaths)
        ensures
            v@.len() == 0,
    {
        ValidatedPaths { entries: Vec::new() }
    }

    fn lookup(&self, key: &[char]) -> (r: Option<bool>)
        ensures
            r == paths_lookup(self@, key@),
    {
        let ghost s = self@;
        let mut n = self.entries.len();
        proof {
            assert(s.take(n as int) =~= s);
        }
        while n > 0
            invariant
                n <= self.entries@.len(),
                s == self@,
                paths_lookup(s, key@) == paths_lookup(s.take(n as int), key@),
            decreases n,
        {
            proof {
                assert(s.take(n as int).last() == s[n - 1]);
                assert(s.take(n as int).drop_last() =~= s.take(n - 1));
                assert(s[n - 1] == (self.entries@[n - 1].0@, self.entries@[n - 1].1));
            }
            if crate::text::chars_eq(self.entries[n - 1].0.as_slice(), key) {
                return Some(self.entries[n - 1].1);
            }
            n = n - 1;
        }
        None
    }

    /// Accepts `relative` (a path already checked by `validate_archive_path`)
    /// unless it collides with the paths accepted so far.
    pub fn insert(&mut self, relative: &str, is_directory: bool) -> (r: Result<(), AppError>)
        ensures
            r is Ok <==> insert_ok(old(self)@, relative@, is_directory),
            r is Ok ==> final(self)@ == old(self)@.push((path_key_of(relative@), is_directory)),
            r is Err ==> final(self)@ == old(self)@,
            r matches Err(e) ==> e is UnsafePath,
    {
        let ghost s = self@;
        let p = to_chars(relative);
        let key_string = path_key(relative);
        let key = to_chars(key_string.as_str());
        if self.lookup(key.as_slice()).is_some() {
            let m = concat_str(concat_str(to_chars("压缩包包含大小写不敏感的重复路径：").as_slice(), relative).as_slice(), "。");
            return Err(AppError::UnsafePath(from_chars(m.as_slice())));
        }
        // The last end of a component bounds the ancestors.
        let last = last_component_end(p.as_slice());
        let mut i: usize = 0;
        while i < p.len()
            invariant
                i <= p@.len(),
                s == self@,
                p@ == relative@,
                last.0 ==> component_end(p@, last.1 as int) && forall|j: int| last.1 < j ==> !component_end(p@, j),
                !last.0 ==> forall|j: int| !component_end(p@, j),
                forall|a: int|
                    #![trigger p@.take(a)]
                    0 < a <= i && is_ancestor_end(p@, a) ==> paths_lookup(s, path_key_of(p@.take(a))) != Some(false),
            decreases p@.len() - i,
        {
            let a = i + 1;
            if last.0 && a < last.1 && is_component_end(p.as_slice(), a) {
                let prefix = from_chars(slice_subrange(p.as_slice(), 0, a));
                let pk = to_chars(path_key(prefix.as_str()).as_str());
                proof {
                    assert(prefix@ == p@.take(a as int));
                }
                if self.lookup(pk.as_slice()) == Some(false) {
                    proof {
                        assert(is_ancestor_end(p@, a as int));
                    }
                    let m = concat_str(
                        concat_str(to_chars("路径 ").as_slice(), relative).as_slice(),
                        " 的父路径被另一个文件占用。",
                    );
                    return Err(AppError::UnsafePath(from_chars(m.as_slice())));
                }
            }
            proof {
                if is_ancestor_end(p@, a as int) {
                    let j = choose|j: int| a < j && #[trigger] component_end(p@, j);
                    assert(last.0);
                    assert(a < last.1);
                }
            }
            i = a;
        }
        proof {
            assert forall|a: int| #![trigger p@.take(a)] is_ancestor_end(p@, a) implies paths_lookup(
                s,
                path_key_of(p@.take(a)),
            ) != Some(false) by {
                assert(0 < a <= p@.len());
            }
        }
        if !is_directory {
            let mut below = slice_to_vec(key.as_slice());
            below.push('/');
            let mut k: usize = 0;
            while k < self.entries.len()
                invariant
                    k <= self.entries@.len(),
                    s == self@,
                    !is_directory,
                    key@ == path_key_of(relative@),
                    below@ == key_slash(key@),
                    forall|q: int| 0 <= q < k ==> !crate::text::starts_with(#[trigger] s[q].0, below@),
                decreases self.entries@.len() - k,
            {
                proof {
                    assert(s[k as int].0 == self.entries@[k as int].0@);
                }
                if crate::text::chars_starts_with(self.entries[k].0.as_slice(), below.as_slice()) {
                    proof {
                        assert(crate::text::starts_with(s[k as int].0, key_slash(path_key_of(relative@))));
                        assert(!insert_ok(s, relative@, is_directory));
                    }
                    let m = concat_str(
                        concat_str(to_chars("文件路径 ").as_slice(), relative).as_slice(),
                        " 与已有子条目冲突。",
                    );
                    return Err(AppError::UnsafePath(from_chars(m.as_slice())));
                }
                k = k + 1;
            }
        }
        self.entries.push((key, is_directory));
        proof {
            assert(self@ =~= s.push((path_key_of(relative@), is_directory)));
        }
        Ok(())
    }
}

fn is_component_end(p: &[char], i: usize) -> (b: bool)
    requires
        0 < i <= p@.len(),
    ensures
        b == component_end(p@, i as int),
{
    let sep_before = p[i - 1] == '/' || p[i - 1] == '\\';
    let sep_after = i == p.len() || p[i] == '/' || p[i] == '\\';
    let dot = p[i - 1] == '.' && (i == 1 || p[i - 2] == '/' || p[i - 2] == '\\');
    !sep_before && sep_after && !dot
}

/// Whether `p` has a component other than `.`, and the end of its last one.
fn last_component_end(p: &[char]) -> (r: (bool, usize))
    ensures
        r.0 ==> r.1 <= p@.len() && component_end(p@, r.1 as int) && forall|j: int| r.1 < j ==> !component_end(p@, j),
        !r.0 ==> forall|j: int| !component_end(p@, j),
{
    let mut i = p.len();
    while i > 0
        invariant
            i <= p@.len(),
            forall|j: int| i < j ==> !component_end(p@, j),
        decreases i,
    {
        if is_component_end(p, i) {
            return (true, i);
        }
        i = i - 1;
    }
    (false, 0)
}

/// A path accepted once cannot be accepted again.
pub proof fn lemma_duplicate_path_refused(s: Seq<(Seq<char>, bool)>, p: Seq<char>, first_dir: bool, second_dir: bool)
    ensures
        !insert_ok(s.push((path_key_of(p), first_dir)), p, second_dir),
{
    assert(s.push((path_key_of(p), first_dir)).last().0 == path_key_of(p));
}

/// Once a file is accepted, no path that continues it past a component
/// boundary with a further component can be accepted.
pub proof fn lemma_file_blocks_paths_below(s: Seq<(Seq<char>, bool)>, p: Seq<char>, q: Seq<char>, q_dir: bool)
    requires
        p.len() <= q.len(),
        q.take(p.len() as int) == p,
        component_end(q, p.len() as int),
        exists|j: int| p.len() < j && #[trigger] component_end(q, j),
    ensures
        !insert_ok(s.push((path_key_of(p), false)), q, q_dir),
{
    let t = s.push((path_key_of(p), false));
    assert(is_ancestor_end(q, p.len() as int));
    assert(paths_lookup(t, path_key_of(q.take(p.len() as int))) == Some(false));
}

// ---------------------------------------------------------------------------
// Per-format screening of listed entries
// ---------------------------------------------------------------------------
/// A ZIP entry may be extracted unless it is encrypted, a symbolic link, or
/// neither a file nor a directory.
pub fn screen_zip_entry(name: &str, encrypted: bool, symlink: bool, is_file: bool, is_directory: bool) -> (r:
    Result<(), AppError>)
    ensures
        r is Ok <==> !encrypted && !symlink && (is_file || is_directory),
        r matches Err(e) ==> (if encrypted {
            e is Archive
        } else if symlink {
            e is UnsafePath
        } else {
            e is Archive
        }),
{
    if encrypted {
        return Err(AppError::Archive(msg("暂不支持加密 ZIP 模组包。")));
    }
    if symlink {
        let m = concat_str(concat_str(to_chars("ZIP 条目 ").as_slice(), name).as_slice(), " 是符号链接，已拒绝。");
        return Err(AppError::UnsafePath(from_chars(m.as_slice())));
    }
    if !is_file && !is_directory {
        let m = concat_str(concat_str(to_chars("ZIP 条目 ").as_slice(), name).as_slice(), " 不是普通文件或目录。");
        return Err(AppError::Archive(from_chars(m.as_slice())));
    }
    Ok(())
}

/// A 7z entry may be extracted unless it marks a deletion or is a link.
pub fn screen_seven_zip_entry(name: &str, anti_item: bool, attributes: u32) -> (r: Result<(), AppError>)
    ensures
        r is Ok <==> !anti_item && !attributes_are_link(attributes),
        r matches Err(e) ==> (if anti_item {
            e is Archive
        } else {
            e is UnsafePath
        }),
{
    if anti_item {
        let m = concat_str(concat_str(to_chars("7z 条目 ").as_slice(), name).as_slice(), " 是删除标记条目，已拒绝。");
        return Err(AppError::Archive(from_chars(m.as_slice())));
    }
    if archive_attributes_are_link(attributes) {
        let m = concat_str(concat_str(to_chars("7z 条目 ").as_slice(), name).as_slice(), " 是链接或重解析点，已拒绝。");
        return Err(AppError::UnsafePath(from_chars(m.as_slice())));
    }
    Ok(())
}

/// A RAR entry may be extracted unless it is encrypted, split across
/// volumes, or a link.
pub fn screen_rar_entry(name: &str, encrypted: bool, split: bool, attributes: u32) -> (r: Result<(), AppError>)
    ensures
        r is Ok <==> !encrypted && !split && !attributes_are_link(attributes),
        r matches Err(e) ==> (if encrypted || split {
            e is Archive
        } else {
            e is UnsafePath
        }),
{
    if encrypted {
        return Err(AppError::Archive(msg("暂不支持加密 RAR 模组包。")));
    }
    if split {
        return Err(AppError::Archive(msg("暂不支持跨卷拆分的 RAR 条目。")));
    }
    if archive_attributes_are_link(attributes) {
        let m = concat_str(concat_str(to_chars("RAR 条目 ").as_slice(), name).as_slice(), " 是链接或重解析点，已拒绝。");
        return Err(AppError::UnsafePath(from_chars(m.as_slice())));
    }
    Ok(())
}

pub open spec fn size_sum(sizes: Seq<u64>) -> int
    decreases sizes.len(),
{
    if sizes.len() == 0 {
        0
    } else {
        size_sum(sizes.drop_last()) + sizes.last()
    }
}

proof fn lemma_size_sum_prefix(sizes: Seq<u64>, n: int)
    requires
        0 <= n <= sizes.len(),
    ensures
        size_sum(sizes.take(n)) <= size_sum(sizes),
    decreases sizes.len(),
{
    if n < sizes.len() {
        lemma_size_sum_prefix(sizes.drop_last(), n);
        assert(sizes.drop_last().take(n) =~= sizes.take(n));
    } else {
        assert(sizes.take(n) =~= sizes);
    }
}

/// The packed size of an archive: the sum of its packed parts, refused when
/// it cannot be represented.
pub fn total_packed_size(sizes: &[u64], kind: ModImportSourceKind) -> (r: Result<u64, AppError>)
    ensures
        r matches Ok(t) ==> t == size_sum(sizes@),
        r is Err <==> size_sum(sizes@) > u64::MAX,
        r matches Err(e) ==> e is Archive,
{
    let mut total: u64 = 0;
    let mut i: usize = 0;
    proof {
        assert(sizes@.take(0) =~= Seq::<u64>::empty());
    }
    while i < sizes.len()
        invariant
            i <= sizes@.len(),
            total == size_sum(sizes@.take(i as int)),
        decreases sizes@.len() - i,
    {
        proof {
            assert(sizes@.take(i + 1).drop_last() =~= sizes@.take(i as int));
        }
        match total.checked_add(sizes[i]) {
            Some(t) => {
                total = t;
            },
            None => {
                proof {
                    lemma_size_sum_prefix(sizes@, i + 1);
                }
                let m = match kind {
                    ModImportSourceKind::SevenZip => msg("7z 压缩大小超过支持范围。"),
                    _ => msg("ZIP 压缩大小超过支持范围。"),
                };
                return Err(AppError::Archive(m));
            },
        }
        i = i + 1;
    }
    proof {
        assert(sizes@.take(sizes@.len() as int) =~= sizes@);
    }
    Ok(total)
}

// ---------------------------------------------------------------------------
// The preflight of one archive
// ---------------------------------------------------------------------------
/// The entries of one archive (or source folder) checked one by one before
/// anything is extracted.
#[derive(Debug)]
pub struct ArchivePreflight {
    pub policy: ExtractionPolicy,
    pub paths: ValidatedPaths,
    pub entries: Vec<ArchiveEntry>,
    pub total_bytes: u64,
}

impl ArchivePreflight {
    pub fn new(policy: ExtractionPolicy) -> (p: ArchivePreflight)
        ensures
            p.policy == policy,
            p.paths@.len() == 0,
            p.entries@.len() == 0,
            p.total_bytes == 0,
    {
        ArchivePreflight { policy, paths: ValidatedPaths::new(), entries: Vec::new(), total_bytes: 0 }
    }

    /// Checks one listed entry: its name, the quotas and the collisions
    /// with the entries before it; records it when all pass. A directory
    /// counts as zero bytes.
    pub fn add_entry(&mut self, raw_name: &str, is_directory: bool, size: u64) -> (r: Result<(), AppError>)
        ensures
            final(self).policy == old(self).policy,
            ({
                let counted = if is_directory {
                    0
                } else {
                    size
                };
                let path = archive_normal(raw_name@);
                let path_ok = archive_path_ok(raw_name@, old(self).policy);
                let quota_ok = next_entry_count(old(self).entries@.len()) <= old(self).policy.max_entries
                    && counted <= old(self).policy.max_file_bytes && old(self).total_bytes + counted
                    <= old(self).policy.max_total_bytes;
                &&& r is Ok <==> path_ok && quota_ok && insert_ok(old(self).paths@, path, is_directory)
                &&& r is Ok ==> {
                    &&& final(self).total_bytes == old(self).total_bytes + counted
                    &&& final(self).paths@ == old(self).paths@.push((path_key_of(path), is_directory))
                    &&& final(self).entries@.len() == old(self).entries@.len() + 1
                    &&& final(self).entries@.drop_last() == old(self).entries@
                    &&& final(self).entries@.last().relative@ == path
                    &&& final(self).entries@.last().is_directory == is_directory
                    &&& final(self).entries@.last().size == counted
                }
                &&& r matches Err(e) ==> (if !path_ok {
                    e is UnsafePath
                } else if !quota_ok {
                    e is Archive
                } else {
                    e is UnsafePath
                })
            }),
    {
        let relative = validate_archive_path(raw_name, self.policy)?;
        let counted = if is_directory {
            0
        } else {
            size
        };
        let mut total = self.total_bytes;
        check_entry_quota(&mut total, counted, self.entries.len(), self.policy)?;
        self.paths.insert(relative.as_str(), is_directory)?;
        self.total_bytes = total;
        let ghost before = self.entries@;
        self.entries.push(ArchiveEntry { relative, is_directory, size: counted });
        proof {
            assert(self.entries@.drop_last() =~= before);
        }
        Ok(())
    }

    /// Checks the archive as a whole once every entry is listed.
    pub fn finish(&self, total_compressed: u64) -> (r: Result<(), AppError>)
        ensures
            r is Ok <==> has_content(self.entries@) && ratio_ok(
                self.total_bytes,
                total_compressed,
                self.policy,
            ),
            r matches Err(e) ==> e is Archive,
    {
        validate_archive_totals(&self.entries, self.total_bytes, total_compressed, self.policy)
    }

    /// Whether an entry met during extraction is the `index`-th entry
    /// checked before: same path, same kind and, for a file, same size.
    pub fn matches_entry(&self, index: usize, relative: &str, is_directory: bool, size: u64) -> (b: bool)
        ensures
            b == (index < self.entries@.len() && self.entries@[index as int].relative@ == relative@
                && self.entries@[index as int].is_directory == is_directory && (is_directory
                || self.entries@[index as int].size == size)),
    {
        if index >= self.entries.len() {
            return false;
        }
        let e = &self.entries[index];
        let a = to_chars(e.relative.as_str());
        let b = to_chars(relative);
        crate::text::chars_eq(a.as_slice(), b.as_slice()) && e.is_directory == is_directory && (is_directory
            || e.size == size)
    }
}

// ---------------------------------------------------------------------------
// Names of the staged source
// ---------------------------------------------------------------------------
pub open spec fn imported_mod() -> Seq<char> {
    "Imported Mod"@
}

/// The name shown for a source: its file name unless that is blank.
pub open spec fn spec_source_display_name(source: Seq<char>) -> Seq<char> {
    match file_name(source) {
        Some(n) => if trim(n).len() > 0 {
            n
        } else {
            imported_mod()
        },
        None => imported_mod(),
    }
}

pub fn source_display_name(source: &str) -> (r: String)
    ensures
        r@ == spec_source_display_name(source@),
{
    let chars = to_chars(source);
    match file_name_chars(chars.as_slice()) {
        Some(n) => {
            if trim_chars(n.as_slice()).len() > 0 {
                from_chars(n.as_slice())
            } else {
                crate::text::copy_str("Imported Mod")
            }
        },
        None => crate::text::copy_str("Imported Mod"),
    }
}

/// Characters that cannot stand in a Windows file name.
pub open spec fn unsafe_name_char(c: char) -> bool {
    is_ctrl(c) || c == '<' || c == '>' || c == ':' || c == '"' || c == '/' || c == '\\' || c == '|'
        || c == '?' || c == '*'
}

pub open spec fn replaced_name(v: Seq<char>) -> Seq<char> {
    Seq::new(v.len(), |i: int| if unsafe_name_char(v[i]) { '_' } else { v[i] })
}

/// Number of trailing `.` and space characters.
pub open spec fn trailing_dots(s: Seq<char>) -> nat
    decreases s.len(),
{
    if s.len() > 0 && (s.last() == '.' || s.last() == ' ') {
        trailing_dots(s.drop_last()) + 1
    } else {
        0
    }
}

proof fn lemma_trailing_dots_bound(s: Seq<char>)
    ensures
        trailing_dots(s) <= s.len(),
    decreases s.len(),
{
    if s.len() > 0 && (s.last() == '.' || s.last() == ' ') {
        lemma_trailing_dots_bound(s.drop_last());
    }
}

/// The staging directory name of a source folder: unsafe characters become
/// `_`; the name is trimmed and loses trailing dots and spaces; a blank name
/// becomes `Imported Mod`; a name longer than 120 UTF-16 units keeps its
/// first 100 characters; a name that is still not a safe relative path
/// becomes `Imported Mod-` and the first 8 hexadecimal digits of the BLAKE3
/// digest of the original name.
pub open spec fn spec_safe_source_directory_name(value: Seq<char>) -> Seq<char> {
    let t0 = trim(replaced_name(value));
    let t = t0.take(t0.len() - trailing_dots(t0));
    let a = if t.len() == 0 {
        imported_mod()
    } else {
        t
    };
    let b = if utf16_len(a) > 120 {
        a.take(if a.len() < 100 {
            a.len() as int
        } else {
            100
        })
    } else {
        a
    };
    if valid_relative(b) {
        b
    } else {
        "Imported Mod-"@ + blake3_hex(vstd::utf8::encode_utf8(value)).take(8)
    }
}

pub fn safe_source_directory_name(value: &str) -> (r: String)
    ensures
        r@ == spec_safe_source_directory_name(value@),
{
    let chars = to_chars(value);
    let mut replaced: Vec<char> = Vec::new();
    let mut i: usize = 0;
    while i < chars.len()
        invariant
            i <= chars@.len(),
            replaced@ =~= replaced_name(chars@.take(i as int)),
        decreases chars@.len() - i,
    {
        let c = chars[i];
        let unsafe_char = is_control(c) || c == '<' || c == '>' || c == ':' || c == '"' || c == '/' || c
            == '\\' || c == '|' || c == '?' || c == '*';
        replaced.push(if unsafe_char { '_' } else { c });
        i = i + 1;
    }
    proof {
        assert(chars@.take(chars@.len() as int) =~= chars@);
    }
    let t0 = trim_chars(replaced.as_slice());
    let ghost tv = t0@;
    let mut n = t0.len();
    proof {
        lemma_trailing_dots_bound(tv);
        assert(tv.take(n as int) =~= tv);
    }
    while n > 0 && (t0[n - 1] == '.' || t0[n - 1] == ' ')
        invariant
            n <= tv.len(),
            tv == t0@,
            trailing_dots(tv) == trailing_dots(tv.take(n as int)) + (tv.len() - n),
        decreases n,
    {
        proof {
            assert(tv.take(n as int).drop_last() =~= tv.take(n - 1));
        }
        n = n - 1;
    }
    let mut name = slice_to_vec(slice_subrange(t0.as_slice(), 0, n));
    if name.len() == 0 {
        name = to_chars("Imported Mod");
    }
    if !utf16_within(name.as_slice(), 120) {
        let keep = if name.len() < 100 {
            name.len()
        } else {
            100
        };
        name = slice_to_vec(slice_subrange(name.as_slice(), 0, keep));
    }
    if is_valid_relative(name.as_slice()) {
        return from_chars(name.as_slice());
    }
    let bytes = utf8_bytes(chars.as_slice());
    let hex = blake3_hex_chars(bytes.as_slice());
    let out = concat(to_chars("Imported Mod-").as_slice(), slice_subrange(hex.as_slice(), 0, 8));
    from_chars(out.as_slice())
}

/// The warning given when a source's extension disagrees with the format
/// its signature shows.
pub open spec fn extension_mismatch(source_name: Seq<char>, expected: Seq<char>) -> Seq<char> {
    "文件 "@ + source_name + " 的扩展名与检测到的 "@ + expected + " 格式不一致；AEMM 已按文件签名处理。"@
}

pub fn extension_warning(source: &str, expected: &str, source_name: &str) -> (r: Vec<String>)
    ensures
        (match crate::ini_facts::path_extension(source@) {
            Some(e) => eq_ic(e, expected@),
            None => false,
        }) ==> r@.len() == 0,
        !(match crate::ini_facts::path_extension(source@) {
            Some(e) => eq_ic(e, expected@),
            None => false,
        }) ==> r@.len() == 1 && r@[0]@ == extension_mismatch(source_name@, expected@),
{
    let chars = to_chars(source);
    let exp = to_chars(expected);
    let matches = match crate::ini_facts::path_extension_chars(chars.as_slice()) {
        Some(e) => chars_eq_ic(e.as_slice(), exp.as_slice()),
        None => false,
    };
    let mut r: Vec<String> = Vec::new();
    if !matches {
        let a = concat_str(to_chars("文件 ").as_slice(), source_name);
        let b = concat_str(a.as_slice(), " 的扩展名与检测到的 ");
        let c = concat_str(b.as_slice(), expected);
        let d = concat_str(c.as_slice(), " 格式不一致；AEMM 已按文件签名处理。");
        r.push(from_chars(d.as_slice()));
    }
    r
}

/// Progress is reported for the last item, when all bytes are done, and
/// whenever the byte count has just crossed a 4 MiB step.
pub open spec fn spec_should_emit_progress(index: nat, total_items: nat, processed_bytes: u64, total_bytes: u64) -> bool {
    let processed_items = if index + 1 > u64::MAX {
        u64::MAX as int
    } else {
        (index + 1) as int
    };
    let total = if total_items > u64::MAX {
        u64::MAX as int
    } else {
        total_items as int
    };
    processed_items == total || processed_bytes == total_bytes || processed_bytes % 4194304 < 131072
}

pub fn should_emit_progress(index: usize, total_items: usize, processed_bytes: u64, total_bytes: u64) -> (b: bool)
    ensures
        b == spec_should_emit_progress(index as nat, total_items as nat, processed_bytes, total_bytes),
{
    let processed_items: u64 = if index as u64 == u64::MAX {
        u64::MAX
    } else {
        index as u64 + 1
    };
    let total = total_items as u64;
    processed_items == total || processed_bytes == total_bytes || processed_bytes % 4194304 < 131072
}

} // verus!
