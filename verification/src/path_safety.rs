//! Lexical path safety for the Windows paths the manager works with.
//!
//! A path is a character sequence in which `/` and `\` both separate
//! segments. Validation works on the segments alone; nothing here touches
//! the disk.
use vstd::prelude::*;
use crate::error::AppError;
use crate::text::{
    chars_eq, copy_str, from_chars, is_ascii_lower, is_ascii_upper, slice_subrange, slice_to_vec,
    to_chars, upper_chars, upper_seq,
};

verus! {

pub open spec fn is_sep(c: char) -> bool {
    c == '/' || c == '\\'
}

/// The segments of `s` between separators, empty ones included.
pub open spec fn split_segments(s: Seq<char>) -> Seq<Seq<char>>
    decreases s.len(),
{
    if s.len() == 0 {
        seq![Seq::<char>::empty()]
    } else {
        let rest = split_segments(s.drop_last());
        if is_sep(s.last()) {
            rest.push(Seq::<char>::empty())
        } else {
            rest.update(rest.len() - 1, rest.last().push(s.last()))
        }
    }
}

pub proof fn lemma_split_nonempty(s: Seq<char>)
    ensures
        split_segments(s).len() >= 1,
    decreases s.len(),
{
    if s.len() > 0 {
        lemma_split_nonempty(s.drop_last());
    }
}

pub open spec fn dot() -> Seq<char> {
    seq!['.']
}

pub open spec fn dot_dot() -> Seq<char> {
    seq!['.', '.']
}

/// The part of a segment before its first `.`.
pub open spec fn stem_len(seg: Seq<char>) -> nat
    decreases seg.len(),
{
    if seg.len() == 0 || seg[0] == '.' {
        0
    } else {
        1 + stem_len(seg.drop_first())
    }
}

pub open spec fn stem(seg: Seq<char>) -> Seq<char> {
    seg.take(stem_len(seg) as int)
}

/// Characters Windows does not allow in a file name.
pub open spec fn forbidden_char(c: char) -> bool {
    c == '<' || c == '>' || c == ':' || c == '"' || c == '|' || c == '?' || c == '*' || c <= '\u{1f}'
}

/// Windows reserved device names (`CON`, `PRN`, `AUX`, `NUL`, `COM1`–`COM9`,
/// `LPT1`–`LPT9`), given in upper case.
pub open spec fn is_reserved_device(u: Seq<char>) -> bool {
    ||| u == seq!['C', 'O', 'N']
    ||| u == seq!['P', 'R', 'N']
    ||| u == seq!['A', 'U', 'X']
    ||| u == seq!['N', 'U', 'L']
    ||| (u.len() == 4 && (u.take(3) == seq!['C', 'O', 'M'] || u.take(3) == seq!['L', 'P', 'T'])
        && '1' <= u[3] && u[3] <= '9')
}

/// A single file or directory name Windows accepts: non-empty, not ending in
/// `.` or space, free of forbidden characters, and not a reserved device name
/// (compared case-insensitively on the part before the first `.`).
pub open spec fn valid_segment(seg: Seq<char>) -> bool {
    &&& seg.len() > 0
    &&& seg.last() != '.'
    &&& seg.last() != ' '
    &&& forall|i: int| 0 <= i < seg.len() ==> !forbidden_char(#[trigger] seg[i])
    &&& !is_reserved_device(upper_seq(stem(seg)))
}

/// A safe relative path: non-empty, not rooted, every non-empty segment is
/// either `.` or a valid name (so `..`, drive prefixes and device names are
/// refused), and at least one segment is a real name.
pub open spec fn valid_relative(s: Seq<char>) -> bool {
    let segs = split_segments(s);
    &&& s.len() > 0
    &&& !is_sep(s[0])
    &&& forall|k: int|
        0 <= k < segs.len() && #[trigger] segs[k].len() > 0 ==> segs[k] == dot() || valid_segment(
            segs[k],
        )
    &&& exists|k: int| 0 <= k < segs.len() && #[trigger] segs[k].len() > 0 && segs[k] != dot()
}

/// A safe relative path has no parent component, no root or drive prefix
/// and no device name: it is not rooted, no segment is `..`, no segment
/// holds a `:` (so none is a drive prefix), and each real name is a valid
/// Windows name whose part before the first `.` is not a reserved device.
pub proof fn lemma_valid_relative_components(s: Seq<char>)
    requires
        valid_relative(s),
    ensures
        s.len() > 0 && !is_sep(s[0]),
        forall|k: int| 0 <= k < split_segments(s).len() ==> #[trigger] split_segments(s)[k] != dot_dot(),
        forall|k: int, i: int|
            0 <= k < split_segments(s).len() && 0 <= i < split_segments(s)[k].len() ==> #[trigger] split_segments(
                s,
            )[k][i] != ':',
        forall|k: int|
            0 <= k < split_segments(s).len() && #[trigger] split_segments(s)[k].len() > 0 && split_segments(s)[k]
                != dot() ==> !is_reserved_device(upper_seq(stem(split_segments(s)[k]))),
{
    let segs = split_segments(s);
    assert forall|k: int| 0 <= k < segs.len() implies #[trigger] segs[k] != dot_dot() by {
        if segs[k] == dot_dot() {
            assert(segs[k].len() > 0);
            assert(segs[k] != dot());
            assert(segs[k].last() == '.');
        }
    }
    assert forall|k: int, i: int| 0 <= k < segs.len() && 0 <= i < segs[k].len() implies #[trigger] segs[k][i]
        != ':' by {
        if segs[k] == dot() {
        } else {
            assert(valid_segment(segs[k]));
            assert(!forbidden_char(segs[k][i]));
        }
    }
}

/// Selects the non-empty segments.
pub open spec fn named_pred() -> spec_fn(Seq<char>) -> bool {
    |seg: Seq<char>| seg.len() > 0
}

/// The non-empty segments of a path (its named components).
pub open spec fn named_segments(s: Seq<char>) -> Seq<Seq<char>> {
    split_segments(s).filter(named_pred())
}

/// Splits a path into its segments, empty ones included.
pub fn segments(s: &[char]) -> (r: Vec<Vec<char>>)
    ensures
        r@.len() == split_segments(s@).len(),
        forall|k: int| 0 <= k < r@.len() ==> #[trigger] r@[k]@ == split_segments(s@)[k],
{
    let mut r: Vec<Vec<char>> = Vec::new();
    r.push(Vec::new());
    let mut i: usize = 0;
    proof {
        assert(s@.take(0) =~= Seq::<char>::empty());
    }
    while i < s.len()
        invariant
            i <= s.len(),
            r@.len() == split_segments(s@.take(i as int)).len(),
            r@.len() >= 1,
            forall|k: int| 0 <= k < r@.len() ==> #[trigger] r@[k]@ == split_segments(s@.take(i as int))[k],
        decreases s.len() - i,
    {
        let c = s[i];
        proof {
            assert(s@.take(i + 1).drop_last() =~= s@.take(i as int));
            assert(s@.take(i + 1).last() == c);
        }
        if c == '/' || c == '\\' {
            r.push(Vec::new());
        } else {
            let last = r.len() - 1;
            let mut seg = r.remove(last);
            seg.push(c);
            r.push(seg);
        }
        i = i + 1;
        proof {
            let t = s@.take(i as int);
            assert forall|k: int| 0 <= k < r@.len() implies #[trigger] r@[k]@ == split_segments(t)[k] by {
            }
        }
    }
    proof {
        assert(s@.take(s@.len() as int) =~= s@);
    }
    r
}

fn is_separator(c: char) -> (b: bool)
    ensures
        b == is_sep(c),
{
    c == '/' || c == '\\'
}

/// Length of the part of `seg` before its first `.`.
fn stem_length(seg: &[char]) -> (n: usize)
    ensures
        n == stem_len(seg@),
        n <= seg.len(),
{
    let mut n: usize = 0;
    proof {
        assert(seg@.skip(0) =~= seg@);
    }
    while n < seg.len() && seg[n] != '.'
        invariant
            n <= seg.len(),
            stem_len(seg@) == n + stem_len(seg@.skip(n as int)),
        decreases seg.len() - n,
    {
        proof {
            assert(seg@.skip(n as int).drop_first() =~= seg@.skip(n + 1));
            assert(seg@.skip(n as int)[0] == seg@[n as int]);
        }
        n = n + 1;
    }
    proof {
        if n < seg.len() {
            assert(seg@.skip(n as int)[0] == seg@[n as int]);
        }
    }
    n
}

fn is_reserved(u: &[char]) -> (b: bool)
    ensures
        b == is_reserved_device(u@),
{
    let n = u.len();
    if n == 3 {
        let r = (u[0] == 'C' && u[1] == 'O' && u[2] == 'N') || (u[0] == 'P' && u[1] == 'R' && u[2]
            == 'N') || (u[0] == 'A' && u[1] == 'U' && u[2] == 'X') || (u[0] == 'N' && u[1] == 'U'
            && u[2] == 'L');
        proof {
            if r {
            } else {
                assert(u@ != seq!['C', 'O', 'N']) by {
                    if u@ == seq!['C', 'O', 'N'] {
                        assert(u@[0] == 'C' && u@[1] == 'O' && u@[2] == 'N');
                    }
                }
                assert(u@ != seq!['P', 'R', 'N']) by {
                    if u@ == seq!['P', 'R', 'N'] {
                        assert(u@[0] == 'P' && u@[1] == 'R' && u@[2] == 'N');
                    }
                }
                assert(u@ != seq!['A', 'U', 'X']) by {
                    if u@ == seq!['A', 'U', 'X'] {
                        assert(u@[0] == 'A' && u@[1] == 'U' && u@[2] == 'X');
                    }
                }
                assert(u@ != seq!['N', 'U', 'L']) by {
                    if u@ == seq!['N', 'U', 'L'] {
                        assert(u@[0] == 'N' && u@[1] == 'U' && u@[2] == 'L');
                    }
                }
            }
            if u@[0] == 'C' && u@[1] == 'O' && u@[2] == 'N' {
                assert(u@ =~= seq!['C', 'O', 'N']);
            }
            if u@[0] == 'P' && u@[1] == 'R' && u@[2] == 'N' {
                assert(u@ =~= seq!['P', 'R', 'N']);
            }
            if u@[0] == 'A' && u@[1] == 'U' && u@[2] == 'X' {
                assert(u@ =~= seq!['A', 'U', 'X']);
            }
            if u@[0] == 'N' && u@[1] == 'U' && u@[2] == 'L' {
                assert(u@ =~= seq!['N', 'U', 'L']);
            }
        }
        r
    } else if n == 4 {
        let com = u[0] == 'C' && u[1] == 'O' && u[2] == 'M';
        let lpt = u[0] == 'L' && u[1] == 'P' && u[2] == 'T';
        let digit = '1' <= u[3] && u[3] <= '9';
        proof {
            if com {
                assert(u@.take(3) =~= seq!['C', 'O', 'M']);
            }
            if lpt {
                assert(u@.take(3) =~= seq!['L', 'P', 'T']);
            }
            if u@.take(3) == seq!['C', 'O', 'M'] {
                assert(u@.take(3)[0] == 'C' && u@.take(3)[1] == 'O' && u@.take(3)[2] == 'M');
            }
            if u@.take(3) == seq!['L', 'P', 'T'] {
                assert(u@.take(3)[0] == 'L' && u@.take(3)[1] == 'P' && u@.take(3)[2] == 'T');
            }
            assert(seq!['C', 'O', 'N'].len() == 3);
            assert(seq!['P', 'R', 'N'].len() == 3);
            assert(seq!['A', 'U', 'X'].len() == 3);
            assert(seq!['N', 'U', 'L'].len() == 3);
        }
        (com || lpt) && digit
    } else {
        proof {
            assert(seq!['C', 'O', 'N'].len() == 3);
            assert(seq!['P', 'R', 'N'].len() == 3);
            assert(seq!['A', 'U', 'X'].len() == 3);
            assert(seq!['N', 'U', 'L'].len() == 3);
        }
        false
    }
}

fn is_forbidden(c: char) -> (b: bool)
    ensures
        b == forbidden_char(c),
{
    c == '<' || c == '>' || c == ':' || c == '"' || c == '|' || c == '?' || c == '*' || c <= '\u{1f}'
}

/// Whether a single segment is a name Windows accepts.
pub fn segment_is_valid(seg: &[char]) -> (b: bool)
    ensures
        b == valid_segment(seg@),
{
    if seg.len() == 0 {
        return false;
    }
    let last = seg[seg.len() - 1];
    if last == '.' || last == ' ' {
        return false;
    }
    let mut i: usize = 0;
    while i < seg.len()
        invariant
            i <= seg.len(),
            forall|j: int| 0 <= j < i ==> !forbidden_char(#[trigger] seg@[j]),
        decreases seg.len() - i,
    {
        if is_forbidden(seg[i]) {
            return false;
        }
        i = i + 1;
    }
    let n = stem_length(seg);
    let upper = upper_chars(slice_subrange(seg, 0, n));
    proof {
        assert(seg@.subrange(0, n as int) =~= stem(seg@));
    }
    !is_reserved(upper.as_slice())
}

/// Validates one segment, reporting why a Windows name is refused.
fn validate_windows_segment(segment: &[char]) -> (r: Result<(), AppError>)
    ensures
        r is Ok <==> valid_segment(segment@),
        r matches Err(e) ==> e is UnsafePath,
{
    if segment_is_valid(segment) {
        Ok(())
    } else {
        let n = stem_length(segment);
        let upper = upper_chars(slice_subrange(segment, 0, n));
        if segment.len() > 0 && is_reserved(upper.as_slice()) {
            Err(AppError::UnsafePath(crate::error::msg("路径包含 Windows 保留设备名。")))
        } else {
            Err(AppError::UnsafePath(crate::error::msg("路径包含 Windows 不允许的文件名字符。")))
        }
    }
}

fn is_dot(seg: &[char]) -> (b: bool)
    ensures
        b == (seg@ == dot()),
{
    let r = seg.len() == 1 && seg[0] == '.';
    proof {
        if r {
            assert(seg@ =~= dot());
        }
        if seg@ == dot() {
            assert(seg@[0] == '.');
        }
    }
    r
}

/// Whether `path` (as characters) is a safe relative path.
pub fn is_valid_relative(path: &[char]) -> (b: bool)
    ensures
        b == valid_relative(path@),
{
    if path.len() == 0 || is_separator(path[0]) {
        return false;
    }
    let segs = segments(path);
    let ghost ss = split_segments(path@);
    let mut named = false;
    let mut k: usize = 0;
    while k < segs.len()
        invariant
            k <= segs.len(),
            segs@.len() == ss.len(),
            ss == split_segments(path@),
            forall|j: int| 0 <= j < segs@.len() ==> #[trigger] segs@[j]@ == ss[j],
            forall|j: int|
                0 <= j < k && #[trigger] ss[j].len() > 0 ==> ss[j] == dot() || valid_segment(ss[j]),
            named <==> exists|j: int| 0 <= j < k && #[trigger] ss[j].len() > 0 && ss[j] != dot(),
        decreases segs.len() - k,
    {
        let seg = &segs[k];
        proof {
            assert(seg@ == ss[k as int]);
        }
        if seg.len() > 0 {
            if is_dot(seg.as_slice()) {
            } else {
                if !segment_is_valid(seg.as_slice()) {
                    return false;
                }
                named = true;
            }
        }
        k = k + 1;
    }
    named
}

/// Rejects anything but a safe relative path: empty paths, rooted paths,
/// drive or device prefixes, parent (`..`) segments, and segments that are
/// not valid Windows names.
pub fn validate_relative_path(path: &str) -> (r: Result<(), AppError>)
    ensures
        r is Ok <==> valid_relative(path@),
        r matches Err(e) ==> e is UnsafePath,
{
    let chars = to_chars(path);
    validate_relative_chars(chars.as_slice())
}

/// `validate_relative_path` on characters.
pub fn validate_relative_chars(path: &[char]) -> (r: Result<(), AppError>)
    ensures
        r is Ok <==> valid_relative(path@),
        r matches Err(e) ==> e is UnsafePath,
{
    if path.len() == 0 {
        return Err(AppError::UnsafePath(crate::error::msg("路径不能为空。")));
    }
    if is_separator(path[0]) {
        return Err(
            AppError::UnsafePath(
                crate::error::msg("路径必须是安全的相对路径，不能包含父级、根目录或设备前缀。"),
            ),
        );
    }
    if is_valid_relative(path) {
        return Ok(());
    }
    let segs = segments(path);
    let mut k: usize = 0;
    while k < segs.len()
        invariant
            k <= segs.len(),
            !valid_relative(path@),
        decreases segs.len() - k,
    {
        let seg = &segs[k];
        if seg.len() == 2 && seg[0] == '.' && seg[1] == '.' {
            return Err(
                AppError::UnsafePath(
                    crate::error::msg("路径必须是安全的相对路径，不能包含父级、根目录或设备前缀。"),
                ),
            );
        }
        if seg.len() > 0 && !is_dot(seg.as_slice()) {
            let r = validate_windows_segment(seg.as_slice());
            if r.is_err() {
                return r;
            }
        }
        k = k + 1;
    }
    Err(AppError::UnsafePath(crate::error::msg("路径必须包含至少一个文件或目录名。")))
}

/// `root` joined with `relative`, with a `/` between them unless `root` is
/// empty or already ends in a separator.
pub open spec fn join_path(root: Seq<char>, relative: Seq<char>) -> Seq<char> {
    if root.len() == 0 {
        relative
    } else if is_sep(root.last()) {
        root + relative
    } else {
        root.push('/') + relative
    }
}

pub fn join_chars(root: &[char], relative: &[char]) -> (r: Vec<char>)
    ensures
        r@ == join_path(root@, relative@),
{
    let mut r = slice_to_vec(root);
    if root.len() > 0 && !is_separator(root[root.len() - 1]) {
        r.push('/');
    }
    let mut i: usize = 0;
    let ghost base = r@;
    while i < relative.len()
        invariant
            i <= relative.len(),
            r@ == base + relative@.take(i as int),
        decreases relative.len() - i,
    {
        r.push(relative[i]);
        i = i + 1;
        proof {
            assert(base + relative@.take(i as int) =~= (base + relative@.take(i - 1)).push(
                relative@[i - 1],
            ));
        }
    }
    proof {
        assert(relative@.take(relative@.len() as int) =~= relative@);
    }
    r
}

/// Joins `relative` under `root` only when `relative` is a safe relative path.
pub fn join_lexically_contained(root: &str, relative: &str) -> (r: Result<String, AppError>)
    ensures
        r is Ok <==> valid_relative(relative@),
        r matches Ok(p) ==> p@ == join_path(root@, relative@),
        r matches Err(e) ==> e is UnsafePath,
{
    validate_relative_path(relative)?;
    let root_chars = to_chars(root);
    let rel_chars = to_chars(relative);
    let joined = join_chars(root_chars.as_slice(), rel_chars.as_slice());
    Ok(from_chars(joined.as_slice()))
}

/// The components of a path compared by `Path::starts_with`: a root marker
/// when the path begins with a separator, then its non-empty segments.
pub open spec fn components(s: Seq<char>) -> Seq<Seq<char>> {
    if s.len() > 0 && is_sep(s[0]) {
        seq![seq!['/']] + named_segments(s)
    } else {
        named_segments(s)
    }
}

/// `candidate` lies strictly below `root`: the components of `root` are a
/// proper prefix of those of `candidate`.
pub open spec fn strictly_below(root: Seq<char>, candidate: Seq<char>) -> bool {
    let r = components(root);
    let c = components(candidate);
    r.len() < c.len() && c.take(r.len() as int) == r
}

/// The named (non-empty) segments of a path, as vectors.
pub fn component_list(s: &[char]) -> (r: Vec<Vec<char>>)
    ensures
        r@.len() == components(s@).len(),
        forall|k: int| 0 <= k < r@.len() ==> #[trigger] r@[k]@ == components(s@)[k],
{
    let segs = segments(s);
    let ghost ss = split_segments(s@);
    let mut r: Vec<Vec<char>> = Vec::new();
    let rooted = s.len() > 0 && is_separator(s[0]);
    if rooted {
        let mut root_marker: Vec<char> = Vec::new();
        root_marker.push('/');
        r.push(root_marker);
    }
    let ghost prefix: Seq<Seq<char>> = if rooted {
        seq![seq!['/']]
    } else {
        Seq::empty()
    };
    proof {
        assert(ss.take(0).filter(named_pred()) =~= Seq::<Seq<char>>::empty());
    }
    let mut k: usize = 0;
    while k < segs.len()
        invariant
            k <= segs.len(),
            segs@.len() == ss.len(),
            ss == split_segments(s@),
            forall|j: int| 0 <= j < segs@.len() ==> #[trigger] segs@[j]@ == ss[j],
            r@.len() == prefix.len() + ss.take(k as int).filter(named_pred()).len(),
            forall|j: int|
                0 <= j < r@.len() ==> #[trigger] r@[j]@ == (prefix + ss.take(k as int).filter(
                    named_pred(),
                ))[j],
        decreases segs.len() - k,
    {
        let ghost before = ss.take(k as int).filter(named_pred());
        proof {
            assert(ss.take(k + 1).drop_last() =~= ss.take(k as int));
            assert(ss.take(k + 1).last() == ss[k as int]);
            assert(ss.take(k as int).push(ss[k as int]) =~= ss.take(k + 1));
            ss.take(k as int).lemma_filter_push(ss[k as int], named_pred());
        }
        if segs[k].len() > 0 {
            let copy = slice_to_vec(segs[k].as_slice());
            r.push(copy);
            proof {
                assert(ss.take(k + 1).filter(named_pred()) == before.push(ss[k as int]));
                assert(prefix + before.push(ss[k as int]) =~= (prefix + before).push(ss[k as int]));
            }
        } else {
            proof {
                assert(ss.take(k + 1).filter(named_pred()) == before);
            }
        }
        k = k + 1;
    }
    proof {
        assert(ss.take(ss.len() as int) =~= ss);
        if rooted {
            assert(components(s@) == prefix + named_segments(s@));
        } else {
            assert(prefix + named_segments(s@) =~= named_segments(s@));
        }
    }
    r
}

pub(crate) fn seg_vec_eq(a: &Vec<Vec<char>>, b: &Vec<Vec<char>>, n: usize) -> (r: bool)
    requires
        n <= a@.len(),
        n <= b@.len(),
    ensures
        r == (forall|j: int| 0 <= j < n ==> a@[j]@ == b@[j]@),
{
    let mut i: usize = 0;
    while i < n
        invariant
            i <= n,
            n <= a@.len(),
            n <= b@.len(),
            forall|j: int| 0 <= j < i ==> a@[j]@ == b@[j]@,
        decreases n - i,
    {
        if !chars_eq(a[i].as_slice(), b[i].as_slice()) {
            return false;
        }
        i = i + 1;
    }
    true
}

/// Whether `candidate` lies strictly below `root`, comparing components.
pub fn is_strictly_below(root: &str, candidate: &str) -> (b: bool)
    ensures
        b == strictly_below(root@, candidate@),
{
    let rc = to_chars(root);
    let cc = to_chars(candidate);
    let r = component_list(rc.as_slice());
    let c = component_list(cc.as_slice());
    if r.len() >= c.len() {
        return false;
    }
    let same = seg_vec_eq(&r, &c, r.len());
    proof {
        let rs = components(root@);
        let cs = components(candidate@);
        if same {
            assert forall|j: int| 0 <= j < rs.len() implies cs.take(rs.len() as int)[j] == rs[j] by {
                assert(r@[j]@ == c@[j]@);
            }
            assert(cs.take(rs.len() as int) =~= rs);
        } else {
            if cs.take(rs.len() as int) == rs {
                assert forall|j: int| 0 <= j < r@.len() implies r@[j]@ == c@[j]@ by {
                    assert(cs.take(rs.len() as int)[j] == cs[j]);
                }
            }
        }
    }
    same
}

/// Given the canonical forms of a managed root and of a candidate, accepts
/// the candidate only when it lies strictly below the root (the root itself
/// is refused) and returns it.
pub fn ensure_existing_child(canonical_root: &str, canonical_candidate: &str) -> (r: Result<
    String,
    AppError,
>)
    ensures
        r is Ok <==> strictly_below(canonical_root@, canonical_candidate@),
        r matches Ok(p) ==> p@ == canonical_candidate@,
        r matches Err(e) ==> e is UnsafePath,
{
    if !is_strictly_below(canonical_root, canonical_candidate) {
        return Err(AppError::UnsafePath(crate::error::msg("目标不是允许管理目录中的子路径。")));
    }
    Ok(copy_str(canonical_candidate))
}

/// `/`-separated storage form of a path: every `\` becomes `/`.
pub open spec fn storage_form(s: Seq<char>) -> Seq<char> {
    Seq::new(s.len(), |i: int| if s[i] == '\\' { '/' } else { s[i] })
}

pub fn storage_chars(s: &[char]) -> (r: Vec<char>)
    ensures
        r@ == storage_form(s@),
{
    let mut r: Vec<char> = Vec::new();
    let mut i: usize = 0;
    while i < s.len()
        invariant
            i <= s.len(),
            r@ =~= storage_form(s@.take(i as int)),
        decreases s.len() - i,
    {
        let c = s[i];
        r.push(if c == '\\' { '/' } else { c });
        i = i + 1;
    }
    proof {
        assert(s@.take(s@.len() as int) =~= s@);
    }
    r
}

/// The storage form of a path string.
pub fn storage_path(path: &str) -> (r: String)
    ensures
        r@ == storage_form(path@),
{
    let c = to_chars(path);
    let s = storage_chars(c.as_slice());
    from_chars(s.as_slice())
}

/// An absolute Windows path: a drive letter, `:` and a separator, or two
/// leading separators (a UNC or verbatim path).
pub open spec fn is_absolute_path(p: Seq<char>) -> bool {
    ||| p.len() >= 3 && (is_ascii_upper(p[0]) || is_ascii_lower(p[0])) && p[1] == ':' && is_sep(p[2])
    ||| p.len() >= 2 && is_sep(p[0]) && is_sep(p[1])
}

pub fn is_absolute_chars(p: &[char]) -> (b: bool)
    ensures
        b == is_absolute_path(p@),
{
    let n = p.len();
    (n >= 3 && (('A' <= p[0] && p[0] <= 'Z') || ('a' <= p[0] && p[0] <= 'z')) && p[1] == ':'
        && is_separator(p[2])) || (n >= 2 && is_separator(p[0]) && is_separator(p[1]))
}

/// `dir` is a direct child of `root`: its components are those of `root`
/// and one more.
pub open spec fn direct_child(root: Seq<char>, dir: Seq<char>) -> bool {
    let r = components(root);
    let c = components(dir);
    c.len() == r.len() + 1 && c.take(r.len() as int) == r
}

pub fn is_direct_child(root: &[char], dir: &[char]) -> (b: bool)
    ensures
        b == direct_child(root@, dir@),
{
    let r = component_list(root);
    let c = component_list(dir);
    if c.len() == 0 || c.len() - 1 != r.len() {
        return false;
    }
    let same = seg_vec_eq(&r, &c, r.len());
    proof {
        let rs = components(root@);
        let cs = components(dir@);
        if same {
            assert forall|j: int| 0 <= j < rs.len() implies cs.take(rs.len() as int)[j] == rs[j] by {
                assert(r@[j]@ == c@[j]@);
            }
            assert(cs.take(rs.len() as int) =~= rs);
        } else {
            if cs.take(rs.len() as int) == rs {
                assert forall|j: int| 0 <= j < r@.len() implies r@[j]@ == c@[j]@ by {
                    assert(cs.take(rs.len() as int)[j] == cs[j]);
                }
            }
        }
    }
    same
}

} // verus!
